//! Keyed accumulator of telemetry records: every key appears at most once,
//! and merging a record with an existing key obeys the weighted-average
//! law of `records`.

use vstd::prelude::*;
use crate::records::{
    APICallsDotRecord, DotRecord, DotRecordKey, spec_merge_fits, spec_merged, merge_record_pair,
};

verus! {

/// First record of `m` carrying the key `k`, if any.
pub open spec fn spec_get(m: Seq<DotRecord>, k: DotRecordKey) -> Option<DotRecord>
    decreases m.len(),
{
    if m.len() == 0 {
        None
    } else if m[0].spec_key() == k {
        Some(m[0])
    } else {
        spec_get(m.skip(1), k)
    }
}

/// No two records of `m` carry the same key.
pub open spec fn wf_records(m: Seq<DotRecord>) -> bool {
    forall|i: int, j: int|
        0 <= i < j < m.len() ==> m[i].spec_key() != m[j].spec_key()
}

/// Result of merging `r` into `m`: the first record with `r`'s key is
/// replaced by the merged record, or `r` is appended if the key is new.
pub open spec fn spec_merge_into(m: Seq<DotRecord>, r: DotRecord) -> Seq<DotRecord>
    decreases m.len(),
{
    if m.len() == 0 {
        seq![r]
    } else if m[0].spec_key() == r.spec_key() {
        seq![spec_merged(m[0], r)] + m.skip(1)
    } else {
        seq![m[0]] + spec_merge_into(m.skip(1), r)
    }
}

/// Whether merging `r` into `m` stays within the field widths.
pub open spec fn spec_can_merge(m: Seq<DotRecord>, r: DotRecord) -> bool {
    match spec_get(m, r.spec_key()) {
        Some(e) => spec_merge_fits(e, r),
        None => true,
    }
}

/// Result of merging each record of `rs` into `m`, in order.
pub open spec fn spec_merge_all(m: Seq<DotRecord>, rs: Seq<DotRecord>) -> Seq<DotRecord>
    decreases rs.len(),
{
    if rs.len() == 0 {
        m
    } else {
        spec_merge_all(spec_merge_into(m, rs[0]), rs.skip(1))
    }
}

/// Whether every step of `spec_merge_all(m, rs)` stays within the field
/// widths.
pub open spec fn spec_can_merge_all(m: Seq<DotRecord>, rs: Seq<DotRecord>) -> bool
    decreases rs.len(),
{
    if rs.len() == 0 {
        true
    } else {
        spec_can_merge(m, rs[0]) && spec_can_merge_all(spec_merge_into(m, rs[0]), rs.skip(1))
    }
}

/// Success count stored in `m` under the key `k`; 0 when the key is absent
/// or carries no API-call record.
pub open spec fn spec_success_count_of(m: Seq<DotRecord>, k: DotRecordKey) -> int {
    match spec_get(m, k) {
        Some(DotRecord::APICalls(x)) => x.success_count as int,
        _ => 0,
    }
}

/// Failure count stored in `m` under the key `k`.
pub open spec fn spec_failed_count_of(m: Seq<DotRecord>, k: DotRecordKey) -> int {
    match spec_get(m, k) {
        Some(DotRecord::APICalls(x)) => x.failed_count as int,
        _ => 0,
    }
}

/// Sum of the success counts of the API-call records of `rs` keyed `k`.
pub open spec fn spec_sum_success(rs: Seq<DotRecord>, k: DotRecordKey) -> int
    decreases rs.len(),
{
    if rs.len() == 0 {
        0
    } else {
        (match rs[0] {
            DotRecord::APICalls(x) => if rs[0].spec_key() == k {
                x.success_count as int
            } else {
                0
            },
            DotRecord::PunishedCount(_) => 0,
        }) + spec_sum_success(rs.skip(1), k)
    }
}

/// Sum of the failure counts of the API-call records of `rs` keyed `k`.
pub open spec fn spec_sum_failed(rs: Seq<DotRecord>, k: DotRecordKey) -> int
    decreases rs.len(),
{
    if rs.len() == 0 {
        0
    } else {
        (match rs[0] {
            DotRecord::APICalls(x) => if rs[0].spec_key() == k {
                x.failed_count as int
            } else {
                0
            },
            DotRecord::PunishedCount(_) => 0,
        }) + spec_sum_failed(rs.skip(1), k)
    }
}

/// A merge keeps the key of the merged pair.
pub proof fn lemma_merged_key(a: DotRecord, b: DotRecord)
    requires
        a.spec_key() == b.spec_key(),
    ensures
        spec_merged(a, b).spec_key() == a.spec_key(),
{
}

/// Whatever the lookup returns carries the key it was asked for.
pub proof fn lemma_get_key(m: Seq<DotRecord>, k: DotRecordKey)
    ensures
        spec_get(m, k) matches Some(e) ==> e.spec_key() == k,
    decreases m.len(),
{
    if m.len() > 0 && m[0].spec_key() != k {
        lemma_get_key(m.skip(1), k);
    }
}

/// When the first match of `k` in `m` sits at index `i`, the lookup
/// returns exactly that record.
proof fn lemma_get_found(m: Seq<DotRecord>, k: DotRecordKey, i: int)
    requires
        0 <= i < m.len(),
        forall|j: int| 0 <= j < i ==> m[j].spec_key() != k,
        m[i].spec_key() == k,
    ensures
        spec_get(m, k) == Some(m[i]),
    decreases i,
{
    if i > 0 {
        lemma_get_found(m.skip(1), k, i - 1);
        assert(m.skip(1)[i - 1] == m[i]);
    }
}

/// When no record of `m` carries the key `k`, the lookup returns nothing.
proof fn lemma_get_absent(m: Seq<DotRecord>, k: DotRecordKey)
    requires
        forall|j: int| 0 <= j < m.len() ==> m[j].spec_key() != k,
    ensures
        spec_get(m, k) == None::<DotRecord>,
    decreases m.len(),
{
    if m.len() > 0 {
        lemma_get_absent(m.skip(1), k);
    }
}

/// When the first match of the merged key sits at index `i`, the merge
/// updates exactly that record.
proof fn lemma_merge_into_found(m: Seq<DotRecord>, r: DotRecord, i: int)
    requires
        0 <= i < m.len(),
        forall|j: int| 0 <= j < i ==> m[j].spec_key() != r.spec_key(),
        m[i].spec_key() == r.spec_key(),
    ensures
        spec_merge_into(m, r) =~= m.update(i, spec_merged(m[i], r)),
    decreases i,
{
    if i == 0 {
        assert(spec_merge_into(m, r) == seq![spec_merged(m[0], r)] + m.skip(1));
        assert(seq![spec_merged(m[0], r)] + m.skip(1) =~= m.update(0, spec_merged(m[0], r)));
    } else {
        lemma_merge_into_found(m.skip(1), r, i - 1);
        assert(m.skip(1)[i - 1] == m[i]);
        assert(spec_merge_into(m, r) == seq![m[0]] + spec_merge_into(m.skip(1), r));
        assert(seq![m[0]] + m.skip(1).update(i - 1, spec_merged(m[i], r)) =~= m.update(
            i,
            spec_merged(m[i], r),
        ));
    }
}

/// When the merged key is new, the merge appends the record.
proof fn lemma_merge_into_absent(m: Seq<DotRecord>, r: DotRecord)
    requires
        forall|j: int| 0 <= j < m.len() ==> m[j].spec_key() != r.spec_key(),
    ensures
        spec_merge_into(m, r) =~= m.push(r),
    decreases m.len(),
{
    if m.len() == 0 {
        assert(spec_merge_into(m, r) == seq![r]);
        assert(seq![r] =~= m.push(r));
    } else {
        lemma_merge_into_absent(m.skip(1), r);
        assert(spec_merge_into(m, r) == seq![m[0]] + spec_merge_into(m.skip(1), r));
        assert(seq![m[0]] + m.skip(1).push(r) =~= m.push(r));
    }
}

/// Looking a key up after a merge: the merged key now maps to the merged
/// record (or to the new record), every other key is untouched.
pub proof fn lemma_merge_into_get(m: Seq<DotRecord>, r: DotRecord, k: DotRecordKey)
    ensures
        spec_get(spec_merge_into(m, r), k) == (if k == r.spec_key() {
            match spec_get(m, k) {
                Some(e) => Some(spec_merged(e, r)),
                None => Some(r),
            }
        } else {
            spec_get(m, k)
        }),
    decreases m.len(),
{
    if m.len() == 0 {
        let out = seq![r];
        assert(spec_merge_into(m, r) == out);
        assert(out[0] == r);
        assert(out.skip(1) =~= Seq::<DotRecord>::empty());
        assert(spec_get(Seq::<DotRecord>::empty(), k) == None::<DotRecord>);
        if k == r.spec_key() {
            assert(spec_get(out, k) == Some(r));
        } else {
            assert(spec_get(out, k) == spec_get(out.skip(1), k));
        }
    } else if m[0].spec_key() == r.spec_key() {
        let out = seq![spec_merged(m[0], r)] + m.skip(1);
        assert(spec_merge_into(m, r) == out);
        lemma_merged_key(m[0], r);
        assert(out[0] == spec_merged(m[0], r));
        assert(out.skip(1) =~= m.skip(1));
        if k == r.spec_key() {
            assert(spec_get(out, k) == Some(out[0]));
            assert(spec_get(m, k) == Some(m[0]));
        } else {
            assert(spec_get(out, k) == spec_get(m.skip(1), k));
            assert(spec_get(m, k) == spec_get(m.skip(1), k));
        }
    } else {
        let out = seq![m[0]] + spec_merge_into(m.skip(1), r);
        assert(spec_merge_into(m, r) == out);
        assert(out[0] == m[0]);
        assert(out.skip(1) =~= spec_merge_into(m.skip(1), r));
        lemma_merge_into_get(m.skip(1), r, k);
        if k == m[0].spec_key() {
            assert(spec_get(out, k) == Some(m[0]));
            assert(spec_get(m, k) == Some(m[0]));
        } else {
            assert(spec_get(out, k) == spec_get(spec_merge_into(m.skip(1), r), k));
            assert(spec_get(m, k) == spec_get(m.skip(1), k));
        }
    }
}

/// The set of keys after a merge grows by at most the merged key, so a
/// well-formed accumulator stays well-formed.
pub proof fn lemma_merge_into_wf(m: Seq<DotRecord>, r: DotRecord)
    requires
        wf_records(m),
    ensures
        wf_records(spec_merge_into(m, r)),
        forall|i: int|
            0 <= i < spec_merge_into(m, r).len() ==> #[trigger] spec_merge_into(m, r)[i].spec_key()
                == r.spec_key() || exists|j: int|
                0 <= j < m.len() && #[trigger] m[j].spec_key() == spec_merge_into(m, r)[i].spec_key(),
    decreases m.len(),
{
    let out = spec_merge_into(m, r);
    if m.len() == 0 {
    } else if m[0].spec_key() == r.spec_key() {
        lemma_merged_key(m[0], r);
        assert(out.skip(1) =~= m.skip(1));
        assert forall|i: int, j: int| 0 <= i < j < out.len() implies out[i].spec_key()
            != out[j].spec_key() by {
            assert(out[i] == if i == 0 {
                spec_merged(m[0], r)
            } else {
                m[i]
            });
            assert(out[j] == m[j]);
        }
        assert forall|i: int| 0 <= i < out.len() implies #[trigger] out[i].spec_key()
            == r.spec_key() || exists|j: int|
            0 <= j < m.len() && #[trigger] m[j].spec_key() == out[i].spec_key() by {
            if i > 0 {
                assert(m[i].spec_key() == out[i].spec_key());
            }
        }
    } else {
        let sub = spec_merge_into(m.skip(1), r);
        assert(wf_records(m.skip(1))) by {
            assert(forall|i: int, j: int|
                0 <= i < j < m.skip(1).len() ==> m.skip(1)[i] == m[i + 1] && m.skip(1)[j] == m[j
                    + 1]);
        }
        lemma_merge_into_wf(m.skip(1), r);
        assert(out[0] == m[0]);
        assert(out.skip(1) =~= sub);
        assert forall|i: int, j: int| 0 <= i < j < out.len() implies out[i].spec_key()
            != out[j].spec_key() by {
            if i == 0 {
                assert(out[j] == sub[j - 1]);
                if sub[j - 1].spec_key() == r.spec_key() {
                    assert(out[0].spec_key() != r.spec_key());
                } else {
                    let w = choose|w: int|
                        0 <= w < m.skip(1).len() && #[trigger] m.skip(1)[w].spec_key() == sub[j
                            - 1].spec_key();
                    assert(m.skip(1)[w] == m[w + 1]);
                }
            } else {
                assert(out[i] == sub[i - 1] && out[j] == sub[j - 1]);
            }
        }
        assert forall|i: int| 0 <= i < out.len() implies #[trigger] out[i].spec_key()
            == r.spec_key() || exists|j: int|
            0 <= j < m.len() && #[trigger] m[j].spec_key() == out[i].spec_key() by {
            if i == 0 {
                assert(m[0].spec_key() == out[0].spec_key());
            } else {
                assert(out[i] == sub[i - 1]);
                if sub[i - 1].spec_key() != r.spec_key() {
                    let w = choose|w: int|
                        0 <= w < m.skip(1).len() && #[trigger] m.skip(1)[w].spec_key() == sub[i
                            - 1].spec_key();
                    assert(m[w + 1].spec_key() == out[i].spec_key());
                }
            }
        }
    }
}

/// Merging a batch leaves, under each key, the sum of what the
/// accumulator held and what the batch carries.
pub proof fn lemma_merge_all_counts(m: Seq<DotRecord>, rs: Seq<DotRecord>, k: DotRecordKey)
    requires
        spec_can_merge_all(m, rs),
    ensures
        spec_success_count_of(spec_merge_all(m, rs), k) == spec_success_count_of(m, k)
            + spec_sum_success(rs, k),
        spec_failed_count_of(spec_merge_all(m, rs), k) == spec_failed_count_of(m, k)
            + spec_sum_failed(rs, k),
    decreases rs.len(),
{
    if rs.len() == 0 {
    } else {
        let m1 = spec_merge_into(m, rs[0]);
        lemma_merge_into_get(m, rs[0], k);
        let hs: int = match rs[0] {
            DotRecord::APICalls(y) => if rs[0].spec_key() == k {
                y.success_count as int
            } else {
                0
            },
            DotRecord::PunishedCount(_) => 0,
        };
        let hf: int = match rs[0] {
            DotRecord::APICalls(y) => if rs[0].spec_key() == k {
                y.failed_count as int
            } else {
                0
            },
            DotRecord::PunishedCount(_) => 0,
        };
        assert(spec_success_count_of(m1, k) == spec_success_count_of(m, k) + hs
            && spec_failed_count_of(m1, k) == spec_failed_count_of(m, k) + hf) by {
            if rs[0].spec_key() == k {
                match (spec_get(m, k), rs[0]) {
                    (Some(e), DotRecord::APICalls(y)) => {
                        assert(spec_merge_fits(e, rs[0]));
                        lemma_get_key(m, k);
                        assert(e.spec_key() == k);
                        assert(spec_get(m1, k) == Some(spec_merged(e, rs[0])));
                        match e {
                            DotRecord::APICalls(x) => {
                                assert(spec_merged(e, rs[0]) == DotRecord::APICalls(
                                    spec_merged(e, rs[0])->APICalls_0,
                                ));
                            },
                            DotRecord::PunishedCount(_) => {
                                assert(false);
                            },
                        }
                    },
                    _ => {},
                }
            }
        }
        assert(spec_sum_success(rs, k) == hs + spec_sum_success(rs.skip(1), k));
        assert(spec_sum_failed(rs, k) == hf + spec_sum_failed(rs.skip(1), k));
        lemma_merge_all_counts(m1, rs.skip(1), k);
        assert(spec_merge_all(m, rs) == spec_merge_all(m1, rs.skip(1)));
    }
}

/// A well-formed accumulator stays well-formed across a batch merge.
pub proof fn lemma_merge_all_wf(m: Seq<DotRecord>, rs: Seq<DotRecord>)
    requires
        wf_records(m),
    ensures
        wf_records(spec_merge_all(m, rs)),
    decreases rs.len(),
{
    if rs.len() == 0 {
    } else {
        lemma_merge_into_wf(m, rs[0]);
        lemma_merge_all_wf(spec_merge_into(m, rs[0]), rs.skip(1));
    }
}

/// Law: a batch of records merged into an empty accumulator — the way one
/// upload body is built — holds each key at most once, and under each key
/// the sums of the batch's success and failure counts.
pub proof fn lemma_upload_payload(rs: Seq<DotRecord>, k: DotRecordKey)
    requires
        spec_can_merge_all(Seq::<DotRecord>::empty(), rs),
    ensures
        wf_records(spec_merge_all(Seq::<DotRecord>::empty(), rs)),
        spec_success_count_of(spec_merge_all(Seq::<DotRecord>::empty(), rs), k)
            == spec_sum_success(rs, k),
        spec_failed_count_of(spec_merge_all(Seq::<DotRecord>::empty(), rs), k) == spec_sum_failed(
            rs,
            k,
        ),
{
    lemma_merge_all_wf(Seq::<DotRecord>::empty(), rs);
    lemma_merge_all_counts(Seq::<DotRecord>::empty(), rs, k);
}

/// The records handed to the monitor in one upload body.
#[derive(Clone, Debug)]
pub struct DotRecords {
    records: Vec<DotRecord>,
}

impl DotRecords {
    pub closed spec fn view(&self) -> Seq<DotRecord> {
        self.records@
    }

    pub fn new(records: Vec<DotRecord>) -> (r: Self)
        ensures
            r@ == records@,
    {
        DotRecords { records }
    }

    pub fn records(&self) -> (r: &Vec<DotRecord>)
        ensures
            r@ == self@,
    {
        &self.records
    }

    pub fn len(&self) -> (n: usize)
        ensures
            n == self@.len(),
    {
        self.records.len()
    }
}

/// Mapping from record key to accumulated record, kept as a vector in
/// which every key appears at most once.
#[derive(Clone, Debug)]
pub struct DotRecordsMap {
    records: Vec<DotRecord>,
}

impl DotRecordsMap {
    pub closed spec fn view(&self) -> Seq<DotRecord> {
        self.records@
    }

    pub open spec fn wf(&self) -> bool {
        wf_records(self@)
    }

    pub fn new() -> (r: Self)
        ensures
            r@ == Seq::<DotRecord>::empty(),
            r.wf(),
    {
        DotRecordsMap { records: Vec::new() }
    }

    /// Number of distinct keys held.
    pub fn len(&self) -> (n: usize)
        ensures
            n == self@.len(),
    {
        self.records.len()
    }

    /// The record accumulated under `key`, if any.
    pub fn get(&self, key: DotRecordKey) -> (r: Option<DotRecord>)
        ensures
            r == spec_get(self@, key),
    {
        let n = self.records.len();
        proof {
            assert(self@.skip(0) =~= self@);
        }
        for i in 0..n
            invariant
                n == self@.len(),
                forall|j: int| 0 <= j < i ==> self@[j].spec_key() != key,
                spec_get(self@.skip(i as int), key) == spec_get(self@, key),
        {
            proof {
                assert(self@.skip(i as int)[0] == self@[i as int]);
            }
            if self.records[i].key() == key {
                return Some(self.records[i]);
            }
            proof {
                assert(self@.skip(i as int).skip(1) =~= self@.skip(i as int + 1));
            }
        }
        proof {
            assert(self@.skip(n as int) =~= Seq::<DotRecord>::empty());
        }
        None
    }

    /// Whether merging `record` now would stay within the field widths.
    pub fn merge_fits(&self, record: &DotRecord) -> (r: bool)
        ensures
            r == spec_can_merge(self@, *record),
    {
        match self.get(record.key()) {
            None => true,
            Some(e) => match (e, record) {
                (DotRecord::APICalls(x), DotRecord::APICalls(y)) => {
                    x.success_count <= u64::MAX - y.success_count && x.failed_count <= u64::MAX
                        - y.failed_count
                },
                (DotRecord::PunishedCount(x), DotRecord::PunishedCount(y)) => {
                    x.punished_count <= u64::MAX - y.punished_count
                },
                _ => true,
            },
        }
    }

    /// Merges one record into the accumulator: an existing record with the
    /// same key takes the counts and re-weighted averages, a new key is
    /// appended.
    pub fn merge_with_record(&mut self, record: DotRecord)
        requires
            spec_can_merge(old(self)@, record),
        ensures
            final(self)@ == spec_merge_into(old(self)@, record),
            old(self).wf() ==> final(self).wf(),
    {
        proof {
            if self.wf() {
                lemma_merge_into_wf(self@, record);
            }
        }
        let ghost m0 = self@;
        let n = self.records.len();
        for i in 0..n
            invariant
                old(self)@ == m0,
                self@ == m0,
                n == m0.len(),
                forall|j: int| 0 <= j < i ==> m0[j].spec_key() != record.spec_key(),
                spec_can_merge(m0, record),
                old(self).wf() ==> wf_records(spec_merge_into(m0, record)),
        {
            if self.records[i].key() == record.key() {
                proof {
                    lemma_get_found(m0, record.spec_key(), i as int);
                    lemma_merge_into_found(m0, record, i as int);
                }
                let mut merged = self.records[i];
                merge_record_pair(&mut merged, &record);
                self.records[i] = merged;
                proof {
                    assert(self@ =~= m0.update(i as int, spec_merged(m0[i as int], record)));
                }
                return;
            }
        }
        proof {
            lemma_merge_into_absent(m0, record);
        }
        self.records.push(record);
    }

    /// Merges every record of a batch, in order.
    pub fn merge_with_records(&mut self, records: DotRecords)
        requires
            spec_can_merge_all(old(self)@, records@),
        ensures
            final(self)@ == spec_merge_all(old(self)@, records@),
            old(self).wf() ==> final(self).wf(),
    {
        proof {
            if self.wf() {
                lemma_merge_all_wf(self@, records@);
            }
        }
        let ghost rs = records@;
        proof {
            assert(rs.skip(0) =~= rs);
        }
        let items = records.records();
        let n = items.len();
        for i in 0..n
            invariant
                n == rs.len(),
                items@ == rs,
                spec_merge_all(self@, rs.skip(i as int)) == spec_merge_all(old(self)@, rs),
                spec_can_merge_all(self@, rs.skip(i as int)),
                old(self).wf() ==> wf_records(spec_merge_all(old(self)@, rs)),
                old(self).wf() ==> self.wf(),
        {
            proof {
                assert(rs.skip(i as int)[0] == rs[i as int]);
                assert(rs.skip(i as int).skip(1) =~= rs.skip(i as int + 1));
            }
            self.merge_with_record(items[i]);
        }
        proof {
            assert(rs.skip(n as int) =~= Seq::<DotRecord>::empty());
        }
    }

    /// Empties the accumulator, handing the records out as one batch.
    pub fn take_all(&mut self) -> (r: DotRecords)
        ensures
            r@ == old(self)@,
            final(self)@ == Seq::<DotRecord>::empty(),
            final(self).wf(),
    {
        let taken = self.records.split_off(0);
        proof {
            assert(taken@ =~= old(self)@);
            assert(self@ =~= Seq::<DotRecord>::empty());
        }
        DotRecords { records: taken }
    }

    /// Hands the accumulated records out as one upload batch.
    pub fn into_records(self) -> (r: DotRecords)
        ensures
            r@ == self@,
    {
        DotRecords { records: self.records }
    }
}

/// Law: a same-key merge of two API-call records adds the two success
/// counts and the two failure counts, and each merged average is the floor
/// of the count-weighted average: `merged_avg = (avg_a·cnt_a +
/// avg_b·cnt_b) / (cnt_a + cnt_b)` when the merged count is positive, and
/// 0 otherwise.
pub proof fn lemma_weighted_merge_law(a: APICallsDotRecord, b: APICallsDotRecord)
    requires
        a.dot_type == b.dot_type,
        a.api_name == b.api_name,
        spec_merge_fits(DotRecord::APICalls(a), DotRecord::APICalls(b)),
    ensures
        spec_merged(DotRecord::APICalls(a), DotRecord::APICalls(b)) matches DotRecord::APICalls(r)
            && r.success_count == a.success_count + b.success_count && r.failed_count
            == a.failed_count + b.failed_count && (r.success_count > 0 ==> r.success_avg_elapsed_duration
            == (a.success_avg_elapsed_duration * a.success_count + b.success_avg_elapsed_duration
                * b.success_count) / (a.success_count + b.success_count)) && (r.success_count == 0
            ==> r.success_avg_elapsed_duration == 0) && (r.failed_count > 0
            ==> r.failed_avg_elapsed_duration == (a.failed_avg_elapsed_duration * a.failed_count
                + b.failed_avg_elapsed_duration * b.failed_count) / (a.failed_count
                + b.failed_count)) && (r.failed_count == 0 ==> r.failed_avg_elapsed_duration == 0),
{
    let sc = a.success_count + b.success_count;
    let st = a.success_avg_elapsed_duration * a.success_count + b.success_avg_elapsed_duration
        * b.success_count;
    let fc = a.failed_count + b.failed_count;
    let ft = a.failed_avg_elapsed_duration * a.failed_count + b.failed_avg_elapsed_duration
        * b.failed_count;
    assert(st <= u64::MAX * sc) by (nonlinear_arith)
        requires
            st == a.success_avg_elapsed_duration * a.success_count + b.success_avg_elapsed_duration
                * b.success_count,
            a.success_avg_elapsed_duration <= u64::MAX,
            b.success_avg_elapsed_duration <= u64::MAX,
            sc == a.success_count + b.success_count,
    ;
    assert(sc > 0 ==> st / sc <= u64::MAX) by (nonlinear_arith)
        requires
            st <= u64::MAX * sc,
            sc <= u64::MAX,
    ;
    assert(ft <= u64::MAX * fc) by (nonlinear_arith)
        requires
            ft == a.failed_avg_elapsed_duration * a.failed_count + b.failed_avg_elapsed_duration
                * b.failed_count,
            a.failed_avg_elapsed_duration <= u64::MAX,
            b.failed_avg_elapsed_duration <= u64::MAX,
            fc == a.failed_count + b.failed_count,
    ;
    assert(fc > 0 ==> ft / fc <= u64::MAX) by (nonlinear_arith)
        requires
            ft <= u64::MAX * fc,
            fc <= u64::MAX,
    ;
}

} // verus!
