//! Telemetry aggregator ("dotter"): merges call records in memory,
//! renders them as buffer-file lines, decides when an upload is due, and
//! drives the upload retry policy over its own monitor host selector.
//!
//! The owner performs the file and network work and hands outcomes back;
//! every decision and every state change lives here.

use vstd::prelude::*;
use crate::host_selector::{HostInfo, HostSelector, HostSelectorBuilder, PunishResult};
use crate::record_map::{
    DotRecords, DotRecordsMap, spec_can_merge, spec_merge_into, spec_get,
};
use crate::records::{ApiName, DotRecord, DotType, APICallsDotRecord, PunishedCountDotRecord};
use crate::codec::{serialize_record, spec_ser_record};

verus! {

/// Process-wide feature switches: whether dotting happens at all, and
/// whether uploads are sent.
#[derive(Clone, Copy, Debug, PartialEq, Eq, Structural)]
pub struct Toggles {
    pub dotting_disabled: bool,
    pub dot_uploading_disabled: bool,
}

impl Toggles {
    pub fn new() -> (r: Self)
        ensures
            !r.dotting_disabled,
            !r.dot_uploading_disabled,
    {
        Toggles { dotting_disabled: false, dot_uploading_disabled: false }
    }
}

/// Switches dotting off.
pub fn disable_dotting(t: &mut Toggles)
    ensures
        *final(t) == (Toggles { dotting_disabled: true, ..*old(t) }),
{
    t.dotting_disabled = true;
}

/// Switches dotting back on.
pub fn enable_dotting(t: &mut Toggles)
    ensures
        *final(t) == (Toggles { dotting_disabled: false, ..*old(t) }),
{
    t.dotting_disabled = false;
}

/// Whether dotting is off.
pub fn is_dotting_disabled(t: &Toggles) -> (r: bool)
    ensures
        r == t.dotting_disabled,
{
    t.dotting_disabled
}

/// Switches uploads off.
pub fn disable_dot_uploading(t: &mut Toggles)
    ensures
        *final(t) == (Toggles { dot_uploading_disabled: true, ..*old(t) }),
{
    t.dot_uploading_disabled = true;
}

/// Switches uploads back on.
pub fn enable_dot_uploading(t: &mut Toggles)
    ensures
        *final(t) == (Toggles { dot_uploading_disabled: false, ..*old(t) }),
{
    t.dot_uploading_disabled = false;
}

/// Whether uploads are off.
pub fn is_dot_uploading_disabled(t: &Toggles) -> (r: bool)
    ensures
        r == t.dot_uploading_disabled,
{
    t.dot_uploading_disabled
}

/// The delta record of one observed call.
pub open spec fn spec_dot_delta(
    dot_type: DotType,
    api_name: ApiName,
    successful: bool,
    elapsed_ms: u64,
) -> DotRecord {
    DotRecord::APICalls(
        APICallsDotRecord {
            dot_type,
            api_name,
            success_count: if successful {
                1
            } else {
                0
            },
            success_avg_elapsed_duration: if successful {
                elapsed_ms
            } else {
                0
            },
            failed_count: if successful {
                0
            } else {
                1
            },
            failed_avg_elapsed_duration: if successful {
                0
            } else {
                elapsed_ms
            },
        },
    )
}

/// The delta record of one freeze.
pub open spec fn spec_punish_delta() -> DotRecord {
    DotRecord::PunishedCount(PunishedCountDotRecord { punished_count: 1 })
}

/// Working state of an active dotter.
pub struct DotterInner {
    pub bucket: String,
    pub monitor_selector: HostSelector,
    pub buffered_records: DotRecordsMap,
    pub interval_ms: u64,
    pub uploaded_at_ms: u64,
    pub max_buffer_size: u64,
    pub tries: u64,
}

/// Telemetry aggregator; without monitor hosts or a usable buffer file it
/// is inert and every operation is a no-op.
pub struct Dotter {
    pub inner: Option<DotterInner>,
}

impl Dotter {
    pub open spec fn wf(&self) -> bool {
        match self.inner {
            Some(i) => i.monitor_selector.wf() && i.buffered_records.wf(),
            None => true,
        }
    }

    pub open spec fn spec_is_inert(&self) -> bool {
        self.inner is None
    }

    /// The records buffered in memory (empty when inert).
    pub open spec fn spec_buffered(&self) -> Seq<DotRecord> {
        match self.inner {
            Some(i) => i.buffered_records@,
            None => Seq::empty(),
        }
    }

    /// Whether merging `rec` now stays within the field widths.
    pub open spec fn spec_can_record(&self, rec: DotRecord) -> bool {
        spec_can_merge(self.spec_buffered(), rec)
    }

    /// Builds a dotter over the monitor hosts.  Without monitor hosts, or
    /// when the owner could not make the buffer file usable, the dotter
    /// is inert.
    pub fn new(
        bucket: String,
        monitor_urls: Vec<String>,
        interval_ms: Option<u64>,
        max_buffer_size: Option<u64>,
        tries: Option<u64>,
        punish_duration_ms: Option<u64>,
        max_punished_times: Option<u64>,
        max_punished_hosts_percent: Option<u8>,
        base_timeout_ms: Option<u64>,
        buffer_file_ready: bool,
        now: u64,
    ) -> (r: Dotter)
        ensures
            r.wf(),
            r.spec_is_inert() == (monitor_urls@.len() == 0 || !buffer_file_ready),
            r.inner matches Some(i) ==> {
                &&& i.bucket@ == bucket@
                &&& i.monitor_selector.spec_hosts() == monitor_urls@.map_values(|s: String| s@)
                &&& i.buffered_records@ == Seq::<DotRecord>::empty()
                &&& i.interval_ms == interval_ms.unwrap_or(10_000)
                &&& i.uploaded_at_ms == now
                &&& i.max_buffer_size == max_buffer_size.unwrap_or(0x100000)
                &&& i.tries == tries.unwrap_or(10)
                &&& i.monitor_selector.spec_punisher().punish_duration_ms
                    == punish_duration_ms.unwrap_or(30_000)
                &&& i.monitor_selector.spec_punisher().max_punished_times
                    == max_punished_times.unwrap_or(5)
                &&& i.monitor_selector.spec_punisher().max_punished_hosts_percent
                    == max_punished_hosts_percent.unwrap_or(50)
                &&& i.monitor_selector.spec_punisher().base_timeout_ms == base_timeout_ms.unwrap_or(
                    1_000,
                )
            },
    {
        if monitor_urls.len() == 0 || !buffer_file_ready {
            return Dotter { inner: None };
        }
        let monitor_selector = HostSelectorBuilder::new(monitor_urls).punish_duration(
            match punish_duration_ms {
                Some(d) => d,
                None => 30_000,
            },
        ).max_punished_times(
            match max_punished_times {
                Some(t) => t,
                None => 5,
            },
        ).max_punished_hosts_percent(
            match max_punished_hosts_percent {
                Some(p) => p,
                None => 50,
            },
        ).base_timeout(
            match base_timeout_ms {
                Some(t) => t,
                None => 1_000,
            },
        ).build(now);
        Dotter {
            inner: Some(
                DotterInner {
                    bucket,
                    monitor_selector,
                    buffered_records: DotRecordsMap::new(),
                    interval_ms: match interval_ms {
                        Some(i) => i,
                        None => 10_000,
                    },
                    uploaded_at_ms: now,
                    max_buffer_size: match max_buffer_size {
                        Some(m) => m,
                        None => 0x100000,
                    },
                    tries: match tries {
                        Some(t) => t,
                        None => 10,
                    },
                },
            ),
        }
    }

    /// Records one call outcome: the delta of one success or one failure
    /// is merged into the buffered records.  Disabled or inert dotters do
    /// nothing.
    pub fn dot(
        &mut self,
        toggles: &Toggles,
        dot_type: DotType,
        api_name: ApiName,
        successful: bool,
        elapsed_ms: u64,
    )
        requires
            old(self).wf(),
            old(self).spec_can_record(
                spec_dot_delta(dot_type, api_name, successful, elapsed_ms),
            ),
        ensures
            final(self).wf(),
            toggles.dotting_disabled || old(self).spec_is_inert() ==> *final(self) == *old(self),
            !toggles.dotting_disabled && !old(self).spec_is_inert() ==> final(self).spec_buffered()
                == spec_merge_into(
                old(self).spec_buffered(),
                spec_dot_delta(dot_type, api_name, successful, elapsed_ms),
            ) && final(self).inner->Some_0.monitor_selector == old(self).inner->Some_0.monitor_selector && final(self).spec_is_inert() == old(self).spec_is_inert(),
    {
        if is_dotting_disabled(toggles) {
            return;
        }
        match &mut self.inner {
            Option::Some(inner) => {
                inner.fast_dot(dot_type, api_name, successful, elapsed_ms);
            },
            Option::None => {},
        }
    }

    /// Records one freeze.  Disabled or inert dotters do nothing.
    pub fn punish(&mut self, toggles: &Toggles)
        requires
            old(self).wf(),
            old(self).spec_can_record(spec_punish_delta()),
        ensures
            final(self).wf(),
            toggles.dotting_disabled || old(self).spec_is_inert() ==> *final(self) == *old(self),
            !toggles.dotting_disabled && !old(self).spec_is_inert() ==> final(self).spec_buffered()
                == spec_merge_into(old(self).spec_buffered(), spec_punish_delta()) && final(self).inner->Some_0.monitor_selector == old(self).inner->Some_0.monitor_selector && final(self).spec_is_inert() == old(self).spec_is_inert(),
    {
        if is_dotting_disabled(toggles) {
            return;
        }
        match &mut self.inner {
            Option::Some(inner) => {
                inner.fast_punish();
            },
            Option::None => {},
        }
    }

    /// Whether merging a call delta for this key stays within the field
    /// widths.
    pub fn dot_fits(
        &self,
        dot_type: DotType,
        api_name: ApiName,
        successful: bool,
        elapsed_ms: u64,
    ) -> (r: bool)
        ensures
            r == self.spec_can_record(spec_dot_delta(dot_type, api_name, successful, elapsed_ms)),
    {
        match &self.inner {
            Option::Some(inner) => {
                let delta = DotRecord::new(
                    dot_type,
                    api_name,
                    if successful {
                        1
                    } else {
                        0
                    },
                    if successful {
                        0
                    } else {
                        1
                    },
                    if successful {
                        elapsed_ms
                    } else {
                        0
                    },
                    if successful {
                        0
                    } else {
                        elapsed_ms
                    },
                );
                inner.buffered_records.merge_fits(&delta)
            },
            Option::None => {
                proof {
                    assert(spec_get(
                        Seq::<DotRecord>::empty(),
                        spec_dot_delta(dot_type, api_name, successful, elapsed_ms).spec_key(),
                    ) is None);
                }
                true
            },
        }
    }

    /// Whether merging a freeze delta stays within the field widths.
    pub fn punish_fits(&self) -> (r: bool)
        ensures
            r == self.spec_can_record(spec_punish_delta()),
    {
        match &self.inner {
            Option::Some(inner) => {
                let delta = DotRecord::punished();
                inner.buffered_records.merge_fits(&delta)
            },
            Option::None => {
                proof {
                    assert(spec_get(
                        Seq::<DotRecord>::empty(),
                        spec_punish_delta().spec_key(),
                    ) is None);
                }
                true
            },
        }
    }

    /// Whether the upload triggers fire: the interval has passed since
    /// the last upload, or the buffer file has outgrown its bound.
    pub fn is_time_to_upload(&self, toggles: &Toggles, now: u64, buffer_file_len: u64) -> (r: bool)
        ensures
            r == (!toggles.dotting_disabled && !toggles.dot_uploading_disabled && (
            match self.inner {
                Some(i) => crate::host_selector::spec_elapsed(now, i.uploaded_at_ms)
                    > i.interval_ms || buffer_file_len > i.max_buffer_size,
                None => false,
            })),
    {
        if is_dotting_disabled(toggles) || is_dot_uploading_disabled(toggles) {
            return false;
        }
        match &self.inner {
            Option::Some(inner) => {
                let elapsed = if now >= inner.uploaded_at_ms {
                    now - inner.uploaded_at_ms
                } else {
                    0
                };
                elapsed > inner.interval_ms || buffer_file_len > inner.max_buffer_size
            },
            Option::None => false,
        }
    }

    /// Takes the buffered records out as newline-terminated JSON lines
    /// for the buffer file, leaving the buffer empty.  The owner appends
    /// the lines to the file, and merges the records back on a write
    /// failure.
    pub fn take_buffered_lines(&mut self) -> (r: (String, DotRecords))
        requires
            old(self).wf(),
        ensures
            final(self).wf(),
            r.1@ == old(self).spec_buffered(),
            r.0@ == spec_render_lines(old(self).spec_buffered()),
            final(self).spec_buffered() == Seq::<DotRecord>::empty(),
            final(self).spec_is_inert() == old(self).spec_is_inert(),
            final(self).inner matches Some(i) ==> i.monitor_selector == old(self).inner->Some_0.monitor_selector,
    {
        match &mut self.inner {
            Option::Some(inner) => {
                let records = inner.buffered_records.take_all();
                let lines = render_lines(records.records());
                (lines, records)
            },
            Option::None => {
                proof {
                    assert(spec_render_lines(Seq::<DotRecord>::empty()) =~= Seq::<char>::empty());
                }
                (String::new(), DotRecords::new(Vec::new()))
            },
        }
    }

    /// Merges a batch back into the buffer (the owner's recourse when a
    /// file write failed).
    pub fn restore_records(&mut self, records: DotRecords)
        requires
            old(self).wf(),
            !old(self).spec_is_inert() ==> crate::record_map::spec_can_merge_all(
                old(self).spec_buffered(),
                records@,
            ),
        ensures
            final(self).wf(),
            old(self).spec_is_inert() ==> *final(self) == *old(self),
            !old(self).spec_is_inert() ==> final(self).spec_buffered()
                == crate::record_map::spec_merge_all(old(self).spec_buffered(), records@) && final(self).inner->Some_0.monitor_selector == old(self).inner->Some_0.monitor_selector && !final(self).spec_is_inert(),
    {
        match &mut self.inner {
            Option::Some(inner) => {
                inner.buffered_records.merge_with_records(records);
            },
            Option::None => {},
        }
    }

    /// Notes a finished upload, restarting the interval trigger.
    pub fn note_uploaded(&mut self, now: u64)
        requires
            old(self).wf(),
        ensures
            final(self).wf(),
            final(self).inner == (match old(self).inner {
                Some(i) => Some(DotterInner { uploaded_at_ms: now, ..i }),
                None => None::<DotterInner>,
            }),
    {
        match &mut self.inner {
            Option::Some(inner) => {
                inner.uploaded_at_ms = now;
            },
            Option::None => {},
        }
    }
}

impl DotterInner {
    /// Merges the delta of one call outcome.
    pub fn fast_dot(
        &mut self,
        dot_type: DotType,
        api_name: ApiName,
        successful: bool,
        elapsed_ms: u64,
    )
        requires
            old(self).buffered_records.wf(),
            spec_can_merge(
                old(self).buffered_records@,
                spec_dot_delta(dot_type, api_name, successful, elapsed_ms),
            ),
        ensures
            final(self).buffered_records.wf(),
            final(self).buffered_records@ == spec_merge_into(
                old(self).buffered_records@,
                spec_dot_delta(dot_type, api_name, successful, elapsed_ms),
            ),
            final(self).bucket == old(self).bucket,
            final(self).monitor_selector == old(self).monitor_selector,
            final(self).interval_ms == old(self).interval_ms,
            final(self).uploaded_at_ms == old(self).uploaded_at_ms,
            final(self).max_buffer_size == old(self).max_buffer_size,
            final(self).tries == old(self).tries,
    {
        let record = if successful {
            DotRecord::new(dot_type, api_name, 1, 0, elapsed_ms, 0)
        } else {
            DotRecord::new(dot_type, api_name, 0, 1, 0, elapsed_ms)
        };
        self.buffered_records.merge_with_record(record);
    }

    /// Merges the delta of one freeze.
    pub fn fast_punish(&mut self)
        requires
            old(self).buffered_records.wf(),
            spec_can_merge(old(self).buffered_records@, spec_punish_delta()),
        ensures
            final(self).buffered_records.wf(),
            final(self).buffered_records@ == spec_merge_into(
                old(self).buffered_records@,
                spec_punish_delta(),
            ),
            final(self).bucket == old(self).bucket,
            final(self).monitor_selector == old(self).monitor_selector,
            final(self).interval_ms == old(self).interval_ms,
            final(self).uploaded_at_ms == old(self).uploaded_at_ms,
            final(self).max_buffer_size == old(self).max_buffer_size,
            final(self).tries == old(self).tries,
    {
        self.buffered_records.merge_with_record(DotRecord::punished());
    }
}

/// The newline-terminated renderings of the records, in order.
pub open spec fn spec_render_lines(rs: Seq<DotRecord>) -> Seq<char>
    decreases rs.len(),
{
    if rs.len() == 0 {
        Seq::empty()
    } else {
        spec_render_lines(rs.take(rs.len() as int - 1)) + spec_ser_record(rs.last()) + "\n"@
    }
}

/// Renders each record as its JSON line followed by a newline.
pub fn render_lines(records: &Vec<DotRecord>) -> (r: String)
    ensures
        r@ == spec_render_lines(records@),
{
    let mut out = String::new();
    let n = records.len();
    proof {
        assert(records@.take(0) =~= Seq::<DotRecord>::empty());
        assert(out@ =~= spec_render_lines(records@.take(0)));
    }
    for i in 0..n
        invariant
            n == records@.len(),
            out@ == spec_render_lines(records@.take(i as int)),
    {
        let line = serialize_record(&records[i]);
        out.append(line.as_str());
        out.append("\n");
        proof {
            let ext = records@.take(i + 1);
            assert(ext.take(ext.len() as int - 1) =~= records@.take(i as int));
            assert(ext.last() == records@[i as int]);
            assert(out@ =~= spec_render_lines(ext));
        }
    }
    proof {
        assert(records@.take(n as int) =~= records@);
    }
    out
}

/// Builds the upload body from the records read back from the buffer
/// file: they are merged under their keys, skipping any whose merge
/// would overflow the field widths.
pub fn make_request_body(records: Vec<DotRecord>) -> (r: DotRecords)
    ensures
        r@ == spec_merge_all_total(Seq::<DotRecord>::empty(), records@),
        crate::record_map::wf_records(r@),
{
    let mut map = DotRecordsMap::new();
    let n = records.len();
    proof {
        assert(records@.skip(0) =~= records@);
    }
    for i in 0..n
        invariant
            n == records@.len(),
            map.wf(),
            spec_merge_all_total(map@, records@.skip(i as int)) == spec_merge_all_total(
                Seq::<DotRecord>::empty(),
                records@,
            ),
    {
        proof {
            assert(records@.skip(i as int)[0] == records@[i as int]);
            assert(records@.skip(i as int).skip(1) =~= records@.skip(i as int + 1));
        }
        if map.merge_fits(&records[i]) {
            map.merge_with_record(records[i]);
        }
    }
    proof {
        assert(records@.skip(n as int) =~= Seq::<DotRecord>::empty());
    }
    map.into_records()
}

/// Result of merging each record of `rs` into `m` in order, skipping any
/// whose merge would overflow the field widths.
pub open spec fn spec_merge_all_total(m: Seq<DotRecord>, rs: Seq<DotRecord>) -> Seq<DotRecord>
    decreases rs.len(),
{
    if rs.len() == 0 {
        m
    } else {
        let m2 = if spec_can_merge(m, rs[0]) {
            spec_merge_into(m, rs[0])
        } else {
            m
        };
        spec_merge_all_total(m2, rs.skip(1))
    }
}

/// The JSON upload body: an object with the records under `logs`.
pub fn encode_records_body(records: &DotRecords) -> (r: String)
    ensures
        r@ == spec_records_body(records@),
{
    let mut out = String::new();
    out.append("{\"logs\":[");
    let items = records.records();
    let n = items.len();
    proof {
        assert(items@.take(0) =~= Seq::<DotRecord>::empty());
        assert(out@ =~= "{\"logs\":["@ + spec_join_records(items@.take(0)));
        assert(spec_join_records(Seq::<DotRecord>::empty()) =~= Seq::<char>::empty());
    }
    for i in 0..n
        invariant
            n == items@.len(),
            items@ == records@,
            out@ == "{\"logs\":["@ + spec_join_records(items@.take(i as int)),
    {
        if i > 0 {
            out.append(",");
        }
        let line = serialize_record(&items[i]);
        out.append(line.as_str());
        proof {
            let ext = items@.take(i + 1);
            assert(ext.take(ext.len() as int - 1) =~= items@.take(i as int));
            assert(ext.last() == items@[i as int]);
            if i == 0 {
                assert(spec_join_records(items@.take(0)) =~= Seq::<char>::empty());
            }
            assert(out@ =~= "{\"logs\":["@ + spec_join_records(ext));
        }
    }
    out.append("]}");
    proof {
        assert(items@.take(n as int) =~= items@);
        assert(out@ =~= spec_records_body(records@));
    }
    out
}

/// The records joined with commas.
pub open spec fn spec_join_records(rs: Seq<DotRecord>) -> Seq<char>
    decreases rs.len(),
{
    if rs.len() == 0 {
        Seq::empty()
    } else if rs.len() == 1 {
        spec_ser_record(rs[0])
    } else {
        spec_join_records(rs.take(rs.len() as int - 1)) + ","@ + spec_ser_record(rs.last())
    }
}

/// The upload body text of a record batch.
pub open spec fn spec_records_body(rs: Seq<DotRecord>) -> Seq<char> {
    "{\"logs\":["@ + spec_join_records(rs) + "]}"@
}

impl HostSelector {
    /// Punishes a host after a failed attempt; a freeze is recorded with
    /// the dotter.
    pub fn punish(
        &mut self,
        host: &str,
        should_punish_verdict: bool,
        now: u64,
        toggles: &Toggles,
        dotter: &mut Dotter,
    ) -> (r: bool)
        requires
            old(self).wf(),
            old(dotter).wf(),
            old(dotter).spec_can_record(spec_punish_delta()),
        ensures
            final(self).wf(),
            final(dotter).wf(),
            r == (old(self).spec_punisher().spec_should_punish(should_punish_verdict)),
            final(self).spec_punisher() == old(self).spec_punisher(),
            final(self).spec_hosts() == old(self).spec_hosts(),
            !old(self).spec_punisher().spec_should_punish(should_punish_verdict) ==> forall|
                h: Seq<char>,
            |
                final(self).spec_state_of(h) == old(self).spec_state_of(h),
            old(self).spec_punisher().spec_should_punish(should_punish_verdict) ==> forall|
                h: Seq<char>,
            |
                final(self).spec_state_of(h) == (if h == host@ && old(self).spec_updater().spec_has_key(h) {
                    crate::host_selector::spec_punished(old(self).spec_state_of(h), now)
                } else {
                    old(self).spec_state_of(h)
                }),
            final(dotter).spec_buffered() == ({
                let frozen = old(self).spec_punisher().spec_should_punish(should_punish_verdict)
                    && old(self).spec_updater().spec_has_key(host@) && !old(
                    self,
                ).spec_punisher().spec_is_available(
                    crate::host_selector::spec_punished(old(self).spec_state_of(host@), now),
                    false,
                );
                if frozen && !toggles.dotting_disabled && !old(dotter).spec_is_inert() {
                    spec_merge_into(old(dotter).spec_buffered(), spec_punish_delta())
                } else {
                    old(dotter).spec_buffered()
                }
            }),
    {
        let result = self.punish_without_dotter(host, should_punish_verdict, now);
        match result {
            PunishResult::NoPunishment => false,
            PunishResult::Punished => true,
            PunishResult::PunishedAndFreezed => {
                dotter.punish(toggles);
                true
            },
        }
    }
}

/// What one upload attempt came back with, as the owner observed it.
pub enum UploadOutcome {
    /// The monitor answered 200.
    Accepted,
    /// The attempt failed; whether it was a response timeout, and the
    /// verdict of the owner's punish predicate for the error.
    Failed { timed_out: bool, should_punish_verdict: bool },
}

/// What the retry loop should do next.
#[derive(Clone, Copy, Debug, PartialEq, Eq, Structural)]
pub enum RetryDecision {
    /// The upload went through: truncate the buffer file and stop.
    Done,
    /// Try the next host.
    Retry,
    /// The error does not punish: surface it at once.
    GiveUp,
}

impl Dotter {
    /// Picks a monitor host for one upload attempt.  Repeats are allowed:
    /// nothing is marked as tried.
    pub fn select_monitor_host(&mut self, now: u64) -> (r: Option<HostInfo>)
        requires
            old(self).wf(),
        ensures
            final(self).wf(),
            final(self).spec_is_inert() == old(self).spec_is_inert(),
            old(self).spec_is_inert() ==> r is None && *final(self) == *old(self),
            final(self).spec_buffered() == old(self).spec_buffered(),
            r matches Some(hi) ==> crate::strutil::spec_contains_str(
                old(self).inner->Some_0.monitor_selector.spec_hosts(),
                hi.spec_host(),
            ),
            !old(self).spec_is_inert() && old(self).inner->Some_0.monitor_selector.spec_hosts().len() > 0 ==> r is Some,
            !old(self).spec_is_inert() && old(self).inner->Some_0.monitor_selector.spec_hosts().len() > 0 ==> ({
                let sel0 = old(self).inner->Some_0.monitor_selector;
                let out = crate::host_selector::spec_select_loop(
                    sel0.spec_updater(),
                    sel0.spec_punisher(),
                    Seq::<Seq<char>>::empty(),
                    now,
                    sel0.spec_updater().spec_index(),
                    (sel0.spec_punisher().spec_max_seek_times(sel0.spec_hosts().len() as int)
                        + 1) as nat,
                    Seq::empty(),
                );
                &&& final(self).inner->Some_0.monitor_selector.spec_updater().spec_index()
                    == out.end_index
                &&& (match (r, out.choice) {
                    (Some(hi), Some(c)) => hi.spec_host() == c.host && hi.spec_timeout_ms()
                        == c.timeout_ms && hi.spec_timeout_power() == c.timeout_power,
                    (None, None) => true,
                    _ => false,
                })
            }),
    {
        match &mut self.inner {
            Option::Some(inner) => {
                let tried: Vec<String> = Vec::new();
                proof {
                    assert(tried@.map_values(|s: String| s@) =~= Seq::<Seq<char>>::empty());
                }
                inner.monitor_selector.select_host(&tried, now)
            },
            Option::None => None,
        }
    }

    /// Applies one upload attempt's outcome to the dotter's own state:
    /// a success rewards the host and restarts the interval; a timeout
    /// escalates the host's timeout power; a punishable failure punishes
    /// the host, and a freeze is recorded in the buffer; an unpunishable
    /// failure gives up.
    pub fn upload_attempt_done(
        &mut self,
        toggles: &Toggles,
        host_info: &HostInfo,
        outcome: UploadOutcome,
        now: u64,
    ) -> (r: RetryDecision)
        requires
            old(self).wf(),
            !old(self).spec_is_inert(),
            old(self).spec_can_record(spec_punish_delta()),
        ensures
            final(self).wf(),
            !final(self).spec_is_inert(),
            final(self).inner->Some_0.monitor_selector.spec_punisher() == old(self).inner->Some_0.monitor_selector.spec_punisher(),
            final(self).inner->Some_0.monitor_selector.spec_hosts() == old(self).inner->Some_0.monitor_selector.spec_hosts(),
            outcome matches UploadOutcome::Accepted ==> ({
                let sel0 = old(self).inner->Some_0.monitor_selector;
                &&& r == RetryDecision::Done
                &&& final(self).inner->Some_0.uploaded_at_ms == now
                &&& final(self).spec_buffered() == old(self).spec_buffered()
                &&& forall|h: Seq<char>|
                    final(self).inner->Some_0.monitor_selector.spec_state_of(h) == (if h
                        == host_info.spec_host() && sel0.spec_updater().spec_has_key(h) {
                        crate::host_selector::spec_rewarded(sel0.spec_state_of(h))
                    } else {
                        sel0.spec_state_of(h)
                    })
            }),
            outcome matches UploadOutcome::Failed { timed_out, should_punish_verdict } ==> ({
                let sel0 = old(self).inner->Some_0.monitor_selector;
                let hh = host_info.spec_host();
                let punishes = sel0.spec_punisher().spec_should_punish(should_punish_verdict);
                let st1 = if timed_out && sel0.spec_updater().spec_has_key(hh) {
                    crate::host_selector::spec_power_raised(
                        sel0.spec_state_of(hh),
                        host_info.spec_timeout_power(),
                        now,
                    )
                } else {
                    sel0.spec_state_of(hh)
                };
                let st2 = if punishes && sel0.spec_updater().spec_has_key(hh) {
                    crate::host_selector::spec_punished(st1, now)
                } else {
                    st1
                };
                let frozen = punishes && sel0.spec_updater().spec_has_key(hh)
                    && !sel0.spec_punisher().spec_is_available(st2, false);
                &&& r == (if punishes {
                    RetryDecision::Retry
                } else {
                    RetryDecision::GiveUp
                })
                &&& final(self).inner->Some_0.uploaded_at_ms == old(self).inner->Some_0.uploaded_at_ms
                &&& forall|h: Seq<char>|
                    h != hh ==> final(self).inner->Some_0.monitor_selector.spec_state_of(h)
                        == sel0.spec_state_of(h)
                &&& final(self).inner->Some_0.monitor_selector.spec_state_of(hh) == st2
                &&& final(self).spec_buffered() == (if frozen && !toggles.dotting_disabled {
                    spec_merge_into(old(self).spec_buffered(), spec_punish_delta())
                } else {
                    old(self).spec_buffered()
                })
            }),
    {
        match outcome {
            UploadOutcome::Accepted => {
                match &mut self.inner {
                    Option::Some(inner) => {
                        inner.monitor_selector.reward(host_info.host().as_str());
                        inner.uploaded_at_ms = now;
                    },
                    Option::None => {},
                }
                RetryDecision::Done
            },
            UploadOutcome::Failed { timed_out, should_punish_verdict } => {
                match &mut self.inner {
                    Option::Some(inner) => {
                        let ghost sel0 = inner.monitor_selector;
                        let ghost hh = host_info.spec_host();
                        if timed_out {
                            inner.monitor_selector.increase_timeout_power_by(
                                host_info.host().as_str(),
                                host_info.timeout_power(),
                                now,
                            );
                        }
                        proof {
                            assert(inner.monitor_selector.spec_state_of(hh) == (if timed_out
                                && sel0.spec_updater().spec_has_key(hh) {
                                crate::host_selector::spec_power_raised(
                                    sel0.spec_state_of(hh),
                                    host_info.spec_timeout_power(),
                                    now,
                                )
                            } else {
                                sel0.spec_state_of(hh)
                            }));
                        }
                        let ghost sel1 = inner.monitor_selector;
                        let pr = inner.monitor_selector.punish_without_dotter(
                            host_info.host().as_str(),
                            should_punish_verdict,
                            now,
                        );
                        proof {
                            let punishes = sel0.spec_punisher().spec_should_punish(
                                should_punish_verdict,
                            );
                            assert(inner.monitor_selector.spec_state_of(hh) == (if punishes
                                && sel0.spec_updater().spec_has_key(hh) {
                                crate::host_selector::spec_punished(sel1.spec_state_of(hh), now)
                            } else {
                                sel1.spec_state_of(hh)
                            }));
                        }
                        match pr {
                            PunishResult::NoPunishment => RetryDecision::GiveUp,
                            PunishResult::Punished => RetryDecision::Retry,
                            PunishResult::PunishedAndFreezed => {
                                if !is_dotting_disabled(toggles) {
                                    inner.fast_punish();
                                }
                                RetryDecision::Retry
                            },
                        }
                    },
                    Option::None => RetryDecision::Retry,
                }
            },
        }
    }
}

} // verus!
