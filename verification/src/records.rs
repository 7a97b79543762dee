//! Telemetry record model: call records keyed by `(dot_type, api_name)` or
//! by the punished-count sentinel, and a keyed accumulator that merges
//! records under the weighted-average law.

use vstd::prelude::*;

verus! {

/// Origin of a recorded call.
#[derive(Clone, Copy, PartialEq, Eq, Structural, Debug, Hash)]
pub enum DotType {
    Sdk,
    Http,
}

/// The fixed enumeration of APIs whose calls are recorded.
#[derive(Clone, Copy, PartialEq, Eq, Structural, Debug, Hash)]
pub enum ApiName {
    IoGetfile,
    MonitorV1Stat,
    UcV4Query,
    RangeReaderReadAt,
    RangeReaderReadMultiRanges,
    RangeReaderExist,
    RangeReaderFileSize,
    RangeReaderDownloadTo,
    RangeReaderReadLastBytes,
}

/// Key of a record: either a `(dot_type, api_name)` pair or the sentinel
/// under which host freezes are counted.
#[derive(Clone, Copy, PartialEq, Eq, Structural, Debug, Hash)]
pub enum DotRecordKey {
    APICalls { dot_type: DotType, api_name: ApiName },
    PunishedCount,
}

impl DotRecordKey {
    pub fn new(dot_type: DotType, api_name: ApiName) -> (r: Self)
        ensures
            r == (DotRecordKey::APICalls { dot_type, api_name }),
    {
        DotRecordKey::APICalls { dot_type, api_name }
    }

    pub fn punished() -> (r: Self)
        ensures
            r == DotRecordKey::PunishedCount,
    {
        DotRecordKey::PunishedCount
    }
}

/// Success/failure counts and average elapsed times of one `(dot_type,
/// api_name)` key.
#[derive(Clone, Copy, PartialEq, Eq, Structural, Debug)]
pub struct APICallsDotRecord {
    pub dot_type: DotType,
    pub api_name: ApiName,
    pub success_count: u64,
    pub success_avg_elapsed_duration: u64,
    pub failed_count: u64,
    pub failed_avg_elapsed_duration: u64,
}

/// Count of hosts frozen by the punisher.
#[derive(Clone, Copy, PartialEq, Eq, Structural, Debug)]
pub struct PunishedCountDotRecord {
    pub punished_count: u64,
}

/// One telemetry record: either per-API call statistics or a punished
/// count.
#[derive(Clone, Copy, PartialEq, Eq, Structural, Debug)]
pub enum DotRecord {
    APICalls(APICallsDotRecord),
    PunishedCount(PunishedCountDotRecord),
}

impl DotRecord {
    pub open spec fn spec_key(self) -> DotRecordKey {
        match self {
            DotRecord::APICalls(r) => DotRecordKey::APICalls {
                dot_type: r.dot_type,
                api_name: r.api_name,
            },
            DotRecord::PunishedCount(_) => DotRecordKey::PunishedCount,
        }
    }

    pub fn new(
        dot_type: DotType,
        api_name: ApiName,
        success_count: u64,
        failed_count: u64,
        success_avg_elapsed_duration: u64,
        failed_avg_elapsed_duration: u64,
    ) -> (r: Self)
        ensures
            r == DotRecord::APICalls(
                APICallsDotRecord {
                    dot_type,
                    api_name,
                    success_count,
                    success_avg_elapsed_duration,
                    failed_count,
                    failed_avg_elapsed_duration,
                },
            ),
    {
        DotRecord::APICalls(
            APICallsDotRecord {
                dot_type,
                api_name,
                success_count,
                success_avg_elapsed_duration,
                failed_count,
                failed_avg_elapsed_duration,
            },
        )
    }

    pub fn punished() -> (r: Self)
        ensures
            r == DotRecord::PunishedCount(PunishedCountDotRecord { punished_count: 1 }),
    {
        DotRecord::PunishedCount(PunishedCountDotRecord { punished_count: 1 })
    }

    pub fn key(&self) -> (k: DotRecordKey)
        ensures
            k == self.spec_key(),
    {
        match self {
            DotRecord::APICalls(r) => DotRecordKey::APICalls {
                dot_type: r.dot_type,
                api_name: r.api_name,
            },
            DotRecord::PunishedCount(_) => DotRecordKey::PunishedCount,
        }
    }

    pub fn dot_type(&self) -> (r: Option<DotType>)
        ensures
            r == (match *self {
                DotRecord::APICalls(rec) => Some(rec.dot_type),
                DotRecord::PunishedCount(_) => None::<DotType>,
            }),
    {
        match self {
            DotRecord::APICalls(rec) => Some(rec.dot_type),
            DotRecord::PunishedCount(_) => None,
        }
    }

    pub fn api_name(&self) -> (r: Option<ApiName>)
        ensures
            r == (match *self {
                DotRecord::APICalls(rec) => Some(rec.api_name),
                DotRecord::PunishedCount(_) => None::<ApiName>,
            }),
    {
        match self {
            DotRecord::APICalls(rec) => Some(rec.api_name),
            DotRecord::PunishedCount(_) => None,
        }
    }

    pub fn success_count(&self) -> (r: Option<u64>)
        ensures
            r == (match *self {
                DotRecord::APICalls(rec) => Some(rec.success_count),
                DotRecord::PunishedCount(_) => None::<u64>,
            }),
    {
        match self {
            DotRecord::APICalls(rec) => Some(rec.success_count),
            DotRecord::PunishedCount(_) => None,
        }
    }

    pub fn success_avg_elapsed_duration_ms(&self) -> (r: Option<u64>)
        ensures
            r == (match *self {
                DotRecord::APICalls(rec) => Some(rec.success_avg_elapsed_duration),
                DotRecord::PunishedCount(_) => None::<u64>,
            }),
    {
        match self {
            DotRecord::APICalls(rec) => Some(rec.success_avg_elapsed_duration),
            DotRecord::PunishedCount(_) => None,
        }
    }

    pub fn failed_count(&self) -> (r: Option<u64>)
        ensures
            r == (match *self {
                DotRecord::APICalls(rec) => Some(rec.failed_count),
                DotRecord::PunishedCount(_) => None::<u64>,
            }),
    {
        match self {
            DotRecord::APICalls(rec) => Some(rec.failed_count),
            DotRecord::PunishedCount(_) => None,
        }
    }

    pub fn failed_avg_elapsed_duration_ms(&self) -> (r: Option<u64>)
        ensures
            r == (match *self {
                DotRecord::APICalls(rec) => Some(rec.failed_avg_elapsed_duration),
                DotRecord::PunishedCount(_) => None::<u64>,
            }),
    {
        match self {
            DotRecord::APICalls(rec) => Some(rec.failed_avg_elapsed_duration),
            DotRecord::PunishedCount(_) => None,
        }
    }

    pub fn punished_count(&self) -> (r: Option<u64>)
        ensures
            r == (match *self {
                DotRecord::APICalls(_) => None::<u64>,
                DotRecord::PunishedCount(rec) => Some(rec.punished_count),
            }),
    {
        match self {
            DotRecord::APICalls(_) => None,
            DotRecord::PunishedCount(rec) => Some(rec.punished_count),
        }
    }
}

/// Floor of the count-weighted average of two averages; 0 when both counts
/// are 0.
pub open spec fn spec_merged_avg(avg_a: u64, cnt_a: u64, avg_b: u64, cnt_b: u64) -> int {
    let total = avg_a * cnt_a + avg_b * cnt_b;
    let cnt = cnt_a + cnt_b;
    if cnt == 0 {
        0
    } else {
        total / cnt
    }
}

/// Whether the count sums of a same-key merge of `a` and `b` fit the field
/// widths.  Merging two records whose counts overflow has no defined
/// result.
pub open spec fn spec_merge_fits(a: DotRecord, b: DotRecord) -> bool {
    match (a, b) {
        (DotRecord::APICalls(x), DotRecord::APICalls(y)) => {
            x.success_count + y.success_count <= u64::MAX
                && x.failed_count + y.failed_count <= u64::MAX
        },
        (DotRecord::PunishedCount(x), DotRecord::PunishedCount(y)) => {
            x.punished_count + y.punished_count <= u64::MAX
        },
        _ => true,
    }
}

/// Same-key merge of two records: counts add; averages are re-weighted by
/// the counts.  Meaningful under `spec_merge_fits` and equal keys.
pub open spec fn spec_merged(a: DotRecord, b: DotRecord) -> DotRecord {
    match (a, b) {
        (DotRecord::APICalls(x), DotRecord::APICalls(y)) => DotRecord::APICalls(
            APICallsDotRecord {
                dot_type: x.dot_type,
                api_name: x.api_name,
                success_count: (x.success_count + y.success_count) as u64,
                success_avg_elapsed_duration: spec_merged_avg(
                    x.success_avg_elapsed_duration,
                    x.success_count,
                    y.success_avg_elapsed_duration,
                    y.success_count,
                ) as u64,
                failed_count: (x.failed_count + y.failed_count) as u64,
                failed_avg_elapsed_duration: spec_merged_avg(
                    x.failed_avg_elapsed_duration,
                    x.failed_count,
                    y.failed_avg_elapsed_duration,
                    y.failed_count,
                ) as u64,
            },
        ),
        (DotRecord::PunishedCount(x), DotRecord::PunishedCount(y)) => DotRecord::PunishedCount(
            PunishedCountDotRecord {
                punished_count: (x.punished_count + y.punished_count) as u64,
            },
        ),
        _ => a,
    }
}

/// Floor of the weighted average of `avg_a` over `cnt_a` items and `avg_b`
/// over `cnt_b` items, in 128-bit arithmetic.
fn merged_avg(avg_a: u64, cnt_a: u64, avg_b: u64, cnt_b: u64) -> (r: u64)
    requires
        cnt_a + cnt_b <= u64::MAX,
    ensures
        r == spec_merged_avg(avg_a, cnt_a, avg_b, cnt_b),
{
    let cnt = cnt_a + cnt_b;
    if cnt == 0 {
        return 0;
    }
    proof {
        assert((avg_a as u128) * (cnt_a as u128) + (avg_b as u128) * (cnt_b as u128) <= (
        u64::MAX as u128) * (u64::MAX as u128)) by (nonlinear_arith)
            requires
                avg_a <= u64::MAX && avg_b <= u64::MAX && cnt_a + cnt_b <= u64::MAX,
        ;
    }
    let total: u128 = (avg_a as u128) * (cnt_a as u128) + (avg_b as u128) * (cnt_b as u128);
    let avg: u128 = total / (cnt as u128);
    proof {
        assert(total <= u64::MAX * (cnt as u128)) by (nonlinear_arith)
            requires
                total == (avg_a as u128) * (cnt_a as u128) + (avg_b as u128) * (cnt_b as u128),
                avg_a <= u64::MAX && avg_b <= u64::MAX,
                cnt == cnt_a + cnt_b,
        ;
        assert(avg <= u64::MAX) by (nonlinear_arith)
            requires
                avg == total / (cnt as u128),
                0 < cnt <= u64::MAX,
                total <= u64::MAX * (cnt as u128),
        ;
        assert(total as int / (cnt as u128) as int == spec_merged_avg(avg_a, cnt_a, avg_b, cnt_b));
    }
    avg as u64
}

/// Merges `b` into `a`, which must carry the same key: counts add, and
/// each average becomes the count-weighted average of the two.
pub fn merge_record_pair(a: &mut DotRecord, b: &DotRecord)
    requires
        old(a).spec_key() == b.spec_key(),
        spec_merge_fits(*old(a), *b),
    ensures
        *final(a) == spec_merged(*old(a), *b),
{
    match (a, b) {
        (DotRecord::APICalls(x), DotRecord::APICalls(y)) => {
            let sa = merged_avg(
                x.success_avg_elapsed_duration,
                x.success_count,
                y.success_avg_elapsed_duration,
                y.success_count,
            );
            let fa = merged_avg(
                x.failed_avg_elapsed_duration,
                x.failed_count,
                y.failed_avg_elapsed_duration,
                y.failed_count,
            );
            x.success_count = x.success_count + y.success_count;
            x.failed_count = x.failed_count + y.failed_count;
            x.success_avg_elapsed_duration = sa;
            x.failed_avg_elapsed_duration = fa;
        },
        (DotRecord::PunishedCount(x), DotRecord::PunishedCount(y)) => {
            x.punished_count = x.punished_count + y.punished_count;
        },
        _ => {},
    }
}

} // verus!
