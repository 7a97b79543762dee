use qiniu_download::codec::parse_record;
use qiniu_download::dotter::{
    disable_dotting, enable_dotting, is_dotting_disabled, make_request_body, Dotter, Toggles,
};
use qiniu_download::dotter::{RetryDecision, UploadOutcome};
use qiniu_download::record_map::{DotRecords, DotRecordsMap};
use qiniu_download::records::{ApiName, DotRecord, DotRecordKey, DotType};

fn active_dotter(urls: Vec<String>) -> Dotter {
    Dotter::new(
        "bucket".to_owned(),
        urls,
        Some(0),
        Some(1),
        Some(1),
        None,
        None,
        None,
        None,
        true,
        0,
    )
}

fn monitor_urls() -> Vec<String> {
    vec!["http://monitor".to_owned()]
}

/// Runs the in-memory half of a flush-and-upload cycle: takes the
/// buffered lines, reads them back line by line, and builds the body.
fn roundtrip_body(dotter: &mut Dotter) -> DotRecordsMap {
    let (lines, _batch) = dotter.take_buffered_lines();
    let mut parsed: Vec<DotRecord> = Vec::new();
    for line in lines.split('\n') {
        if line.is_empty() {
            continue;
        }
        if let Some(rec) = parse_record(line) {
            parsed.push(rec);
        }
    }
    let body: DotRecords = make_request_body(parsed);
    let mut map = DotRecordsMap::new();
    map.merge_with_records(body);
    map
}

#[test]
fn test_dotter_dot_nothing() {
    let toggles = Toggles::new();
    let mut dotter = active_dotter(vec![]);
    assert!(dotter.inner.is_none());
    dotter.dot(&toggles, DotType::Http, ApiName::IoGetfile, true, 0);
    let (lines, _) = dotter.take_buffered_lines();
    assert_eq!(lines, "");

    let mut dotter = active_dotter(monitor_urls());
    assert!(dotter.inner.is_some());
    let mut toggles = Toggles::new();
    disable_dotting(&mut toggles);
    assert!(is_dotting_disabled(&toggles));
    dotter.dot(&toggles, DotType::Http, ApiName::IoGetfile, true, 0);
    let (lines, _) = dotter.take_buffered_lines();
    assert_eq!(lines, "");
    enable_dotting(&mut toggles);
    assert!(!is_dotting_disabled(&toggles));
}

#[test]
fn test_dotter_dot_something() {
    let toggles = Toggles::new();
    let mut dotter = active_dotter(monitor_urls());
    let calls: [(DotType, ApiName, bool, u64); 13] = [
        (DotType::Sdk, ApiName::IoGetfile, true, 10),
        (DotType::Sdk, ApiName::IoGetfile, false, 12),
        (DotType::Sdk, ApiName::UcV4Query, true, 14),
        (DotType::Sdk, ApiName::UcV4Query, true, 16),
        (DotType::Sdk, ApiName::UcV4Query, false, 18),
        (DotType::Http, ApiName::IoGetfile, true, 20),
        (DotType::Http, ApiName::IoGetfile, true, 22),
        (DotType::Http, ApiName::IoGetfile, false, 24),
        (DotType::Http, ApiName::UcV4Query, true, 26),
        (DotType::Http, ApiName::UcV4Query, true, 28),
        (DotType::Http, ApiName::UcV4Query, true, 28),
        (DotType::Http, ApiName::UcV4Query, false, 30),
        (DotType::Http, ApiName::UcV4Query, true, 32),
    ];
    for (dt, api, ok, ms) in calls {
        assert!(dotter.dot_fits(dt, api, ok, ms));
        dotter.dot(&toggles, dt, api, ok, ms);
    }
    let map = roundtrip_body(&mut dotter);
    {
        let rec = map.get(DotRecordKey::new(DotType::Sdk, ApiName::UcV4Query)).unwrap();
        assert_eq!(rec.success_count(), Some(2));
        assert_eq!(rec.failed_count(), Some(1));
        assert_eq!(rec.success_avg_elapsed_duration_ms(), Some(15));
        assert_eq!(rec.failed_avg_elapsed_duration_ms(), Some(18));
    }
    {
        let rec = map.get(DotRecordKey::new(DotType::Sdk, ApiName::IoGetfile)).unwrap();
        assert_eq!(rec.success_count(), Some(1));
        assert_eq!(rec.failed_count(), Some(1));
        assert_eq!(rec.success_avg_elapsed_duration_ms(), Some(10));
        assert_eq!(rec.failed_avg_elapsed_duration_ms(), Some(12));
    }
    {
        let rec = map.get(DotRecordKey::new(DotType::Http, ApiName::UcV4Query)).unwrap();
        assert_eq!(rec.success_count(), Some(4));
        assert_eq!(rec.failed_count(), Some(1));
        assert_eq!(rec.success_avg_elapsed_duration_ms(), Some(28));
        assert_eq!(rec.failed_avg_elapsed_duration_ms(), Some(30));
    }
    {
        let rec = map.get(DotRecordKey::new(DotType::Http, ApiName::IoGetfile)).unwrap();
        assert_eq!(rec.success_count(), Some(2));
        assert_eq!(rec.failed_count(), Some(1));
        assert_eq!(rec.success_avg_elapsed_duration_ms(), Some(21));
        assert_eq!(rec.failed_avg_elapsed_duration_ms(), Some(24));
    }
}

#[test]
fn test_dotter_punish() {
    let toggles = Toggles::new();
    let mut dotter = active_dotter(monitor_urls());
    dotter.dot(&toggles, DotType::Sdk, ApiName::IoGetfile, true, 10);
    for _ in 0..5 {
        assert!(dotter.punish_fits());
        dotter.punish(&toggles);
    }
    let map = roundtrip_body(&mut dotter);
    {
        let rec = map.get(DotRecordKey::new(DotType::Sdk, ApiName::IoGetfile)).unwrap();
        assert_eq!(rec.success_count(), Some(1));
        assert_eq!(rec.failed_count(), Some(0));
        assert_eq!(rec.success_avg_elapsed_duration_ms(), Some(10));
        assert_eq!(rec.failed_avg_elapsed_duration_ms(), Some(0));
    }
    {
        let rec = map.get(DotRecordKey::punished()).unwrap();
        assert_eq!(rec.punished_count(), Some(5));
    }
}

#[test]
fn test_weighted_merge_scenario() {
    // the weighted average builds up stepwise and lands on the exact
    // floor values
    let mut map = DotRecordsMap::new();
    map.merge_with_record(DotRecord::new(DotType::Sdk, ApiName::UcV4Query, 1, 0, 14, 0));
    map.merge_with_record(DotRecord::new(DotType::Sdk, ApiName::UcV4Query, 1, 0, 16, 0));
    map.merge_with_record(DotRecord::new(DotType::Sdk, ApiName::UcV4Query, 0, 1, 0, 18));
    let rec = map.get(DotRecordKey::new(DotType::Sdk, ApiName::UcV4Query)).unwrap();
    assert_eq!(rec.success_count(), Some(2));
    assert_eq!(rec.success_avg_elapsed_duration_ms(), Some(15));
    assert_eq!(rec.failed_count(), Some(1));
    assert_eq!(rec.failed_avg_elapsed_duration_ms(), Some(18));
    assert_eq!(map.len(), 1);
}

#[test]
fn test_merge_floor_division() {
    let mut map = DotRecordsMap::new();
    map.merge_with_record(DotRecord::new(DotType::Http, ApiName::UcV4Query, 1, 0, 3, 0));
    map.merge_with_record(DotRecord::new(DotType::Http, ApiName::UcV4Query, 1, 0, 4, 0));
    let rec = map.get(DotRecordKey::new(DotType::Http, ApiName::UcV4Query)).unwrap();
    // (3 + 4) / 2 rounds down
    assert_eq!(rec.success_avg_elapsed_duration_ms(), Some(3));
}

#[test]
fn test_merge_fits_refuses_count_overflow() {
    let mut map = DotRecordsMap::new();
    let big = DotRecord::new(DotType::Sdk, ApiName::IoGetfile, u64::MAX, 0, 1, 0);
    assert!(map.merge_fits(&big));
    map.merge_with_record(big);
    let one = DotRecord::new(DotType::Sdk, ApiName::IoGetfile, 1, 0, 1, 0);
    assert!(!map.merge_fits(&one));
    let other_key = DotRecord::new(DotType::Http, ApiName::IoGetfile, 1, 0, 1, 0);
    assert!(map.merge_fits(&other_key));
}

#[test]
fn test_freeze_records_punished_count() {
    let toggles = Toggles::new();
    let mut dotter = active_dotter(monitor_urls());
    let mut sel = qiniu_download::host_selector::HostSelectorBuilder::new(vec![
        "http://host1".to_owned(),
    ])
    .max_punished_times(2)
    .build(0);
    assert!(sel.punish("http://host1", true, 0, &toggles, &mut dotter));
    assert!(sel.punish("http://host1", true, 0, &toggles, &mut dotter));
    assert!(sel.punish("http://host1", true, 0, &toggles, &mut dotter));
    let map = roundtrip_body(&mut dotter);
    let rec = map.get(DotRecordKey::punished()).unwrap();
    assert_eq!(rec.punished_count(), Some(1));
    assert_eq!(map.len(), 1);
}

#[test]
fn test_upload_trigger() {
    let toggles = Toggles::new();
    let mut dotter = Dotter::new(
        "bucket".to_owned(),
        monitor_urls(),
        Some(1000),
        Some(64),
        None,
        None,
        None,
        None,
        None,
        true,
        0,
    );
    assert!(!dotter.is_time_to_upload(&toggles, 1000, 0));
    assert!(dotter.is_time_to_upload(&toggles, 1001, 0));
    assert!(dotter.is_time_to_upload(&toggles, 0, 65));
    assert!(!dotter.is_time_to_upload(&toggles, 0, 64));
    dotter.note_uploaded(2000);
    assert!(!dotter.is_time_to_upload(&toggles, 2500, 0));
    assert!(dotter.is_time_to_upload(&toggles, 3001, 0));
    let mut off = Toggles::new();
    qiniu_download::dotter::disable_dot_uploading(&mut off);
    assert!(qiniu_download::dotter::is_dot_uploading_disabled(&off));
    assert!(!dotter.is_time_to_upload(&off, 9999, 9999));
    qiniu_download::dotter::enable_dot_uploading(&mut off);
    assert!(!qiniu_download::dotter::is_dot_uploading_disabled(&off));
}

#[test]
fn test_upload_retry_steps() {
    let toggles = Toggles::new();
    let mut dotter = active_dotter(monitor_urls());
    let hi = dotter.select_monitor_host(0).unwrap();
    assert_eq!(hi.host(), "http://monitor");
    // a failed attempt that punishes keeps trying
    let d = dotter.upload_attempt_done(
        &toggles,
        &hi,
        UploadOutcome::Failed { timed_out: true, should_punish_verdict: true },
        0,
    );
    assert_eq!(d, RetryDecision::Retry);
    // a success rewards and finishes
    let hi = dotter.select_monitor_host(0).unwrap();
    let d = dotter.upload_attempt_done(&toggles, &hi, UploadOutcome::Accepted, 5);
    assert_eq!(d, RetryDecision::Done);
}
