use qiniu_download::codec::{parse_record, serialize_record, u64_to_dec};
use qiniu_download::dotter::encode_records_body;
use qiniu_download::record_map::DotRecords;
use qiniu_download::records::{ApiName, DotRecord, DotType};

#[test]
fn test_u64_decimal_rendering() {
    assert_eq!(u64_to_dec(0), "0");
    assert_eq!(u64_to_dec(7), "7");
    assert_eq!(u64_to_dec(10), "10");
    assert_eq!(u64_to_dec(409), "409");
    assert_eq!(u64_to_dec(u64::MAX), "18446744073709551615");
}

#[test]
fn test_serialize_api_calls_record() {
    let rec = DotRecord::new(DotType::Sdk, ApiName::UcV4Query, 2, 1, 15, 18);
    let line = serialize_record(&rec);
    assert_eq!(
        line,
        "{\"type\":\"sdk\",\"api_name\":\"uc_v4_query\",\"success_count\":2,\
         \"success_avg_elapsed_duration\":15,\"failed_count\":1,\
         \"failed_avg_elapsed_duration\":18}"
    );
}

#[test]
fn test_serialize_punished_record() {
    let rec = DotRecord::punished();
    assert_eq!(serialize_record(&rec), "{\"punished_count\":1}");
}

#[test]
fn test_roundtrip_every_shape() {
    let apis = [
        ApiName::IoGetfile,
        ApiName::MonitorV1Stat,
        ApiName::UcV4Query,
        ApiName::RangeReaderReadAt,
        ApiName::RangeReaderReadMultiRanges,
        ApiName::RangeReaderExist,
        ApiName::RangeReaderFileSize,
        ApiName::RangeReaderDownloadTo,
        ApiName::RangeReaderReadLastBytes,
    ];
    for dt in [DotType::Sdk, DotType::Http] {
        for api in apis {
            let rec = DotRecord::new(dt, api, 3, 0, 1234, 0);
            let line = serialize_record(&rec);
            assert_eq!(parse_record(&line), Some(rec));
        }
    }
    let rec = DotRecord::new(DotType::Http, ApiName::IoGetfile, u64::MAX, u64::MAX, 0, 7);
    assert_eq!(parse_record(&serialize_record(&rec)), Some(rec));
    let rec = DotRecord::punished();
    assert_eq!(parse_record(&serialize_record(&rec)), Some(rec));
}

#[test]
fn test_parse_rejects_junk() {
    assert_eq!(parse_record(""), None);
    assert_eq!(parse_record("{}"), None);
    assert_eq!(parse_record("{\"punished_count\":}"), None);
    assert_eq!(parse_record("{\"punished_count\":01}"), None);
    assert_eq!(parse_record("{\"punished_count\":1} "), None);
    assert_eq!(parse_record("{\"type\":\"tcp\",\"api_name\":\"io_getfile\",\"success_count\":1,\"success_avg_elapsed_duration\":0,\"failed_count\":0,\"failed_avg_elapsed_duration\":0}"), None);
    assert_eq!(
        parse_record("{\"punished_count\":18446744073709551616}"),
        None
    );
    assert_eq!(parse_record("{\"punished_count\":18446744073709551615}").and_then(|r| r.punished_count()), Some(u64::MAX));
}

#[test]
fn test_wire_form_matches_json() {
    // the rendered line is ordinary JSON with the documented fields
    let rec = DotRecord::new(DotType::Http, ApiName::RangeReaderReadAt, 5, 2, 33, 44);
    let line = serialize_record(&rec);
    let v: serde_json::Value = serde_json::from_str(&line).unwrap();
    assert_eq!(v["type"], serde_json::Value::String("http".to_owned()));
    assert_eq!(
        v["api_name"],
        serde_json::Value::String("range_reader_read_at".to_owned())
    );
    assert_eq!(v["success_count"], serde_json::Value::from(5u64));
    assert_eq!(v["success_avg_elapsed_duration"], serde_json::Value::from(33u64));
    assert_eq!(v["failed_count"], serde_json::Value::from(2u64));
    assert_eq!(v["failed_avg_elapsed_duration"], serde_json::Value::from(44u64));

    let p = DotRecord::punished();
    let v: serde_json::Value = serde_json::from_str(&serialize_record(&p)).unwrap();
    assert_eq!(v["punished_count"], serde_json::Value::from(1u64));
}

#[test]
fn test_records_body_shape() {
    let records = DotRecords::new(vec![
        DotRecord::new(DotType::Sdk, ApiName::IoGetfile, 1, 0, 9, 0),
        DotRecord::punished(),
    ]);
    let body = encode_records_body(&records);
    let v: serde_json::Value = serde_json::from_str(&body).unwrap();
    let logs = v["logs"].as_array().unwrap();
    assert_eq!(logs.len(), 2);
    assert_eq!(logs[0]["api_name"], serde_json::Value::String("io_getfile".to_owned()));
    assert_eq!(logs[1]["punished_count"], serde_json::Value::from(1u64));

    let empty = DotRecords::new(vec![]);
    assert_eq!(encode_records_body(&empty), "{\"logs\":[]}");
}
