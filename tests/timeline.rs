use std::io::Read;

use logo_timeline::{
    get_history_payload, history_query, init_db, json_records, save_logo, GetHistoryOptions, LogoState,
    Timestamp,
};

fn inflate(bytes: &[u8]) -> Vec<u8> {
    let mut out = Vec::new();
    flate2::read::GzDecoder::new(bytes).read_to_end(&mut out).unwrap();
    out
}

fn entry(seconds: i64, logo: Vec<u8>) -> LogoState {
    LogoState { time: Timestamp { seconds, nanos: 0 }, logo }
}

#[test]
fn schema_statement() {
    let s = init_db();
    assert!(s.sql.starts_with("CREATE TABLE IF NOT EXISTS timeline ("));
    assert!(s.sql.contains("created_at TIMESTAMPTZ NOT NULL DEFAULT NOW() PRIMARY KEY"));
    assert!(s.image.is_none());
}

#[test]
fn insert_statement_binds_image() {
    let s = save_logo(&[1, 2, 3]);
    assert_eq!(s.sql, "INSERT INTO timeline (image_png) VALUES ($1)");
    assert_eq!(s.image, Some(vec![1, 2, 3]));
}

#[test]
fn history_query_without_limit() {
    assert_eq!(
        history_query(GetHistoryOptions { limit: None }),
        "SELECT created_at, image_png FROM timeline ORDER BY created_at"
    );
}

#[test]
fn history_query_with_limit_keeps_oldest() {
    assert_eq!(
        history_query(GetHistoryOptions { limit: Some(2) }),
        "SELECT created_at, image_png FROM timeline ORDER BY created_at LIMIT 2"
    );
    assert_eq!(
        history_query(GetHistoryOptions { limit: Some(4294967295) }),
        "SELECT created_at, image_png FROM timeline ORDER BY created_at LIMIT 4294967295"
    );
}

#[test]
fn json_records_layout() {
    let records = vec![(b"t1".to_vec(), b"l1".to_vec()), (b"t2".to_vec(), b"l2".to_vec())];
    assert_eq!(
        String::from_utf8(json_records(&records)).unwrap(),
        "[{\"time\":\"t1\",\"logo\":\"l1\"},{\"time\":\"t2\",\"logo\":\"l2\"}]"
    );
    assert_eq!(json_records(&Vec::new()), b"[]".to_vec());
}

#[test]
fn limited_history_holds_two_oldest() {
    // The store answers the limited query with its two oldest rows.
    let rows = vec![entry(1_600_000_000, vec![1]), entry(1_600_000_060, vec![2])];
    let payload = get_history_payload(&rows).unwrap();
    let value: serde_json::Value = serde_json::from_slice(&inflate(&payload)).unwrap();
    let items = value.as_array().unwrap();
    assert_eq!(items.len(), 2);
    assert_eq!(items[0]["time"], "2020-09-13T12:26:40Z");
    assert_eq!(items[1]["time"], "2020-09-13T12:27:40Z");
}

#[test]
fn history_round_trip() {
    let images = vec![vec![137, 80, 78, 71, 0, 255], Vec::new(), vec![7; 100]];
    let rows: Vec<LogoState> =
        images.iter().enumerate().map(|(i, img)| entry(1_700_000_000 + i as i64, img.clone())).collect();
    let payload = get_history_payload(&rows).unwrap();
    assert_eq!(&payload[..2], &[0x1f, 0x8b]);
    let value: serde_json::Value = serde_json::from_slice(&inflate(&payload)).unwrap();
    let items = value.as_array().unwrap();
    assert_eq!(items.len(), images.len());
    for (item, img) in items.iter().zip(images.iter()) {
        let text = item["logo"].as_str().unwrap();
        assert_eq!(&base64::decode(text).unwrap(), img);
    }
}

#[test]
fn fractional_seconds_are_written() {
    let rows = vec![LogoState { time: Timestamp { seconds: 0, nanos: 500_000_000 }, logo: vec![] }];
    let payload = get_history_payload(&rows).unwrap();
    let value: serde_json::Value = serde_json::from_slice(&inflate(&payload)).unwrap();
    assert_eq!(value[0]["time"], "1970-01-01T00:00:00.500Z");
}

#[test]
fn empty_history_is_empty_array() {
    let payload = get_history_payload(&Vec::new()).unwrap();
    assert_eq!(inflate(&payload), b"[]".to_vec());
}
