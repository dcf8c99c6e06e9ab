use dbf_reader::error::{ConfigError, DbfError, FormatError};
use dbf_reader::{dbf_needs_memo, read_dbf, read_dbf_with_types, OutValue};

fn desc(name: &str, ftype: u8, len: u8, dec: u8) -> Vec<u8> {
    let mut d = vec![0u8; 32];
    let nb = name.as_bytes();
    d[..nb.len()].copy_from_slice(nb);
    d[11] = ftype;
    d[16] = len;
    d[17] = dec;
    d
}

fn table(descs: &[Vec<u8>], records: &[Vec<u8>]) -> Vec<u8> {
    let nf = descs.len();
    let hl = 33 + 32 * nf;
    let rl: usize = 1 + descs.iter().map(|d| d[16] as usize).sum::<usize>();
    let mut t = vec![0u8; 32];
    t[0] = 3;
    t[1] = 23;
    t[2] = 6;
    t[3] = 15;
    let rc = records.len() as u32;
    t[4] = (rc & 0xFF) as u8;
    t[5] = ((rc >> 8) & 0xFF) as u8;
    t[6] = ((rc >> 16) & 0xFF) as u8;
    t[7] = ((rc >> 24) & 0xFF) as u8;
    t[8] = (hl & 0xFF) as u8;
    t[9] = ((hl >> 8) & 0xFF) as u8;
    t[10] = (rl & 0xFF) as u8;
    t[11] = ((rl >> 8) & 0xFF) as u8;
    for d in descs {
        t.extend_from_slice(d);
    }
    t.push(0x0D);
    for r in records {
        assert_eq!(r.len(), rl);
        t.extend_from_slice(r);
    }
    t
}

fn rec(fields: &[&[u8]]) -> Vec<u8> {
    let mut r = vec![0x20u8];
    for f in fields {
        r.extend_from_slice(f);
    }
    r
}

fn pad(s: &str, w: usize) -> Vec<u8> {
    let mut b = s.as_bytes().to_vec();
    while b.len() < w {
        b.push(0x20);
    }
    b
}

fn get<'a>(row: &'a [(String, OutValue)], name: &str) -> &'a OutValue {
    &row.iter().find(|(n, _)| n == name).expect("field present").1
}

#[test]
fn record_count_bound_and_deleted_skipped() {
    let descs = vec![desc("NAME", b'C', 5, 0)];
    let mut deleted = rec(&[&pad("GONE", 5)]);
    deleted[0] = 0x2A;
    let t = table(
        &descs,
        &[rec(&[&pad("A", 5)]), deleted, rec(&[&pad("B", 5)])],
    );
    let res = read_dbf_with_types(&t, None, None).expect("read");
    assert_eq!(res.records.len(), 2);
    assert!(matches!(get(&res.records[0], "NAME"), OutValue::Text(s) if s == "A"));
    assert!(matches!(get(&res.records[1], "NAME"), OutValue::Text(s) if s == "B"));

    let t2 = table(&descs, &[rec(&[&pad("A", 5)]), rec(&[&pad("B", 5)])]);
    let res2 = read_dbf_with_types(&t2, None, None).expect("read");
    assert_eq!(res2.records.len(), 2);
}

#[test]
fn needs_memo_iff_schema_has_memo_tag() {
    let with_memo = table(
        &[desc("NAME", b'C', 3, 0), desc("NOTE", b'M', 4, 0)],
        &[],
    );
    assert!(dbf_needs_memo(&with_memo).expect("parse"));
    let res = read_dbf_with_types(&with_memo, None, None).expect("read");
    assert!(res.field_types.iter().any(|(_, tag)| tag == "Memo"));

    let without = table(&[desc("NAME", b'C', 3, 0)], &[]);
    assert!(!dbf_needs_memo(&without).expect("parse"));
    let res2 = read_dbf_with_types(&without, None, None).expect("read");
    assert!(!res2.field_types.iter().any(|(_, tag)| tag == "Memo"));
}

#[test]
fn character_trailing_spaces_stripped() {
    let t = table(&[desc("TXT", b'C', 10, 0)], &[rec(&[&pad("ABC", 10)])]);
    let res = read_dbf_with_types(&t, None, None).expect("read");
    assert!(matches!(get(&res.records[0], "TXT"), OutValue::Text(s) if s == "ABC"));
}

#[test]
fn character_all_blank_is_null() {
    let t = table(&[desc("TXT", b'C', 4, 0)], &[rec(&[&pad("", 4)])]);
    let res = read_dbf_with_types(&t, None, None).expect("read");
    assert!(matches!(get(&res.records[0], "TXT"), OutValue::Null));
}

#[test]
fn numeric_blank_null_and_value_parsed() {
    let t = table(
        &[desc("N1", b'N', 6, 2), desc("N2", b'N', 6, 2)],
        &[rec(&[&pad("", 6), b"  3.50"])],
    );
    let res = read_dbf_with_types(&t, None, None).expect("read");
    assert!(matches!(get(&res.records[0], "N1"), OutValue::Null));
    match get(&res.records[0], "N2") {
        OutValue::Number(d) => {
            assert_eq!(d.mantissa, 350);
            assert_eq!(d.scale, 2);
            let v = d.mantissa as f64 / 10f64.powi(d.scale as i32);
            assert_eq!(v, 3.5);
        }
        other => panic!("expected a number, got {:?}", other),
    }
}

#[test]
fn numeric_negative_and_unparsable() {
    let t = table(
        &[desc("N1", b'N', 7, 2), desc("N2", b'N', 5, 0)],
        &[rec(&[b"  -1.25", b"ab1cd"])],
    );
    let res = read_dbf_with_types(&t, None, None).expect("read");
    match get(&res.records[0], "N1") {
        OutValue::Number(d) => {
            assert_eq!(d.mantissa, -125);
            assert_eq!(d.scale, 2);
        }
        other => panic!("expected a number, got {:?}", other),
    }
    assert!(matches!(get(&res.records[0], "N2"), OutValue::Null));
}

#[test]
fn logical_question_null_yes_true_no_false() {
    let descs = vec![desc("L", b'L', 1, 0)];
    let cases: [(u8, Option<bool>); 5] = [
        (0x3F, None),
        (b'Y', Some(true)),
        (b'T', Some(true)),
        (b'N', Some(false)),
        (b'F', Some(false)),
    ];
    for (byte, expect) in cases {
        let t = table(&descs, &[rec(&[&[byte]])]);
        let res = read_dbf_with_types(&t, None, None).expect("read");
        match expect {
            None => assert!(matches!(get(&res.records[0], "L"), OutValue::Null)),
            Some(b) => {
                assert!(matches!(get(&res.records[0], "L"), OutValue::Truth(x) if *x == b))
            }
        }
    }
}

#[test]
fn date_decodes_to_iso_and_blank_to_null() {
    let t = table(
        &[desc("D1", b'D', 8, 0), desc("D2", b'D', 8, 0)],
        &[rec(&[b"20230615", &pad("", 8)])],
    );
    let res = read_dbf_with_types(&t, None, None).expect("read");
    assert!(matches!(get(&res.records[0], "D1"), OutValue::Text(s) if s == "2023-06-15"));
    assert!(matches!(get(&res.records[0], "D2"), OutValue::Null));
}

#[test]
fn memo_reference_zero_and_missing_file_are_null() {
    let descs = vec![desc("NOTE", b'M', 4, 0)];
    let zero_ref = rec(&[&[0u8, 0, 0, 0]]);
    let t = table(&descs, &[zero_ref]);
    let res = read_dbf_with_types(&t, None, None).expect("read");
    assert!(matches!(get(&res.records[0], "NOTE"), OutValue::Null));

    let nonzero_ref = rec(&[&[1u8, 0, 0, 0]]);
    let t2 = table(&descs, &[nonzero_ref]);
    let res2 = read_dbf_with_types(&t2, None, None).expect("read");
    assert!(matches!(get(&res2.records[0], "NOTE"), OutValue::Null));
}

#[test]
fn memo_resolves_against_memo_file() {
    let descs = vec![desc("NOTE", b'M', 4, 0)];
    let t = table(&descs, &[rec(&[&[1u8, 0, 0, 0]])]);
    let mut memo = vec![0u8; 1024];
    memo[512..517].copy_from_slice(b"Hello");
    memo[517] = 0x1A;
    let res = read_dbf_with_types(&t, Some(memo), None).expect("read");
    assert!(matches!(get(&res.records[0], "NOTE"), OutValue::Text(s) if s == "Hello"));
}

#[test]
fn memo_declared_block_size_honoured() {
    let descs = vec![desc("NOTE", b'M', 4, 0)];
    let t = table(&descs, &[rec(&[&[2u8, 0, 0, 0]])]);
    let mut memo = vec![0u8; 256];
    memo[6] = 0;
    memo[7] = 64;
    memo[128..130].copy_from_slice(b"Hi");
    memo[130] = 0x1A;
    let res = read_dbf_with_types(&t, Some(memo), None).expect("read");
    assert!(matches!(get(&res.records[0], "NOTE"), OutValue::Text(s) if s == "Hi"));
}

#[test]
fn memo_block_out_of_range_is_null() {
    let descs = vec![desc("NOTE", b'M', 4, 0)];
    let t = table(&descs, &[rec(&[&[9u8, 0, 0, 0]])]);
    let memo = vec![0u8; 600];
    let res = read_dbf_with_types(&t, Some(memo), None).expect("read");
    assert!(matches!(get(&res.records[0], "NOTE"), OutValue::Null));
}

#[test]
fn unsupported_encoding_fails_before_decoding() {
    let t = table(&[desc("TXT", b'C', 3, 0)], &[rec(&[&pad("A", 3)])]);
    let err = read_dbf_with_types(&t, None, Some("klingon".to_string())).unwrap_err();
    match err {
        DbfError::Config(ConfigError::UnsupportedEncoding(name)) => {
            assert_eq!(name, "klingon")
        }
        other => panic!("expected a configuration error, got {:?}", other),
    }
    let garbage = vec![0u8; 2];
    let err2 = read_dbf_with_types(&garbage, None, Some("klingon".to_string())).unwrap_err();
    assert!(matches!(
        err2,
        DbfError::Config(ConfigError::UnsupportedEncoding(_))
    ));
}

#[test]
fn header_length_beyond_buffer_is_truncation() {
    let mut t = table(&[desc("TXT", b'C', 3, 0)], &[]);
    t[8] = 0xFF;
    t[9] = 0x20;
    let err = read_dbf_with_types(&t, None, None).unwrap_err();
    assert!(matches!(
        err,
        DbfError::Format(FormatError::TruncatedHeader)
    ));
    let err2 = read_dbf(&t, None, None).unwrap_err();
    assert!(matches!(
        err2,
        DbfError::Format(FormatError::TruncatedHeader)
    ));
}

#[test]
fn short_buffer_is_truncated_header() {
    let err = read_dbf_with_types(&[1u8, 2, 3], None, None).unwrap_err();
    assert!(matches!(
        err,
        DbfError::Format(FormatError::TruncatedHeader)
    ));
}

#[test]
fn unknown_field_type_is_rejected() {
    let t = table(&[desc("X", b'X', 3, 0)], &[]);
    let err = read_dbf_with_types(&t, None, None).unwrap_err();
    match err {
        DbfError::Format(FormatError::UnknownFieldType(b)) => assert_eq!(b, b'X'),
        other => panic!("expected an unknown-type error, got {:?}", other),
    }
}

#[test]
fn record_length_mismatch_is_malformed() {
    let mut t = table(&[desc("TXT", b'C', 3, 0)], &[]);
    t[10] = 9;
    let err = read_dbf_with_types(&t, None, None).unwrap_err();
    assert!(matches!(
        err,
        DbfError::Format(FormatError::MalformedHeader)
    ));
}

#[test]
fn missing_records_is_truncated_records() {
    let mut t = table(&[desc("TXT", b'C', 3, 0)], &[rec(&[&pad("A", 3)])]);
    t[4] = 2;
    let err = read_dbf_with_types(&t, None, None).unwrap_err();
    assert!(matches!(
        err,
        DbfError::Format(FormatError::TruncatedRecords)
    ));
}

#[test]
fn integer_little_endian_signed() {
    let t = table(
        &[desc("I1", b'I', 4, 0), desc("I2", b'I', 4, 0)],
        &[rec(&[&[1u8, 0, 0, 0], &[0xFFu8, 0xFF, 0xFF, 0xFF]])],
    );
    let res = read_dbf_with_types(&t, None, None).expect("read");
    assert!(matches!(get(&res.records[0], "I1"), OutValue::Int(1)));
    assert!(matches!(get(&res.records[0], "I2"), OutValue::Int(-1)));
}

#[test]
fn currency_scaled_by_ten_thousand() {
    let raw: i64 = 15000;
    let t = table(
        &[desc("C1", b'Y', 8, 4)],
        &[rec(&[&raw.to_le_bytes()])],
    );
    let res = read_dbf_with_types(&t, None, None).expect("read");
    match get(&res.records[0], "C1") {
        OutValue::Number(d) => {
            assert_eq!(d.mantissa, 15000);
            assert_eq!(d.scale, 4);
            assert_eq!(d.mantissa as f64 / 10f64.powi(d.scale as i32), 1.5);
        }
        other => panic!("expected a number, got {:?}", other),
    }
}

#[test]
fn datetime_julian_day_and_milliseconds() {
    let jdn: u32 = 2460111;
    let ms: u32 = (13 * 3600 + 45 * 60 + 30) * 1000;
    let mut raw = Vec::new();
    raw.extend_from_slice(&jdn.to_le_bytes());
    raw.extend_from_slice(&ms.to_le_bytes());
    let t = table(&[desc("TS", b'T', 8, 0)], &[rec(&[&raw])]);
    let res = read_dbf_with_types(&t, None, None).expect("read");
    assert!(
        matches!(get(&res.records[0], "TS"), OutValue::Text(s) if s == "2023-06-15T13:45:30")
    );
}

#[test]
fn cp850_high_byte_decodes() {
    let t = table(&[desc("TXT", b'C', 2, 0)], &[rec(&[&[0x81u8, 0x20]])]);
    let res = read_dbf_with_types(&t, None, Some("cp850".to_string())).expect("read");
    assert!(matches!(get(&res.records[0], "TXT"), OutValue::Text(s) if s == "\u{FC}"));
}

#[test]
fn cp1252_high_byte_decodes() {
    let t = table(&[desc("TXT", b'C', 2, 0)], &[rec(&[&[0xE9u8, 0x20]])]);
    let res = read_dbf_with_types(&t, None, Some("cp1252".to_string())).expect("read");
    assert!(matches!(get(&res.records[0], "TXT"), OutValue::Text(s) if s == "\u{E9}"));
}

#[test]
fn utf8_and_ascii_selectors_decode_lossily() {
    let mut raw = "h\u{E9}".as_bytes().to_vec();
    while raw.len() < 4 {
        raw.push(0x20);
    }
    let t = table(&[desc("TXT", b'C', 4, 0)], &[rec(&[&raw])]);
    let res = read_dbf_with_types(&t, None, Some("utf8".to_string())).expect("read");
    assert!(matches!(get(&res.records[0], "TXT"), OutValue::Text(s) if s == "h\u{E9}"));
    let t2 = table(&[desc("TXT", b'C', 2, 0)], &[rec(&[&[0xFFu8, 0x20]])]);
    let res2 = read_dbf_with_types(&t2, None, Some("ascii".to_string())).expect("read");
    assert!(
        matches!(get(&res2.records[0], "TXT"), OutValue::Text(s) if s == "\u{FFFD}")
    );
}

#[test]
fn legacy_read_returns_rows_only() {
    let t = table(&[desc("N", b'N', 3, 0)], &[rec(&[b"  7"])]);
    let rows = read_dbf(&t, None, None).expect("read");
    assert_eq!(rows.len(), 1);
    match get(&rows[0], "N") {
        OutValue::Number(d) => {
            assert_eq!(d.mantissa, 7);
            assert_eq!(d.scale, 0);
        }
        other => panic!("expected a number, got {:?}", other),
    }
}

#[test]
fn schema_map_lists_every_field_in_order() {
    let t = table(
        &[
            desc("A", b'C', 1, 0),
            desc("B", b'N', 3, 1),
            desc("C", b'D', 8, 0),
        ],
        &[],
    );
    let res = read_dbf_with_types(&t, None, None).expect("read");
    let tags: Vec<(String, String)> = res.field_types.clone();
    assert_eq!(tags.len(), 3);
    assert_eq!(tags[0], ("A".to_string(), "Character".to_string()));
    assert_eq!(tags[1], ("B".to_string(), "Numeric".to_string()));
    assert_eq!(tags[2], ("C".to_string(), "Date".to_string()));
}

#[test]
fn error_messages_name_the_fault() {
    let err = read_dbf_with_types(&[0u8], None, None).unwrap_err();
    assert!(err.message().contains("header"));
    let t = table(&[desc("TXT", b'C', 3, 0)], &[]);
    let err2 = read_dbf_with_types(&t, None, Some("klingon".to_string())).unwrap_err();
    assert!(err2.message().contains("klingon"));
}
