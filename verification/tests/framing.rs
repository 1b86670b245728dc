use nrtm4_validator::errors::NrtmError;
use nrtm4_validator::jsonseq::JSONSequenceIterator;
use nrtm4_validator::jsonseq::encode_records;
use nrtm4_validator::jsonseq::jsonseq_from_bytes;

fn decode_all(data: Vec<u8>) -> Vec<Result<String, NrtmError>> {
    let mut iter = JSONSequenceIterator::new(data);
    let mut out = Vec::new();
    while let Some(item) = iter.next() {
        out.push(item);
    }
    out
}

#[test]
fn round_trip_three_records() {
    let records = vec![
        String::from("{\"type\": \"snapshot\"}"),
        String::from("x"),
        String::from("zw\u{00e9}"),
    ];
    let bytes = encode_records(&records).unwrap();
    let decoded = decode_all(bytes);
    assert_eq!(decoded.len(), 3);
    for (got, want) in decoded.into_iter().zip(records.into_iter()) {
        assert_eq!(got.unwrap(), want);
    }
}

#[test]
fn round_trip_zero_records() {
    let records: Vec<String> = vec![];
    let bytes = encode_records(&records).unwrap();
    assert_eq!(bytes.len(), 0);
    assert_eq!(decode_all(bytes).len(), 0);
}

#[test]
fn round_trip_keeps_interior_empty_record() {
    let records = vec![String::from("a"), String::from(""), String::from("b")];
    let bytes = encode_records(&records).unwrap();
    let decoded: Vec<String> = decode_all(bytes).into_iter().map(|r| r.unwrap()).collect();
    assert_eq!(decoded, vec!["a", "", "b"]);
}

#[test]
fn encoding_refuses_separator_in_record() {
    let records = vec![String::from("bad\u{001e}byte")];
    assert!(encode_records(&records).is_none());
}

#[test]
fn empty_input_has_no_header() {
    let r = jsonseq_from_bytes(Vec::new());
    assert_eq!(r.unwrap_err(), NrtmError::NoHeader);
}

#[test]
fn header_and_entries_split() {
    let bytes = b"\x1e{\"h\": 1}\x1e{\"e\": 2}".to_vec();
    let (header, mut iter) = jsonseq_from_bytes(bytes).unwrap();
    assert_eq!(header, "{\"h\": 1}");
    assert_eq!(iter.next().unwrap().unwrap(), "{\"e\": 2}");
    assert!(iter.next().is_none());
}

#[test]
fn trailing_fragment_is_final_record() {
    let bytes = b"\x1eheader\x1etail".to_vec();
    let decoded: Vec<String> = decode_all(bytes).into_iter().map(|r| r.unwrap()).collect();
    assert_eq!(decoded, vec!["header", "tail"]);
}

#[test]
fn trailing_separator_yields_no_empty_record() {
    let bytes = b"\x1eheader\x1e".to_vec();
    let decoded: Vec<String> = decode_all(bytes).into_iter().map(|r| r.unwrap()).collect();
    assert_eq!(decoded, vec!["header"]);
}

#[test]
fn first_byte_is_skipped_as_conventional_separator() {
    let bytes = b"Xabc".to_vec();
    let decoded: Vec<String> = decode_all(bytes).into_iter().map(|r| r.unwrap()).collect();
    assert_eq!(decoded, vec!["abc"]);
}

#[test]
fn invalid_utf8_record_fails_alone() {
    let bytes = vec![0x1e, 0xff, 0xfe, 0x1e, b'o', b'k'];
    let decoded = decode_all(bytes);
    assert_eq!(decoded.len(), 2);
    assert_eq!(decoded[0].clone().unwrap_err(), NrtmError::InvalidUtf8);
    assert_eq!(decoded[1].clone().unwrap(), "ok");
}
