use nrtm4_validator::errors::NrtmError;
use nrtm4_validator::nrtm4::parse_delta_bytes;
use nrtm4_validator::nrtm4::parse_snapshot_bytes;
use nrtm4_validator::nrtm4_types::NRTM4DeltaEntry;

fn frame(records: &[&str]) -> Vec<u8> {
    let mut out = Vec::new();
    for r in records {
        out.push(0x1eu8);
        out.extend_from_slice(r.as_bytes());
    }
    out
}

const SNAP_HEADER: &str = "{\"nrtm_version\": 4, \"source\": \"EXAMPLE\", \"session_id\": \"ca128382-78d9-41d1-8927-1ecef15275be\", \"version\": 3, \"type\": \"snapshot\"}";
const DELTA_HEADER: &str = "{\"nrtm_version\": 4, \"source\": \"EXAMPLE\", \"session_id\": \"ca128382-78d9-41d1-8927-1ecef15275be\", \"version\": 4, \"type\": \"delta\"}";

#[test]
fn snapshot_document_parses() {
    let data = frame(&[SNAP_HEADER, "{\"object\": \"route: 192.0.2.0/24\"}", "{\"object\": \"person: X\"}"]);
    let file = parse_snapshot_bytes(data).unwrap();
    assert_eq!(file.header.nrtm_version, 4);
    assert_eq!(file.header.source, "EXAMPLE");
    assert_eq!(file.header.version, 3);
    assert_eq!(file.entries.len(), 2);
    assert_eq!(file.entries[0].object, "route: 192.0.2.0/24");
}

#[test]
fn snapshot_rejects_delta_tag() {
    let data = frame(&[DELTA_HEADER, "{\"object\": \"x\"}"]);
    assert!(parse_snapshot_bytes(data).is_err());
}

#[test]
fn delta_document_parses_both_entry_shapes() {
    let data = frame(&[
        DELTA_HEADER,
        "{\"action\": \"add_modify\", \"object\": \"route: 192.0.2.0/24\"}",
        "{\"action\": \"delete\", \"object_class\": \"person\", \"primary_key\": \"X1\"}",
    ]);
    let file = parse_delta_bytes(data).unwrap();
    assert_eq!(file.entries.len(), 2);
    assert!(matches!(&file.entries[0], NRTM4DeltaEntry::AddModify { object } if object == "route: 192.0.2.0/24"));
    assert!(matches!(&file.entries[1], NRTM4DeltaEntry::Delete { object_class, primary_key }
        if object_class == "person" && primary_key == "X1"));
}

#[test]
fn unknown_entry_tag_is_rejected() {
    let data = frame(&[DELTA_HEADER, "{\"action\": \"noop\", \"object\": \"x\"}"]);
    assert_eq!(parse_delta_bytes(data).unwrap_err(), NrtmError::UnknownEntryTag);
}

#[test]
fn delta_entry_shapes_are_closed() {
    // an add_modify may not carry delete fields
    let data = frame(&[
        DELTA_HEADER,
        "{\"action\": \"add_modify\", \"object\": \"x\", \"primary_key\": \"y\"}",
    ]);
    assert!(parse_delta_bytes(data).is_err());
}

#[test]
fn unknown_header_field_is_rejected() {
    let data = frame(&[
        "{\"nrtm_version\": 4, \"source\": \"A\", \"session_id\": \"s\", \"version\": 3, \"type\": \"snapshot\", \"extra\": 1}",
    ]);
    assert_eq!(
        parse_snapshot_bytes(data).unwrap_err(),
        NrtmError::UnknownField { field: String::from("extra") },
    );
}

#[test]
fn repeated_header_field_is_rejected() {
    let data = frame(&[
        "{\"nrtm_version\": 4, \"nrtm_version\": 4, \"source\": \"A\", \"session_id\": \"s\", \"version\": 3, \"type\": \"snapshot\"}",
    ]);
    assert_eq!(
        parse_snapshot_bytes(data).unwrap_err(),
        NrtmError::DuplicateField { field: String::from("nrtm_version") },
    );
}

#[test]
fn missing_header_field_is_rejected() {
    let data = frame(&["{\"nrtm_version\": 4, \"source\": \"A\", \"version\": 3, \"type\": \"snapshot\"}"]);
    assert_eq!(
        parse_snapshot_bytes(data).unwrap_err(),
        NrtmError::MissingField { field: String::from("session_id") },
    );
}

#[test]
fn wrongly_typed_header_field_is_rejected() {
    let data = frame(&[
        "{\"nrtm_version\": \"4\", \"source\": \"A\", \"session_id\": \"s\", \"version\": 3, \"type\": \"snapshot\"}",
    ]);
    assert_eq!(
        parse_snapshot_bytes(data).unwrap_err(),
        NrtmError::WrongFieldType { field: String::from("nrtm_version") },
    );
}

#[test]
fn string_escapes_unescape_exactly() {
    let data = frame(&[SNAP_HEADER, "{\"object\": \"a\\nb\\t\\\"q\\\" \\u0041\\u00e9\\ud83d\\ude00\"}"]);
    let file = parse_snapshot_bytes(data).unwrap();
    assert_eq!(file.entries[0].object, "a\nb\t\"q\" A\u{00e9}\u{1f600}");
}

#[test]
fn lone_surrogate_is_rejected() {
    let data = frame(&[SNAP_HEADER, "{\"object\": \"\\ud83d\"}"]);
    assert!(parse_snapshot_bytes(data).is_err());
}

#[test]
fn leading_zero_number_is_rejected() {
    let data = frame(&[
        "{\"nrtm_version\": 04, \"source\": \"A\", \"session_id\": \"s\", \"version\": 3, \"type\": \"snapshot\"}",
    ]);
    assert_eq!(parse_snapshot_bytes(data).unwrap_err(), NrtmError::JsonSyntax);
}

#[test]
fn fractional_number_is_rejected() {
    let data = frame(&[
        "{\"nrtm_version\": 4.0, \"source\": \"A\", \"session_id\": \"s\", \"version\": 3, \"type\": \"snapshot\"}",
    ]);
    assert_eq!(parse_snapshot_bytes(data).unwrap_err(), NrtmError::JsonSyntax);
}

#[test]
fn whitespace_is_insignificant() {
    let data = frame(&[
        " {\n\t\"nrtm_version\" : 4 , \"source\" : \"A\" , \"session_id\" : \"s\" , \"version\" : 3 , \"type\" : \"snapshot\" } ",
    ]);
    let file = parse_snapshot_bytes(data).unwrap();
    assert_eq!(file.header.source, "A");
}

#[test]
fn trailing_garbage_is_rejected() {
    let data = frame(&[&(String::from(SNAP_HEADER) + " x")]);
    assert_eq!(parse_snapshot_bytes(data).unwrap_err(), NrtmError::JsonSyntax);
}

#[test]
fn snapshot_header_protocol_version_is_pinned() {
    let data = frame(&[
        "{\"nrtm_version\": 3, \"source\": \"EXAMPLE\", \"session_id\": \"s\", \"version\": 3, \"type\": \"snapshot\"}",
        "{\"object\": \"x\"}",
    ]);
    assert_eq!(
        parse_snapshot_bytes(data).unwrap_err(),
        NrtmError::WrongProtocolVersion { found: 3 },
    );
}

#[test]
fn delta_header_protocol_version_is_pinned() {
    let data = frame(&[
        "{\"nrtm_version\": 5, \"source\": \"EXAMPLE\", \"session_id\": \"s\", \"version\": 4, \"type\": \"delta\"}",
    ]);
    assert_eq!(
        parse_delta_bytes(data).unwrap_err(),
        NrtmError::WrongProtocolVersion { found: 5 },
    );
}
