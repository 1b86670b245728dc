use base64::Engine;
use ed25519_dalek::Signer;
use std::io::Write;
use nrtm4_validator::errors::NrtmError;
use nrtm4_validator::crypto::parse_public_key;
use nrtm4_validator::nrtm4::process_delta_response;
use nrtm4_validator::nrtm4::process_snapshot_response;
use nrtm4_validator::nrtm4::validate_documents;
use nrtm4_validator::nrtm4::validate_unf_detached;
use nrtm4_validator::nrtm4::validate_unf_payload;
use nrtm4_validator::nrtm4::validate_unf_envelope;
use nrtm4_validator::nrtm4_types::NRTM4DeltaEntry;
use nrtm4_validator::nrtm4_types::NRTM4DeltaFile;
use nrtm4_validator::nrtm4_types::NRTM4DeltaHeader;
use nrtm4_validator::nrtm4_types::NRTM4DeltaHeaderType;
use nrtm4_validator::nrtm4_types::NRTM4FileReference;
use nrtm4_validator::nrtm4_types::NRTM4SnapshotEntry;
use nrtm4_validator::nrtm4_types::NRTM4SnapshotFile;
use nrtm4_validator::nrtm4_types::NRTM4SnapshotHeader;
use nrtm4_validator::nrtm4_types::NRTM4SnapshotHeaderType;
use nrtm4_validator::nrtm4_types::NRTM4UpdateNotificationFile;
use nrtm4_validator::nrtm4_types::validate_unf;

fn frame(records: &[String]) -> Vec<u8> {
    let mut out = Vec::new();
    for r in records {
        out.push(0x1eu8);
        out.extend_from_slice(r.as_bytes());
    }
    out
}

fn reference(version: u32, url: &str, hash: &str) -> NRTM4FileReference {
    NRTM4FileReference { version, url: String::from(url), hash: String::from(hash) }
}

fn snapshot_header(source: &str, session: &str, version: u32) -> NRTM4SnapshotHeader {
    NRTM4SnapshotHeader {
        nrtm_version: 4,
        source: String::from(source),
        session_id: String::from(session),
        version,
        header_type: NRTM4SnapshotHeaderType::Snapshot,
    }
}

fn delta_header(source: &str, session: &str, version: u32) -> NRTM4DeltaHeader {
    NRTM4DeltaHeader {
        nrtm_version: 4,
        source: String::from(source),
        session_id: String::from(session),
        version,
        header_type: NRTM4DeltaHeaderType::Delta,
    }
}

fn scenario_unf() -> NRTM4UpdateNotificationFile {
    NRTM4UpdateNotificationFile {
        nrtm_version: 4,
        source: String::from("EXAMPLE"),
        session_id: String::from("S1"),
        version: 5,
        timestamp: 1_700_000_000,
        file_type: String::from("notification"),
        snapshot: reference(3, "https://example.net/snapshot.3.json", "H1"),
        deltas: vec![
            reference(4, "https://example.net/delta.4.json", "H2"),
            reference(5, "https://example.net/delta.5.json", "H3"),
        ],
        next_signing_key: None,
    }
}

fn scenario_documents() -> (NRTM4SnapshotFile, Vec<NRTM4DeltaFile>) {
    let snapshot = NRTM4SnapshotFile {
        header: snapshot_header("EXAMPLE", "S1", 3),
        entries: vec![NRTM4SnapshotEntry { object: String::from("route: 192.0.2.0/24") }],
    };
    let deltas = vec![
        NRTM4DeltaFile {
            header: delta_header("EXAMPLE", "S1", 4),
            entries: vec![NRTM4DeltaEntry::AddModify { object: String::from("x") }],
        },
        NRTM4DeltaFile {
            header: delta_header("EXAMPLE", "S1", 5),
            entries: vec![NRTM4DeltaEntry::Delete {
                object_class: String::from("route"),
                primary_key: String::from("192.0.2.0/24"),
            }],
        },
    ];
    (snapshot, deltas)
}

#[test]
fn end_to_end_scenario_completes() {
    let unf = scenario_unf();
    let (snapshot, deltas) = scenario_documents();
    assert!(validate_documents(&unf, &snapshot, &deltas).is_ok());
}

#[test]
fn mutated_delta_reference_version_fails() {
    let mut unf = scenario_unf();
    unf.deltas[0].version = 6;
    let (snapshot, deltas) = scenario_documents();
    assert_eq!(
        validate_documents(&unf, &snapshot, &deltas).unwrap_err(),
        NrtmError::VersionMismatch { file: String::from("Delta"), found_version: 4, expected_version: 6 },
    );
    // the same mutation is already refused at the notification's own
    // schema-level validation, as a non-contiguous version list
    let mut well_formed = scenario_unf();
    well_formed.session_id = String::from("ca128382-78d9-41d1-8927-1ecef15275be");
    well_formed.deltas[0].version = 6;
    assert_eq!(
        validate_unf(&well_formed, well_formed.timestamp).unwrap_err(),
        NrtmError::NonContiguousDeltas,
    );
}

#[test]
fn mismatched_source_or_session_fails() {
    let unf = scenario_unf();
    let (mut snapshot, deltas) = scenario_documents();
    snapshot.header.source = String::from("OTHER");
    assert_eq!(
        validate_documents(&unf, &snapshot, &deltas).unwrap_err(),
        NrtmError::ConsistencyMismatch {
            field: String::from("source"),
            file: String::from("Snapshot"),
            found: String::from("OTHER"),
            expected: String::from("EXAMPLE"),
        },
    );
    let (snapshot, mut deltas) = scenario_documents();
    deltas[1].header.session_id = String::from("S2");
    assert!(matches!(
        validate_documents(&unf, &snapshot, &deltas).unwrap_err(),
        NrtmError::ConsistencyMismatch { .. },
    ));
}

#[test]
fn missing_delta_document_fails() {
    let unf = scenario_unf();
    let (snapshot, mut deltas) = scenario_documents();
    deltas.pop();
    assert_eq!(
        validate_documents(&unf, &snapshot, &deltas).unwrap_err(),
        NrtmError::DeltaCountMismatch { found_count: 1, expected_count: 2 },
    );
}

#[test]
fn validation_is_idempotent() {
    let unf = scenario_unf();
    let (snapshot, deltas) = scenario_documents();
    let first = validate_documents(&unf, &snapshot, &deltas);
    let second = validate_documents(&unf, &snapshot, &deltas);
    assert_eq!(first, second);
    let mut broken = scenario_unf();
    broken.deltas[0].version = 6;
    let first = validate_documents(&broken, &snapshot, &deltas);
    let second = validate_documents(&broken, &snapshot, &deltas);
    assert_eq!(first, second);
}

fn gzip(data: &[u8]) -> Vec<u8> {
    let mut enc = flate2::write::GzEncoder::new(Vec::new(), flate2::Compression::default());
    enc.write_all(data).unwrap();
    enc.finish().unwrap()
}

#[test]
fn full_detached_pipeline_over_bytes() {
    let session = "ca128382-78d9-41d1-8927-1ecef15275be";

    let snapshot_records = vec![
        format!(
            "{{\"nrtm_version\": 4, \"source\": \"EXAMPLE\", \"session_id\": \"{}\", \"version\": 3, \"type\": \"snapshot\"}}",
            session,
        ),
        String::from("{\"object\": \"route: 192.0.2.0/24\"}"),
    ];
    let snapshot_bytes = gzip(&frame(&snapshot_records));
    let snapshot_url = "https://example.net/snapshot.3.json.gz";
    let snapshot_hash = sha256::digest(&snapshot_bytes);

    let delta4_records = vec![
        format!(
            "{{\"nrtm_version\": 4, \"source\": \"EXAMPLE\", \"session_id\": \"{}\", \"version\": 4, \"type\": \"delta\"}}",
            session,
        ),
        String::from("{\"action\": \"add_modify\", \"object\": \"person: P\"}"),
    ];
    let delta4_bytes = frame(&delta4_records);
    let delta4_url = "https://example.net/delta.4.json";
    let delta4_hash = sha256::digest(&delta4_bytes);

    let unf_json = format!(
        "{{\"nrtm_version\": 4, \"source\": \"EXAMPLE\", \"session_id\": \"{}\", \"version\": 4, \
         \"timestamp\": \"2024-01-01T00:00:00Z\", \"type\": \"notification\", \
         \"snapshot\": {{\"version\": 3, \"url\": \"{}\", \"hash\": \"{}\"}}, \
         \"deltas\": [{{\"version\": 4, \"url\": \"{}\", \"hash\": \"{}\"}}]}}",
        session, snapshot_url, snapshot_hash, delta4_url, delta4_hash,
    );
    let unf_bytes: Vec<u8> = unf_json.clone().into_bytes();
    let now: i64 = 1_704_067_200 + 100;

    let sk = ed25519_dalek::SigningKey::from_bytes(&[42u8; 32]);
    let key_b64 = base64::engine::general_purpose::STANDARD.encode(sk.verifying_key().to_bytes());
    let key = parse_public_key(&key_b64).unwrap();
    let sig_b64: Vec<u8> = base64::engine::general_purpose::STANDARD
        .encode(sk.sign(&unf_bytes).to_bytes())
        .into_bytes();

    let unf = validate_unf_detached(&unf_bytes, &sig_b64, &key, "EXAMPLE", now).unwrap();
    assert_eq!(unf.version, 4);
    assert_eq!(unf.snapshot.version, 3);
    assert_eq!(unf.deltas.len(), 1);

    let snapshot = process_snapshot_response(snapshot_bytes, snapshot_url, &unf).unwrap();
    assert_eq!(snapshot.entries.len(), 1);
    let delta = process_delta_response(delta4_bytes.clone(), delta4_url, &unf, &unf.deltas[0]).unwrap();
    assert_eq!(delta.header.version, 4);
    assert!(validate_documents(&unf, &snapshot, &vec![delta]).is_ok());

    // a wrong expected dataset identifier is refused
    assert!(matches!(
        validate_unf_detached(&unf_bytes, &sig_b64, &key, "OTHER", now).unwrap_err(),
        NrtmError::SourceMismatch { .. },
    ));
    // a single flipped bit in the document is refused
    let mut tampered = unf_bytes.clone();
    tampered[40] ^= 0x01;
    assert_eq!(
        validate_unf_detached(&tampered, &sig_b64, &key, "EXAMPLE", now).unwrap_err(),
        NrtmError::AuthenticitySignature,
    );
    // a tampered delta is refused by the integrity check
    let mut bad_delta = delta4_bytes.clone();
    bad_delta[3] ^= 0x01;
    assert!(matches!(
        process_delta_response(bad_delta, delta4_url, &unf, &unf.deltas[0]).unwrap_err(),
        NrtmError::Integrity { .. },
    ));
}

#[test]
fn full_envelope_pipeline_over_bytes() {
    let session = "ca128382-78d9-41d1-8927-1ecef15275be";
    let unf_json = format!(
        "{{\"nrtm_version\": 4, \"source\": \"EXAMPLE\", \"session_id\": \"{}\", \"version\": 3, \
         \"timestamp\": \"2024-01-01T00:00:00Z\", \"type\": \"notification\", \
         \"snapshot\": {{\"version\": 3, \"url\": \"https://example.net/s.json\", \"hash\": \"aa\"}}, \
         \"deltas\": []}}",
        session,
    );
    let now: i64 = 1_704_067_200 + 100;

    let alg = josekit::jws::alg::ecdsa::EcdsaJwsAlgorithm::Es256;
    let key_pair = alg.generate_key_pair().unwrap();
    let public_pem = String::from_utf8(josekit::jwk::KeyPair::to_pem_public_key(&key_pair)).unwrap();
    let signer = alg.signer_from_pem(josekit::jwk::KeyPair::to_pem_private_key(&key_pair)).unwrap();
    let header = josekit::jws::JwsHeader::new();
    let envelope = josekit::jws::serialize_compact(unf_json.as_bytes(), &header, &signer).unwrap();

    let unf = validate_unf_envelope(envelope.clone().into_bytes(), &public_pem, "EXAMPLE", now)
        .unwrap();
    assert_eq!(unf.version, 3);

    let mut broken = envelope.into_bytes();
    let dot = broken.iter().position(|b| *b == b'.').unwrap();
    broken[dot + 1] ^= 0x01;
    assert_eq!(
        validate_unf_envelope(broken, &public_pem, "EXAMPLE", now).unwrap_err(),
        NrtmError::AuthenticityEnvelope,
    );
}

fn unf_payload(next_signing_key_field: &str) -> Vec<u8> {
    format!(
        "{{\"nrtm_version\": 4, \"source\": \"EXAMPLE\", \"session_id\": \"ca128382-78d9-41d1-8927-1ecef15275be\", \"version\": 3, \
         \"timestamp\": \"2024-01-01T00:00:00Z\", \"type\": \"notification\", \
         \"snapshot\": {{\"version\": 3, \"url\": \"https://example.net/s.json\", \"hash\": \"aa\"}}, \
         \"deltas\": []{}}}",
        next_signing_key_field,
    )
    .into_bytes()
}

#[test]
fn next_signing_key_is_optional() {
    let now: i64 = 1_704_067_200 + 100;
    let absent = validate_unf_payload(&unf_payload(""), "EXAMPLE", now).unwrap();
    assert_eq!(absent.next_signing_key, None);
    let null = validate_unf_payload(&unf_payload(", \"next_signing_key\": null"), "EXAMPLE", now)
        .unwrap();
    assert_eq!(null.next_signing_key, None);
    let given = validate_unf_payload(&unf_payload(", \"next_signing_key\": \"anchor\""), "EXAMPLE", now)
        .unwrap();
    assert_eq!(given.next_signing_key, Some(String::from("anchor")));
    assert!(validate_unf_payload(&unf_payload(", \"next_signing_key\": 7"), "EXAMPLE", now).is_err());
    assert!(validate_unf_payload(&unf_payload(", \"unexpected\": 1"), "EXAMPLE", now).is_err());
}
