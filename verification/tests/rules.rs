use nrtm4_validator::errors::NrtmError;
use nrtm4_validator::nrtm4_types::NRTM4FileReference;
use nrtm4_validator::nrtm4_types::NRTM4UpdateNotificationFile;
use nrtm4_validator::nrtm4_types::validate_unf;
use nrtm4_validator::timestamp::is_fresh;
use nrtm4_validator::timestamp::parse_rfc3339;
use nrtm4_validator::crypto::derive_signature_url;
use nrtm4_validator::validators::is_contiguous_and_ordered;
use nrtm4_validator::validators::parse_validate_unf_url;
use nrtm4_validator::validators::replace_filename_in_url;
use nrtm4_validator::validators::validate_pem;
use nrtm4_validator::validators::validate_source;
use nrtm4_validator::validators::validate_url;
use nrtm4_validator::validators::validate_uuid;

fn reference(version: u32) -> NRTM4FileReference {
    NRTM4FileReference {
        version,
        url: format!("https://example.net/f-{}.json", version),
        hash: String::from("00"),
    }
}

fn notification(snapshot_version: u32, version: u32, delta_versions: &[u32]) -> NRTM4UpdateNotificationFile {
    NRTM4UpdateNotificationFile {
        nrtm_version: 4,
        source: String::from("EXAMPLE"),
        session_id: String::from("ca128382-78d9-41d1-8927-1ecef15275be"),
        version,
        timestamp: 1_700_000_000,
        file_type: String::from("notification"),
        snapshot: reference(snapshot_version),
        deltas: delta_versions.iter().map(|v| reference(*v)).collect(),
        next_signing_key: None,
    }
}

const NOW: i64 = 1_700_000_100;

#[test]
fn contiguous_runs() {
    assert!(is_contiguous_and_ordered(&[]));
    assert!(is_contiguous_and_ordered(&[5]));
    assert!(is_contiguous_and_ordered(&[1, 2, 3]));
    assert!(!is_contiguous_and_ordered(&[1, 3]));
    assert!(!is_contiguous_and_ordered(&[2, 1]));
    assert!(!is_contiguous_and_ordered(&[2, 2]));
}

#[test]
fn contiguity_acceptance() {
    // snapshot v3, counter v5: the accepted runs end at or before the counter
    assert!(validate_unf(&notification(3, 5, &[4, 5]), NOW).is_ok());
    assert!(validate_unf(&notification(3, 5, &[4]), NOW).is_ok());
    assert!(validate_unf(&notification(3, 5, &[]), NOW).is_ok());
    assert!(validate_unf(&notification(3, 5, &[3, 4, 5]), NOW).is_ok());
    assert!(validate_unf(&notification(3, 3, &[]), NOW).is_ok());
}

#[test]
fn contiguity_rejections() {
    assert_eq!(
        validate_unf(&notification(3, 5, &[4, 6]), NOW).unwrap_err(),
        NrtmError::NonContiguousDeltas,
    );
    assert_eq!(
        validate_unf(&notification(3, 5, &[5]), NOW).unwrap_err(),
        NrtmError::CoverageGap { snapshot_version: 3, first_delta_version: 5 },
    );
    assert_eq!(
        validate_unf(&notification(3, 5, &[4, 5, 6]), NOW).unwrap_err(),
        NrtmError::DeltaVersionTooHigh { delta_version: 6, version: 5 },
    );
    assert_eq!(
        validate_unf(&notification(6, 5, &[]), NOW).unwrap_err(),
        NrtmError::SnapshotVersionTooHigh { snapshot_version: 6, version: 5 },
    );
}

#[test]
fn wrong_protocol_version_is_rejected() {
    let mut unf = notification(3, 5, &[4, 5]);
    unf.nrtm_version = 3;
    assert_eq!(validate_unf(&unf, NOW).unwrap_err(), NrtmError::WrongProtocolVersion { found: 3 });
}

#[test]
fn source_grammar() {
    assert!(validate_source("EXAMPLE"));
    assert!(validate_source("a"));
    assert!(validate_source("Ex-1_b"));
    assert!(!validate_source(""));
    assert!(!validate_source("9ab"));
    assert!(!validate_source("ab-"));
    assert!(!validate_source("ab_"));
    assert!(!validate_source("a b"));
    let mut unf = notification(3, 5, &[]);
    unf.source = String::from("BAD-");
    assert_eq!(validate_unf(&unf, NOW).unwrap_err(), NrtmError::BadSource);
}

#[test]
fn uuid_format() {
    assert!(validate_uuid("ca128382-78d9-41d1-8927-1ecef15275be"));
    assert!(validate_uuid("CA128382-78D9-41D1-8927-1ECEF15275BE"));
    assert!(!validate_uuid("ca12838278d941d189271ecef15275be"));
    assert!(!validate_uuid("ca128382-78d9-41d1-8927-1ecef15275bg"));
    assert!(!validate_uuid(""));
    let mut unf = notification(3, 5, &[]);
    unf.session_id = String::from("S1");
    assert_eq!(validate_unf(&unf, NOW).unwrap_err(), NrtmError::BadSessionId);
}

#[test]
fn secure_scheme_is_required() {
    assert!(validate_url("https://example.net/x"));
    assert!(validate_url("HTTPS://example.net/x"));
    assert!(!validate_url("http://example.net/x"));
    assert!(!validate_url("ftp://example.net/x"));
    let mut unf = notification(3, 5, &[]);
    unf.snapshot.url = String::from("http://example.net/snap.json");
    assert_eq!(
        validate_unf(&unf, NOW).unwrap_err(),
        NrtmError::BadUrlScheme { url: String::from("http://example.net/snap.json") },
    );
}

#[test]
fn freshness_boundary() {
    let ts: i64 = 1_700_000_000;
    assert!(is_fresh(ts, ts + 86_399));
    assert!(is_fresh(ts, ts + 86_400));
    assert!(!is_fresh(ts, ts + 86_401));
    assert!(is_fresh(ts, ts - 50));
    let unf = notification(3, 5, &[4, 5]);
    assert!(validate_unf(&unf, unf.timestamp + 86_399).is_ok());
    assert_eq!(
        validate_unf(&unf, unf.timestamp + 86_401).unwrap_err(),
        NrtmError::StaleNotification { age_seconds: 86_401 },
    );
}

#[test]
fn timestamps_parse_to_unix_seconds() {
    assert_eq!(parse_rfc3339("2024-01-01T00:00:00Z"), Some(1_704_067_200));
    assert_eq!(parse_rfc3339("1970-01-01T00:00:00Z"), Some(0));
    assert_eq!(parse_rfc3339("1969-12-31T23:59:59Z"), Some(-1));
    assert_eq!(parse_rfc3339("2024-06-15T12:30:45Z"), Some(1_718_454_645));
    assert_eq!(parse_rfc3339("2024-06-15T12:30:45.123Z"), Some(1_718_454_645));
    assert_eq!(parse_rfc3339("2024-06-15T14:30:45+02:00"), Some(1_718_454_645));
    assert_eq!(parse_rfc3339("2024-06-15T10:30:45-02:00"), Some(1_718_454_645));
    assert_eq!(parse_rfc3339("2024-02-29T00:00:00Z"), Some(1_709_164_800));
    assert_eq!(parse_rfc3339("2024-06-15t12:30:45Z"), Some(1_718_454_645));
}

#[test]
fn bad_timestamps_are_rejected() {
    assert_eq!(parse_rfc3339("2023-02-29T00:00:00Z"), None);
    assert_eq!(parse_rfc3339("2024-13-01T00:00:00Z"), None);
    assert_eq!(parse_rfc3339("2024-04-31T00:00:00Z"), None);
    assert_eq!(parse_rfc3339("2024-01-01T24:00:00Z"), None);
    assert_eq!(parse_rfc3339("2024-01-01 00:00:00Z"), None);
    assert_eq!(parse_rfc3339("2024-01-01T00:00:00"), None);
    assert_eq!(parse_rfc3339("not a date"), None);
}

#[test]
fn notification_locator_rules() {
    let ok = parse_validate_unf_url(
        "https://example.net/source/update-notification-file.jose",
        "update-notification-file.jose",
    );
    assert_eq!(ok.unwrap(), "https://example.net/source/update-notification-file.jose");
    assert_eq!(
        parse_validate_unf_url("https://example.net/other.json", "update-notification-file.jose")
            .unwrap_err(),
        NrtmError::BadNotificationUrl,
    );
    assert_eq!(
        parse_validate_unf_url(
            "http://example.net/update-notification-file.jose",
            "update-notification-file.jose",
        )
        .unwrap_err(),
        NrtmError::BadNotificationUrl,
    );
}

#[test]
fn authority_is_no_path_segment() {
    assert_eq!(
        parse_validate_unf_url(
            "https://update-notification-file.jose",
            "update-notification-file.jose",
        )
        .unwrap_err(),
        NrtmError::BadNotificationUrl,
    );
    assert_eq!(
        parse_validate_unf_url(
            "https:///update-notification-file.jose",
            "update-notification-file.jose",
        )
        .unwrap_err(),
        NrtmError::BadNotificationUrl,
    );
    let at_root = parse_validate_unf_url(
        "https://example.net/update-notification-file.jose",
        "update-notification-file.jose",
    );
    assert!(at_root.is_ok());
}

#[test]
fn insecure_delta_locator_names_the_first_offender() {
    let mut unf = notification(3, 5, &[4, 5]);
    unf.deltas[1].url = String::from("http://example.net/f-5.json");
    assert_eq!(
        validate_unf(&unf, NOW).unwrap_err(),
        NrtmError::BadUrlScheme { url: String::from("http://example.net/f-5.json") },
    );
}

#[test]
fn delta_version_below_one_is_rejected() {
    let mut unf = notification(0, 1, &[0, 1]);
    unf.deltas[0].version = 0;
    assert_eq!(
        validate_unf(&unf, NOW).unwrap_err(),
        NrtmError::WrongFieldType { field: String::from("version") },
    );
}

#[test]
fn reference_resolution_joins_against_base_path() {
    let base = "https://example.net/source/update-notification-file.json";
    assert_eq!(
        replace_filename_in_url(base, "snapshot.2.json"),
        "https://example.net/source/snapshot.2.json",
    );
    assert_eq!(
        replace_filename_in_url(base, "https://cdn.example.net/snapshot.2.json"),
        "https://cdn.example.net/snapshot.2.json",
    );
}

#[test]
fn signature_locator_convention() {
    let body = b"hello".to_vec();
    let digest = "2cf24dba5fb0a30e26e83b2ac5b9e29e1b161e5c1fa7425e73043362938b9824";
    let url = "https://example.net/source/update-notification-file.json";
    assert_eq!(
        derive_signature_url(url, &body, "nrtm.db.example.org").unwrap(),
        format!(
            "https://example.net/source/update-notification-file-signature-{}.sig",
            digest,
        ),
    );
    let carved = "https://nrtm.db.example.org/x/update-notification-file.json";
    assert_eq!(
        derive_signature_url(carved, &body, "nrtm.db.example.org").unwrap(),
        "https://nrtm.db.example.org/x/update-notification-file.json.sig",
    );
    assert!(
        derive_signature_url("https://example.net/other.json", &body, "nrtm.db.example.org")
            .is_none()
    );
}

#[test]
fn pem_validation() {
    let block = pem::Pem::new("PUBLIC KEY", vec![1u8, 2, 3]);
    let text = pem::encode(&block);
    assert_eq!(validate_pem(&text).unwrap(), text);
    let wrong = pem::Pem::new("CERTIFICATE", vec![1u8, 2, 3]);
    let wrong_text = pem::encode(&wrong);
    assert_eq!(validate_pem(&wrong_text).unwrap_err(), NrtmError::BadPem);
    assert_eq!(validate_pem("not pem").unwrap_err(), NrtmError::BadPem);
}
