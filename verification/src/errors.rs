//! Error taxonomy of the validation pipeline. Every failure is terminal for
//! the current run and carries enough context to diagnose without re-running.

use vstd::prelude::*;

verus! {

/// A single descriptive error for any failure of the pipeline.
///
/// Categories: transport, integrity (content hash), authenticity (signature
/// or envelope), framing, schema, and cross-document consistency.
#[derive(Debug, Clone, PartialEq, Eq)]
pub enum NrtmError {
    /// Network or HTTP failure while fetching a resource.
    Transport { url: String },
    /// Content hash of the received bytes differs from the referenced hash.
    Integrity { url: String, expected_hash: String, actual_hash: String },
    /// The supplied trust anchor could not be decoded as a public key.
    AuthenticityKey,
    /// The detached signature was malformed or cryptographically rejected.
    AuthenticitySignature,
    /// The signed envelope was malformed or its signature was rejected.
    AuthenticityEnvelope,
    /// The framed stream held no header record.
    NoHeader,
    /// A record's bytes were not valid UTF-8.
    InvalidUtf8,
    /// The gzip stream could not be inflated.
    Decompression,
    /// A record was not a well-formed document.
    JsonSyntax,
    /// A document held a field outside its schema.
    UnknownField { field: String },
    /// A document repeated a field.
    DuplicateField { field: String },
    /// A document lacked a required field.
    MissingField { field: String },
    /// A field held a value of the wrong shape.
    WrongFieldType { field: String },
    /// The protocol version field was not the one supported version.
    WrongProtocolVersion { found: u64 },
    /// The dataset identifier failed the restricted identifier grammar.
    BadSource,
    /// The session identifier was not a well-formed unique identifier.
    BadSessionId,
    /// The issuance timestamp could not be parsed.
    BadTimestamp,
    /// A delta entry carried an unknown tag.
    UnknownEntryTag,
    /// A resource locator did not use the secure transport scheme.
    BadUrlScheme { url: String },
    /// The notification locator was malformed or lacked the well-known filename.
    BadNotificationUrl,
    /// The trust anchor was not a public-key PEM block.
    BadPem,
    /// The notification's snapshot version exceeds its own version counter.
    SnapshotVersionTooHigh { snapshot_version: u32, version: u32 },
    /// The delta versions do not form a contiguous ascending run.
    NonContiguousDeltas,
    /// The highest delta version exceeds the notification's version counter.
    DeltaVersionTooHigh { delta_version: u32, version: u32 },
    /// The lowest delta version leaves a gap above the snapshot version.
    CoverageGap { snapshot_version: u32, first_delta_version: u32 },
    /// The notification's issuance timestamp is more than a day in the past.
    StaleNotification { age_seconds: i64 },
    /// The notification names a dataset other than the expected one.
    SourceMismatch { found: String, expected: String },
    /// A snapshot or delta header field differs from the notification's.
    ConsistencyMismatch { field: String, file: String, found: String, expected: String },
    /// A snapshot or delta header version differs from the referenced version.
    VersionMismatch { file: String, found_version: u32, expected_version: u32 },
    /// Fewer or more delta documents than the notification references.
    DeltaCountMismatch { found_count: usize, expected_count: usize },
}

} // verus!
