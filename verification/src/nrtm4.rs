//! The verification pipeline's compute steps: authenticate and validate the
//! notification document, then validate the snapshot and every delta
//! against it, surfacing the first failure. Fetching is the caller's
//! affair: each step here takes the fetched bytes and decides.

use vstd::prelude::*;
use vstd::utf8::valid_utf8;
use vstd::utf8::decode_utf8;
use crate::errors::NrtmError;
use crate::crypto::PublicKey;
use crate::crypto::check_expected_hash;
use crate::crypto::check_signature;
use crate::crypto::open_envelope;
use crate::crypto::b64_decode_of;
use crate::crypto::ed25519_sig_ok;
use crate::crypto::jws_es256_payload;
use crate::crypto::sha256_hex_of;
use crate::jsonseq::JSONSequenceIterator;
use crate::jsonseq::gunzip;
use crate::jsonseq::gunzip_of;
use crate::jsonseq::jsonseq_from_bytes;
use crate::jsonseq::spec_records;
use crate::nrtm4_types::HeaderView;
use crate::nrtm4_types::NRTM4DeltaFile;
use crate::nrtm4_types::NRTM4FileReference;
use crate::nrtm4_types::NRTM4SnapshotFile;
use crate::nrtm4_types::NRTM4UpdateNotificationFile;
use crate::nrtm4_types::UnfView;
use crate::nrtm4_types::extract_unf;
use crate::nrtm4_types::spec_consistency_error;
use crate::nrtm4_types::spec_delta_consistent;
use crate::nrtm4_types::spec_delta_entries;
use crate::nrtm4_types::spec_delta_header_of;
use crate::nrtm4_types::spec_extract_unf;
use crate::nrtm4_types::spec_snapshot_consistent;
use crate::nrtm4_types::spec_snapshot_entries;
use crate::nrtm4_types::spec_snapshot_header_of;
use crate::nrtm4_types::spec_unf_valid;
use crate::nrtm4_types::dentries_view;
use crate::nrtm4_types::sentries_view;
use crate::validators::spec_ends_with;
use crate::validators::str_ends_with;
use crate::json::parse_document;
use crate::json::str_eq;

verus! {

/// The notification a payload yields at verification time `now` for the
/// expected dataset: it must parse, fit the schema, satisfy the
/// schema-level rules, and name the expected dataset.
pub open spec fn spec_unf_accepted(payload: Seq<u8>, expected_source: Seq<char>, now: int) -> Option<
    UnfView,
> {
    match crate::json::spec_parse_document(payload) {
        None => None,
        Some(ms) => match spec_extract_unf(ms) {
            None => None,
            Some(u) => {
                if spec_unf_valid(u, now) && u.source == expected_source {
                    Some(u)
                } else {
                    None
                }
            },
        },
    }
}

/// Parses and validates an already-authenticated notification payload, and
/// holds its dataset identifier against the expected one, exactly.
pub fn validate_unf_payload(payload: &Vec<u8>, expected_source: &str, now: i64) -> (r: Result<
    NRTM4UpdateNotificationFile,
    NrtmError,
>)
    ensures
        r is Ok <==> spec_unf_accepted(payload@, expected_source@, now as int) is Some,
        r is Ok ==> r.unwrap()@ == spec_unf_accepted(payload@, expected_source@, now as int).unwrap(),
{
    let ms = match parse_document(payload) {
        Ok(ms) => ms,
        Err(e) => {
            return Err(e);
        },
    };
    let unf = match extract_unf(&ms) {
        Ok(u) => u,
        Err(e) => {
            return Err(e);
        },
    };
    match crate::nrtm4_types::validate_unf(&unf, now) {
        Ok(_) => {},
        Err(e) => {
            return Err(e);
        },
    }
    if !str_eq(unf.source.as_str(), expected_source) {
        return Err(
            NrtmError::SourceMismatch {
                found: unf.source.as_str().to_owned(),
                expected: expected_source.to_owned(),
            },
        );
    }
    Ok(unf)
}

/// The notification accepted under the detached-signature scheme: the
/// base64 signature text must decode to a valid signature over the raw
/// document bytes, and the payload must then be accepted.
pub open spec fn spec_unf_accepted_detached(
    response: Seq<u8>,
    sig_text: Seq<u8>,
    key: Seq<u8>,
    expected_source: Seq<char>,
    now: int,
) -> Option<UnfView> {
    if b64_decode_of(sig_text) is Some && b64_decode_of(sig_text).unwrap().len() == 64
        && ed25519_sig_ok(key, response, b64_decode_of(sig_text).unwrap()) {
        spec_unf_accepted(response, expected_source, now)
    } else {
        None
    }
}

/// The detached-signature scheme: verifies the fetched signature over the
/// raw notification bytes under the trust anchor, then parses and
/// validates the document. Verification failure exposes no document.
pub fn validate_unf_detached(
    response_bytes: &Vec<u8>,
    signature_base64: &Vec<u8>,
    public_key: &PublicKey,
    expected_source: &str,
    now: i64,
) -> (r: Result<NRTM4UpdateNotificationFile, NrtmError>)
    requires
        public_key.wf(),
    ensures
        r is Ok <==> spec_unf_accepted_detached(
            response_bytes@,
            signature_base64@,
            public_key.key_bytes(),
            expected_source@,
            now as int,
        ) is Some,
        r is Ok ==> r.unwrap()@ == spec_unf_accepted_detached(
            response_bytes@,
            signature_base64@,
            public_key.key_bytes(),
            expected_source@,
            now as int,
        ).unwrap(),
{
    match check_signature(public_key, response_bytes, signature_base64) {
        Ok(_) => {},
        Err(e) => {
            return Err(e);
        },
    }
    validate_unf_payload(response_bytes, expected_source, now)
}

/// The notification accepted under the embedded-envelope scheme: the
/// envelope must open under the PEM key, and the recovered payload must
/// then be accepted.
pub open spec fn spec_unf_accepted_envelope(
    response: Seq<u8>,
    pem_key: Seq<char>,
    expected_source: Seq<char>,
    now: int,
) -> Option<UnfView> {
    match jws_es256_payload(response, pem_key) {
        None => None,
        Some(payload) => spec_unf_accepted(payload, expected_source, now),
    }
}

/// The embedded-envelope scheme: recovers the payload only if the
/// envelope's signature is valid under the PEM public key, then parses and
/// validates the recovered document.
pub fn validate_unf_envelope(
    response_bytes: Vec<u8>,
    pem_key: &str,
    expected_source: &str,
    now: i64,
) -> (r: Result<NRTM4UpdateNotificationFile, NrtmError>)
    ensures
        r is Ok <==> spec_unf_accepted_envelope(
            response_bytes@,
            pem_key@,
            expected_source@,
            now as int,
        ) is Some,
        r is Ok ==> r.unwrap()@ == spec_unf_accepted_envelope(
            response_bytes@,
            pem_key@,
            expected_source@,
            now as int,
        ).unwrap(),
{
    let payload = match open_envelope(response_bytes, pem_key) {
        Ok(p) => p,
        Err(e) => {
            return Err(e);
        },
    };
    validate_unf_payload(&payload, expected_source, now)
}

/// The transfer representation, inflated when the locator names a
/// compressed one; the hash check happens before this, on the bytes as
/// transferred.
pub open spec fn spec_prepared(data: Seq<u8>, url: Seq<char>) -> Option<Seq<u8>> {
    if spec_ends_with(url, ".gz"@) {
        gunzip_of(data)
    } else {
        Some(data)
    }
}

/// Inflates the fetched bytes when the locator names a compressed
/// representation, inferred from its suffix.
pub fn prepare_payload(data: Vec<u8>, url: &str) -> (r: Result<Vec<u8>, NrtmError>)
    ensures
        r is Ok <==> spec_prepared(data@, url@) is Some,
        r is Ok ==> r.unwrap()@ == spec_prepared(data@, url@).unwrap(),
        r is Err ==> r->Err_0 == NrtmError::Decompression,
{
    if str_ends_with(url, ".gz") {
        gunzip(data)
    } else {
        Ok(data)
    }
}

/// The snapshot document a framed payload yields: a header record fitting
/// the snapshot header schema, then entry records each fitting the entry
/// schema.
pub open spec fn spec_snapshot_file_of(data: Seq<u8>) -> Option<(HeaderView, Seq<Seq<char>>)> {
    let recs = spec_records(data);
    if recs.len() == 0 || !valid_utf8(recs[0]) {
        None
    } else {
        match spec_snapshot_header_of(decode_utf8(recs[0])) {
            None => None,
            Some(h) => match spec_snapshot_entries(recs.drop_first()) {
                None => None,
                Some(es) => Some((h, es)),
            },
        }
    }
}

/// The delta document a framed payload yields.
pub open spec fn spec_delta_file_of(data: Seq<u8>) -> Option<(
    HeaderView,
    Seq<crate::nrtm4_types::DeltaEntryView>,
)> {
    let recs = spec_records(data);
    if recs.len() == 0 || !valid_utf8(recs[0]) {
        None
    } else {
        match spec_delta_header_of(decode_utf8(recs[0])) {
            None => None,
            Some(h) => match spec_delta_entries(recs.drop_first()) {
                None => None,
                Some(es) => Some((h, es)),
            },
        }
    }
}

/// Frames and parses a snapshot payload, exactly as the schema admits it.
pub fn parse_snapshot_bytes(data: Vec<u8>) -> (r: Result<NRTM4SnapshotFile, NrtmError>)
    ensures
        r is Ok <==> spec_snapshot_file_of(data@) is Some,
        r is Ok ==> r.unwrap().header@ == spec_snapshot_file_of(data@).unwrap().0 && sentries_view(
            r.unwrap().entries@,
        ) == spec_snapshot_file_of(data@).unwrap().1,
{
    let (header_content, mut records) = match jsonseq_from_bytes(data) {
        Ok(p) => p,
        Err(e) => {
            return Err(e);
        },
    };
    NRTM4SnapshotFile::from_header_and_records(header_content, &mut records)
}

/// Frames and parses a delta payload, exactly as the schema admits it.
pub fn parse_delta_bytes(data: Vec<u8>) -> (r: Result<NRTM4DeltaFile, NrtmError>)
    ensures
        r is Ok <==> spec_delta_file_of(data@) is Some,
        r is Ok ==> r.unwrap().header@ == spec_delta_file_of(data@).unwrap().0 && dentries_view(
            r.unwrap().entries@,
        ) == spec_delta_file_of(data@).unwrap().1,
{
    let (header_content, mut records) = match jsonseq_from_bytes(data) {
        Ok(p) => p,
        Err(e) => {
            return Err(e);
        },
    };
    NRTM4DeltaFile::from_header_and_records(header_content, &mut records)
}

/// A fetched snapshot response is accepted for the notification exactly
/// when its bytes carry the referenced hash, inflate if compressed, parse
/// as a snapshot document, and match the notification's source, session
/// and declared snapshot version.
pub open spec fn spec_snapshot_response_ok(data: Seq<u8>, url: Seq<char>, u: UnfView) -> bool {
    &&& crate::validators::seq_ci_equal(u.snapshot.hash, sha256_hex_of(data))
    &&& spec_prepared(data, url) is Some
    &&& spec_snapshot_file_of(spec_prepared(data, url).unwrap()) is Some
    &&& spec_snapshot_consistent(spec_snapshot_file_of(spec_prepared(data, url).unwrap()).unwrap().0, u)
}

/// Validates one fetched snapshot response end to end: integrity against
/// the referenced hash, decompression, framing and schema, then the
/// cross-document consistency rules. Fail-fast: the first failing rule
/// decides the error.
pub fn process_snapshot_response(
    data: Vec<u8>,
    url: &str,
    unf: &NRTM4UpdateNotificationFile,
) -> (r: Result<NRTM4SnapshotFile, NrtmError>)
    ensures
        r is Ok <==> spec_snapshot_response_ok(data@, url@, unf@),
        r is Ok ==> r.unwrap().header@ == spec_snapshot_file_of(
            spec_prepared(data@, url@).unwrap(),
        ).unwrap().0,
        r is Ok ==> sentries_view(r.unwrap().entries@) == spec_snapshot_file_of(
            spec_prepared(data@, url@).unwrap(),
        ).unwrap().1,
{
    match check_expected_hash(&data, Some(&unf.snapshot.hash), url) {
        Ok(_) => {},
        Err(e) => {
            return Err(e);
        },
    }
    let payload = match prepare_payload(data, url) {
        Ok(p) => p,
        Err(e) => {
            return Err(e);
        },
    };
    let file = match parse_snapshot_bytes(payload) {
        Ok(f) => f,
        Err(e) => {
            return Err(e);
        },
    };
    match file.validate_unf_consistency(unf) {
        Ok(_) => Ok(file),
        Err(e) => Err(e),
    }
}

/// A fetched delta response is accepted for the notification and the
/// reference that named it exactly when its bytes carry the reference's
/// hash, inflate if compressed, parse as a delta document, and match the
/// notification's source and session and the reference's version.
pub open spec fn spec_delta_response_ok(
    data: Seq<u8>,
    url: Seq<char>,
    u: UnfView,
    reference: crate::nrtm4_types::FileReferenceView,
) -> bool {
    &&& crate::validators::seq_ci_equal(reference.hash, sha256_hex_of(data))
    &&& spec_prepared(data, url) is Some
    &&& spec_delta_file_of(spec_prepared(data, url).unwrap()) is Some
    &&& spec_delta_consistent(
        spec_delta_file_of(spec_prepared(data, url).unwrap()).unwrap().0,
        u,
        reference.version,
    )
}

/// Validates one fetched delta response end to end against the reference
/// that named it.
pub fn process_delta_response(
    data: Vec<u8>,
    url: &str,
    unf: &NRTM4UpdateNotificationFile,
    reference: &NRTM4FileReference,
) -> (r: Result<NRTM4DeltaFile, NrtmError>)
    ensures
        r is Ok <==> spec_delta_response_ok(data@, url@, unf@, reference@),
        r is Ok ==> r.unwrap().header@ == spec_delta_file_of(
            spec_prepared(data@, url@).unwrap(),
        ).unwrap().0,
        r is Ok ==> dentries_view(r.unwrap().entries@) == spec_delta_file_of(
            spec_prepared(data@, url@).unwrap(),
        ).unwrap().1,
{
    match check_expected_hash(&data, Some(&reference.hash), url) {
        Ok(_) => {},
        Err(e) => {
            return Err(e);
        },
    }
    let payload = match prepare_payload(data, url) {
        Ok(p) => p,
        Err(e) => {
            return Err(e);
        },
    };
    let file = match parse_delta_bytes(payload) {
        Ok(f) => f,
        Err(e) => {
            return Err(e);
        },
    };
    match file.validate_unf_consistency(unf, reference.version) {
        Ok(_) => Ok(file),
        Err(e) => Err(e),
    }
}

/// A whole set of documents is consistent exactly when the snapshot
/// matches the notification, there is one delta document per reference,
/// and each matches the notification and its own reference in order.
pub open spec fn spec_documents_consistent(u: UnfView, sh: HeaderView, dhs: Seq<HeaderView>) -> bool {
    &&& spec_snapshot_consistent(sh, u)
    &&& dhs.len() == u.deltas.len()
    &&& forall|i: int|
        0 <= i < dhs.len() ==> spec_delta_consistent(#[trigger] dhs[i], u, u.deltas[i].version)
}

/// The headers of a list of delta documents.
pub open spec fn delta_headers(ds: Seq<NRTM4DeltaFile>) -> Seq<HeaderView> {
    ds.map_values(|d: NRTM4DeltaFile| d.header@)
}

/// Validates a complete set of already-parsed documents against the
/// notification, in reference order, surfacing the first failure.
pub fn validate_documents(
    unf: &NRTM4UpdateNotificationFile,
    snapshot: &NRTM4SnapshotFile,
    deltas: &Vec<NRTM4DeltaFile>,
) -> (r: Result<(), NrtmError>)
    ensures
        r is Ok <==> spec_documents_consistent(unf@, snapshot.header@, delta_headers(deltas@)),
        !spec_snapshot_consistent(snapshot.header@, unf@) ==> r is Err && spec_consistency_error(
            r->Err_0,
            snapshot.header@,
            unf@,
            unf@.snapshot.version,
            "Snapshot"@,
        ),
        spec_snapshot_consistent(snapshot.header@, unf@) && deltas@.len() != unf@.deltas.len()
            ==> (r matches Err(NrtmError::DeltaCountMismatch { found_count, expected_count })
            && found_count == deltas@.len() && expected_count == unf@.deltas.len()),
        spec_snapshot_consistent(snapshot.header@, unf@) && deltas@.len() == unf@.deltas.len()
            && r is Err ==> exists|i: int|
            0 <= i < deltas@.len() && !(#[trigger] spec_delta_consistent(
                delta_headers(deltas@)[i],
                unf@,
                unf@.deltas[i].version,
            )) && (forall|j: int|
                0 <= j < i ==> #[trigger] spec_delta_consistent(
                    delta_headers(deltas@)[j],
                    unf@,
                    unf@.deltas[j].version,
                )) && spec_consistency_error(
                r->Err_0,
                delta_headers(deltas@)[i],
                unf@,
                unf@.deltas[i].version,
                "Delta"@,
            ),
{
    match snapshot.validate_unf_consistency(unf) {
        Ok(_) => {},
        Err(e) => {
            return Err(e);
        },
    }
    if deltas.len() != unf.deltas.len() {
        return Err(
            NrtmError::DeltaCountMismatch {
                found_count: deltas.len(),
                expected_count: unf.deltas.len(),
            },
        );
    }
    let mut i: usize = 0;
    while i < deltas.len()
        invariant
            i <= deltas@.len(),
            deltas@.len() == unf.deltas@.len(),
            spec_snapshot_consistent(snapshot.header@, unf@),
            forall|j: int|
                0 <= j < i ==> spec_delta_consistent(
                    #[trigger] delta_headers(deltas@)[j],
                    unf@,
                    unf@.deltas[j].version,
                ),
        decreases deltas@.len() - i,
    {
        match deltas[i].validate_unf_consistency(unf, unf.deltas[i].version) {
            Ok(_) => {},
            Err(e) => {
                proof {
                    assert(delta_headers(deltas@)[i as int] == deltas@[i as int].header@);
                    assert(!spec_delta_consistent(
                        delta_headers(deltas@)[i as int],
                        unf@,
                        unf@.deltas[i as int].version,
                    ));
                }
                return Err(e);
            },
        }
        i = i + 1;
    }
    Ok(())
}

/// Idempotence (law): the verdict on a set of documents is a function of
/// the documents alone, so validating the same immutable documents a
/// second time yields the same verdict as the first.
pub proof fn lemma_validation_idempotent(
    u: UnfView,
    sh: HeaderView,
    dhs: Seq<HeaderView>,
    first_verdict: bool,
    second_verdict: bool,
)
    requires
        first_verdict == spec_documents_consistent(u, sh, dhs),
        second_verdict == spec_documents_consistent(u, sh, dhs),
    ensures
        first_verdict == second_verdict,
{
}

} // verus!
