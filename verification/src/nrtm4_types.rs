//! The protocol's documents: file references, snapshot and delta headers
//! and entries, and the update notification document, together with their
//! schema extraction from parsed records, schema validation, and the
//! cross-document consistency rules.

use vstd::prelude::*;
use crate::errors::NrtmError;
use crate::json::DocValue;
use crate::json::DocValueView;
use crate::json::JsonValue;
use crate::json::JsonView;
use crate::json::doc_view;
use crate::json::dv_view;
use crate::json::jv_view;
use crate::json::members_view;
use crate::json::str_eq;
use vstd::string::StringExecFns;

verus! {

/// A reference to a snapshot or delta resource: its version, its locator,
/// and the expected content hash of its transfer representation.
#[derive(Debug)]
pub struct NRTM4FileReference {
    pub version: u32,
    pub url: String,
    pub hash: String,
}

pub struct FileReferenceView {
    pub version: u32,
    pub url: Seq<char>,
    pub hash: Seq<char>,
}

impl View for NRTM4FileReference {
    type V = FileReferenceView;

    open spec fn view(&self) -> FileReferenceView {
        FileReferenceView { version: self.version, url: self.url@, hash: self.hash@ }
    }
}

/// The discriminant tag of a snapshot document's header.
#[derive(Debug)]
pub enum NRTM4SnapshotHeaderType {
    Snapshot,
}

/// The discriminant tag of a delta document's header.
#[derive(Debug)]
pub enum NRTM4DeltaHeaderType {
    Delta,
}

/// The header record of a snapshot document.
#[derive(Debug)]
pub struct NRTM4SnapshotHeader {
    pub nrtm_version: u8,
    pub source: String,
    pub session_id: String,
    pub version: u32,
    pub header_type: NRTM4SnapshotHeaderType,
}

pub struct HeaderView {
    pub nrtm_version: u8,
    pub source: Seq<char>,
    pub session_id: Seq<char>,
    pub version: u32,
}

impl View for NRTM4SnapshotHeader {
    type V = HeaderView;

    open spec fn view(&self) -> HeaderView {
        HeaderView {
            nrtm_version: self.nrtm_version,
            source: self.source@,
            session_id: self.session_id@,
            version: self.version,
        }
    }
}

/// The header record of a delta document.
#[derive(Debug)]
pub struct NRTM4DeltaHeader {
    pub nrtm_version: u8,
    pub source: String,
    pub session_id: String,
    pub version: u32,
    pub header_type: NRTM4DeltaHeaderType,
}

impl View for NRTM4DeltaHeader {
    type V = HeaderView;

    open spec fn view(&self) -> HeaderView {
        HeaderView {
            nrtm_version: self.nrtm_version,
            source: self.source@,
            session_id: self.session_id@,
            version: self.version,
        }
    }
}

/// One entry of a snapshot document: a single opaque data object.
#[derive(Debug)]
pub struct NRTM4SnapshotEntry {
    pub object: String,
}

impl View for NRTM4SnapshotEntry {
    type V = Seq<char>;

    open spec fn view(&self) -> Seq<char> {
        self.object@
    }
}

/// One entry of a delta document: an add-or-modify carrying a full object,
/// or a delete carrying the target's class and primary key.
#[derive(Debug)]
pub enum NRTM4DeltaEntry {
    AddModify { object: String },
    Delete { object_class: String, primary_key: String },
}

pub enum DeltaEntryView {
    AddModify { object: Seq<char> },
    Delete { object_class: Seq<char>, primary_key: Seq<char> },
}

impl View for NRTM4DeltaEntry {
    type V = DeltaEntryView;

    open spec fn view(&self) -> DeltaEntryView {
        match self {
            NRTM4DeltaEntry::AddModify { object } => DeltaEntryView::AddModify { object: object@ },
            NRTM4DeltaEntry::Delete { object_class, primary_key } => DeltaEntryView::Delete {
                object_class: object_class@,
                primary_key: primary_key@,
            },
        }
    }
}

/// A parsed snapshot document: its header and its entries.
#[derive(Debug)]
pub struct NRTM4SnapshotFile {
    pub header: NRTM4SnapshotHeader,
    pub entries: Vec<NRTM4SnapshotEntry>,
}

/// A parsed delta document: its header and its ordered entries.
#[derive(Debug)]
pub struct NRTM4DeltaFile {
    pub header: NRTM4DeltaHeader,
    pub entries: Vec<NRTM4DeltaEntry>,
}

/// The update notification document: the root trust-establishing document
/// naming the current snapshot and the ordered deltas. Immutable once
/// parsed. The issuance timestamp is held as a Unix second count.
#[derive(Debug)]
pub struct NRTM4UpdateNotificationFile {
    pub nrtm_version: u8,
    pub source: String,
    pub session_id: String,
    pub version: u32,
    pub timestamp: i64,
    pub file_type: String,
    pub snapshot: NRTM4FileReference,
    pub deltas: Vec<NRTM4FileReference>,
    pub next_signing_key: Option<String>,
}

pub struct UnfView {
    pub nrtm_version: u8,
    pub source: Seq<char>,
    pub session_id: Seq<char>,
    pub version: u32,
    pub timestamp: i64,
    pub file_type: Seq<char>,
    pub snapshot: FileReferenceView,
    pub deltas: Seq<FileReferenceView>,
    pub next_signing_key: Option<Seq<char>>,
}

/// The views of a list of file references.
pub open spec fn refs_view(refs: Seq<NRTM4FileReference>) -> Seq<FileReferenceView> {
    refs.map_values(|r: NRTM4FileReference| r@)
}

impl View for NRTM4UpdateNotificationFile {
    type V = UnfView;

    open spec fn view(&self) -> UnfView {
        UnfView {
            nrtm_version: self.nrtm_version,
            source: self.source@,
            session_id: self.session_id@,
            version: self.version,
            timestamp: self.timestamp,
            file_type: self.file_type@,
            snapshot: self.snapshot@,
            deltas: refs_view(self.deltas@),
            next_signing_key: match self.next_signing_key {
                Some(k) => Some(k@),
                None => None,
            },
        }
    }
}

/// First value bound to a key in a flat object's member list.
pub open spec fn spec_lookup_flat(ms: Seq<(Seq<char>, JsonView)>, k: Seq<char>) -> Option<JsonView>
    decreases ms.len(),
{
    if ms.len() == 0 {
        None
    } else if ms.first().0 == k {
        Some(ms.first().1)
    } else {
        spec_lookup_flat(ms.drop_first(), k)
    }
}

/// First value bound to a key in a document's member list.
pub open spec fn spec_lookup_doc(ms: Seq<(Seq<char>, DocValueView)>, k: Seq<char>) -> Option<
    DocValueView,
>
    decreases ms.len(),
{
    if ms.len() == 0 {
        None
    } else if ms.first().0 == k {
        Some(ms.first().1)
    } else {
        spec_lookup_doc(ms.drop_first(), k)
    }
}

/// No key repeats.
pub open spec fn spec_keys_unique_flat(ms: Seq<(Seq<char>, JsonView)>) -> bool {
    forall|i: int, j: int| 0 <= i < j < ms.len() ==> (#[trigger] ms[i].0) != (#[trigger] ms[j].0)
}

/// No key repeats.
pub open spec fn spec_keys_unique_doc(ms: Seq<(Seq<char>, DocValueView)>) -> bool {
    forall|i: int, j: int| 0 <= i < j < ms.len() ==> (#[trigger] ms[i].0) != (#[trigger] ms[j].0)
}

fn find_flat<'a>(ms: &'a Vec<(String, JsonValue)>, key: &str) -> (r: Option<&'a JsonValue>)
    ensures
        r is Some <==> spec_lookup_flat(members_view(ms@), key@) is Some,
        r is Some ==> jv_view(*r.unwrap()) == spec_lookup_flat(members_view(ms@), key@).unwrap(),
{
    let ghost mv = members_view(ms@);
    proof {
        assert(mv.skip(0) =~= mv);
    }
    let mut i: usize = 0;
    while i < ms.len()
        invariant
            i <= ms@.len(),
            mv == members_view(ms@),
            mv.len() == ms@.len(),
            spec_lookup_flat(mv.skip(i as int), key@) == spec_lookup_flat(mv, key@),
        decreases ms@.len() - i,
    {
        proof {
            assert(mv.skip(i as int).first() == mv[i as int]);
            assert(mv.skip(i as int).drop_first() =~= mv.skip(i as int + 1));
        }
        if str_eq(ms[i].0.as_str(), key) {
            return Some(&ms[i].1);
        }
        i = i + 1;
    }
    proof {
        assert(mv.skip(ms@.len() as int) =~= Seq::<(Seq<char>, JsonView)>::empty());
    }
    None
}

fn find_doc<'a>(ms: &'a Vec<(String, DocValue)>, key: &str) -> (r: Option<&'a DocValue>)
    ensures
        r is Some <==> spec_lookup_doc(doc_view(ms@), key@) is Some,
        r is Some ==> dv_view(*r.unwrap()) == spec_lookup_doc(doc_view(ms@), key@).unwrap(),
{
    let ghost mv = doc_view(ms@);
    proof {
        assert(mv.skip(0) =~= mv);
    }
    let mut i: usize = 0;
    while i < ms.len()
        invariant
            i <= ms@.len(),
            mv == doc_view(ms@),
            mv.len() == ms@.len(),
            spec_lookup_doc(mv.skip(i as int), key@) == spec_lookup_doc(mv, key@),
        decreases ms@.len() - i,
    {
        proof {
            assert(mv.skip(i as int).first() == mv[i as int]);
            assert(mv.skip(i as int).drop_first() =~= mv.skip(i as int + 1));
        }
        if str_eq(ms[i].0.as_str(), key) {
            return Some(&ms[i].1);
        }
        i = i + 1;
    }
    proof {
        assert(mv.skip(ms@.len() as int) =~= Seq::<(Seq<char>, DocValueView)>::empty());
    }
    None
}

fn flat_find_dup<'a>(ms: &'a Vec<(String, JsonValue)>) -> (r: Option<&'a String>)
    ensures
        r is None <==> spec_keys_unique_flat(members_view(ms@)),
{
    let ghost mv = members_view(ms@);
    let mut i: usize = 0;
    while i < ms.len()
        invariant
            i <= ms@.len(),
            mv == members_view(ms@),
            mv.len() == ms@.len(),
            forall|a: int, b: int| 0 <= a < b < ms@.len() && a < i ==> (#[trigger] mv[a].0)
                != (#[trigger] mv[b].0),
        decreases ms@.len() - i,
    {
        let mut j: usize = i + 1;
        while j < ms.len()
            invariant
                i < j || j == i + 1,
                i < ms@.len(),
                j <= ms@.len(),
                i + 1 <= j,
                mv == members_view(ms@),
                mv.len() == ms@.len(),
                forall|b: int| i < b < j ==> (mv[i as int].0) != (#[trigger] mv[b].0),
            decreases ms@.len() - j,
        {
            if str_eq(ms[i].0.as_str(), ms[j].0.as_str()) {
                proof {
                    assert(mv[i as int].0 == mv[j as int].0);
                }
                return Some(&ms[j].0);
            }
            j = j + 1;
        }
        i = i + 1;
    }
    None
}

fn doc_find_dup<'a>(ms: &'a Vec<(String, DocValue)>) -> (r: Option<&'a String>)
    ensures
        r is None <==> spec_keys_unique_doc(doc_view(ms@)),
{
    let ghost mv = doc_view(ms@);
    let mut i: usize = 0;
    while i < ms.len()
        invariant
            i <= ms@.len(),
            mv == doc_view(ms@),
            mv.len() == ms@.len(),
            forall|a: int, b: int| 0 <= a < b < ms@.len() && a < i ==> (#[trigger] mv[a].0)
                != (#[trigger] mv[b].0),
        decreases ms@.len() - i,
    {
        let mut j: usize = i + 1;
        while j < ms.len()
            invariant
                i < ms@.len(),
                i + 1 <= j <= ms@.len(),
                mv == doc_view(ms@),
                mv.len() == ms@.len(),
                forall|b: int| i < b < j ==> (mv[i as int].0) != (#[trigger] mv[b].0),
            decreases ms@.len() - j,
        {
            if str_eq(ms[i].0.as_str(), ms[j].0.as_str()) {
                proof {
                    assert(mv[i as int].0 == mv[j as int].0);
                }
                return Some(&ms[j].0);
            }
            j = j + 1;
        }
        i = i + 1;
    }
    None
}

/// A key the file-reference schema admits.
pub open spec fn spec_ref_key(k: Seq<char>) -> bool {
    k == "version"@ || k == "url"@ || k == "hash"@
}

fn ref_find_unknown<'a>(ms: &'a Vec<(String, JsonValue)>) -> (r: Option<&'a String>)
    ensures
        r is None <==> (forall|i: int|
            0 <= i < members_view(ms@).len() ==> spec_ref_key(#[trigger] members_view(ms@)[i].0)),
{
    let ghost mv = members_view(ms@);
    let mut i: usize = 0;
    while i < ms.len()
        invariant
            i <= ms@.len(),
            mv == members_view(ms@),
            mv.len() == ms@.len(),
            forall|a: int| 0 <= a < i ==> spec_ref_key(#[trigger] mv[a].0),
        decreases ms@.len() - i,
    {
        let k = ms[i].0.as_str();
        if !(str_eq(k, "version") || str_eq(k, "url") || str_eq(k, "hash")) {
            proof {
                assert(!spec_ref_key(mv[i as int].0));
            }
            return Some(&ms[i].0);
        }
        i = i + 1;
    }
    None
}

/// The file-reference schema: exactly the three fields, each once, the
/// version an unsigned 32-bit integer, the locator and hash text.
pub open spec fn spec_extract_ref(ms: Seq<(Seq<char>, JsonView)>) -> Option<FileReferenceView> {
    if !spec_keys_unique_flat(ms) || !(forall|i: int|
        0 <= i < ms.len() ==> spec_ref_key(#[trigger] ms[i].0)) {
        None
    } else {
        match (spec_lookup_flat(ms, "version"@), spec_lookup_flat(ms, "url"@), spec_lookup_flat(
            ms,
            "hash"@,
        )) {
            (Some(JsonView::UInt(v)), Some(JsonView::Str(u)), Some(JsonView::Str(h))) => {
                if v <= u32::MAX {
                    Some(FileReferenceView { version: v as u32, url: u, hash: h })
                } else {
                    None
                }
            },
            _ => None,
        }
    }
}

/// Extracts a file reference from a flat object, exactly as the schema
/// admits it.
fn extract_file_ref(ms: &Vec<(String, JsonValue)>) -> (r: Result<NRTM4FileReference, NrtmError>)
    ensures
        r is Ok <==> spec_extract_ref(members_view(ms@)) is Some,
        r is Ok ==> r.unwrap()@ == spec_extract_ref(members_view(ms@)).unwrap(),
{
    match flat_find_dup(ms) {
        Some(k) => {
            return Err(NrtmError::DuplicateField { field: k.as_str().to_owned() });
        },
        None => {},
    }
    match ref_find_unknown(ms) {
        Some(k) => {
            return Err(NrtmError::UnknownField { field: k.as_str().to_owned() });
        },
        None => {},
    }
    let version: u64 = match find_flat(ms, "version") {
        Some(JsonValue::UInt(v)) => *v,
        Some(_) => {
            return Err(NrtmError::WrongFieldType { field: "version".to_owned() });
        },
        None => {
            return Err(NrtmError::MissingField { field: "version".to_owned() });
        },
    };
    let url: String = match find_flat(ms, "url") {
        Some(JsonValue::Str(s)) => s.clone(),
        Some(_) => {
            return Err(NrtmError::WrongFieldType { field: "url".to_owned() });
        },
        None => {
            return Err(NrtmError::MissingField { field: "url".to_owned() });
        },
    };
    let hash: String = match find_flat(ms, "hash") {
        Some(JsonValue::Str(s)) => s.clone(),
        Some(_) => {
            return Err(NrtmError::WrongFieldType { field: "hash".to_owned() });
        },
        None => {
            return Err(NrtmError::MissingField { field: "hash".to_owned() });
        },
    };
    if version > 0xFFFF_FFFF {
        return Err(NrtmError::WrongFieldType { field: "version".to_owned() });
    }
    Ok(NRTM4FileReference { version: version as u32, url, hash })
}

/// The views of a list of reference objects, each extracted by the schema;
/// one malformed object spoils the list.
pub open spec fn spec_extract_refs(items: Seq<Seq<(Seq<char>, JsonView)>>) -> Option<
    Seq<FileReferenceView>,
>
    decreases items.len(),
{
    if items.len() == 0 {
        Some(Seq::empty())
    } else {
        match (spec_extract_ref(items.first()), spec_extract_refs(items.drop_first())) {
            (Some(r), Some(rest)) => Some(seq![r] + rest),
            _ => None,
        }
    }
}

fn extract_refs(items: &Vec<Vec<(String, JsonValue)>>) -> (r: Result<
    Vec<NRTM4FileReference>,
    NrtmError,
>)
    ensures
        r is Ok <==> spec_extract_refs(
            items@.map_values(|ms: Vec<(String, JsonValue)>| members_view(ms@)),
        ) is Some,
        r is Ok ==> refs_view(r.unwrap()@) == spec_extract_refs(
            items@.map_values(|ms: Vec<(String, JsonValue)>| members_view(ms@)),
        ).unwrap(),
{
    let ghost iv = items@.map_values(|ms: Vec<(String, JsonValue)>| members_view(ms@));
    let mut out: Vec<NRTM4FileReference> = Vec::new();
    proof {
        assert(iv.skip(0) =~= iv);
        assert(refs_view(out@) =~= Seq::<FileReferenceView>::empty());
        if spec_extract_refs(iv) is Some {
            assert(refs_view(out@) + spec_extract_refs(iv).unwrap() =~= spec_extract_refs(
                iv,
            ).unwrap());
        }
    }
    let mut i: usize = 0;
    while i < items.len()
        invariant
            i <= items@.len(),
            iv == items@.map_values(|ms: Vec<(String, JsonValue)>| members_view(ms@)),
            iv.len() == items@.len(),
            spec_extract_refs(iv.skip(i as int)) is Some ==> spec_extract_refs(iv) == Some(
                refs_view(out@) + spec_extract_refs(iv.skip(i as int)).unwrap(),
            ),
            spec_extract_refs(iv.skip(i as int)) is None ==> spec_extract_refs(iv) is None,
        decreases items@.len() - i,
    {
        proof {
            assert(iv.skip(i as int).first() == iv[i as int]);
            assert(iv.skip(i as int).drop_first() =~= iv.skip(i as int + 1));
        }
        match extract_file_ref(&items[i]) {
            Err(e) => {
                return Err(e);
            },
            Ok(fr) => {
                let ghost frv = fr@;
                out.push(fr);
                proof {
                    assert(refs_view(out@) =~= refs_view(out@.drop_last()).push(frv));
                    if spec_extract_refs(iv.skip(i as int + 1)) is Some {
                        assert(refs_view(out@.drop_last()) + (seq![frv] + spec_extract_refs(
                            iv.skip(i as int + 1),
                        ).unwrap()) =~= refs_view(out@) + spec_extract_refs(
                            iv.skip(i as int + 1),
                        ).unwrap());
                    }
                }
            },
        }
        i = i + 1;
    }
    proof {
        assert(iv.skip(items@.len() as int) =~= Seq::<Seq<(Seq<char>, JsonView)>>::empty());
        assert(refs_view(out@) + Seq::<FileReferenceView>::empty() =~= refs_view(out@));
    }
    Ok(out)
}


/// A key the snapshot or delta header schema admits.
pub open spec fn spec_header_key(k: Seq<char>) -> bool {
    k == "nrtm_version"@ || k == "source"@ || k == "session_id"@ || k == "version"@ || k
        == "type"@
}

fn header_find_unknown<'a>(ms: &'a Vec<(String, DocValue)>) -> (r: Option<&'a String>)
    ensures
        r is None <==> (forall|i: int|
            0 <= i < doc_view(ms@).len() ==> spec_header_key(#[trigger] doc_view(ms@)[i].0)),
{
    let ghost mv = doc_view(ms@);
    let mut i: usize = 0;
    while i < ms.len()
        invariant
            i <= ms@.len(),
            mv == doc_view(ms@),
            mv.len() == ms@.len(),
            forall|a: int| 0 <= a < i ==> spec_header_key(#[trigger] mv[a].0),
        decreases ms@.len() - i,
    {
        let k = ms[i].0.as_str();
        if !(str_eq(k, "nrtm_version") || str_eq(k, "source") || str_eq(k, "session_id") || str_eq(
            k,
            "version",
        ) || str_eq(k, "type")) {
            proof {
                assert(!spec_header_key(mv[i as int].0));
            }
            return Some(&ms[i].0);
        }
        i = i + 1;
    }
    None
}

/// The shared header schema of snapshot and delta documents: exactly the
/// five fields, each once, the protocol version exactly the one supported
/// version, and the given discriminant tag.
pub open spec fn spec_extract_header(ms: Seq<(Seq<char>, DocValueView)>, tag: Seq<char>) -> Option<
    HeaderView,
> {
    if !spec_keys_unique_doc(ms) || !(forall|i: int|
        0 <= i < ms.len() ==> spec_header_key(#[trigger] ms[i].0)) {
        None
    } else {
        match (spec_lookup_doc(ms, "nrtm_version"@), spec_lookup_doc(ms, "source"@),
        spec_lookup_doc(ms, "session_id"@), spec_lookup_doc(ms, "version"@), spec_lookup_doc(
            ms,
            "type"@,
        )) {
            (
                Some(DocValueView::Scalar(JsonView::UInt(nv))),
                Some(DocValueView::Scalar(JsonView::Str(src))),
                Some(DocValueView::Scalar(JsonView::Str(sid))),
                Some(DocValueView::Scalar(JsonView::UInt(v))),
                Some(DocValueView::Scalar(JsonView::Str(tg))),
            ) => {
                if nv == 4 && v <= u32::MAX && tg == tag {
                    Some(
                        HeaderView {
                            nrtm_version: nv as u8,
                            source: src,
                            session_id: sid,
                            version: v as u32,
                        },
                    )
                } else {
                    None
                }
            },
            _ => None,
        }
    }
}

/// Extracts the shared header fields, against the given discriminant tag.
#[verifier::rlimit(50)]
fn extract_header(ms: &Vec<(String, DocValue)>, tag: &str) -> (r: Result<
    (u8, String, String, u32),
    NrtmError,
>)
    ensures
        r is Ok <==> spec_extract_header(doc_view(ms@), tag@) is Some,
        r is Ok ==> ({
            let h = spec_extract_header(doc_view(ms@), tag@).unwrap();
            r.unwrap().0 == h.nrtm_version && r.unwrap().1@ == h.source && r.unwrap().2@
                == h.session_id && r.unwrap().3 == h.version
        }),
{
    match doc_find_dup(ms) {
        Some(k) => {
            return Err(NrtmError::DuplicateField { field: k.as_str().to_owned() });
        },
        None => {},
    }
    match header_find_unknown(ms) {
        Some(k) => {
            return Err(NrtmError::UnknownField { field: k.as_str().to_owned() });
        },
        None => {},
    }
    let nv: u64 = match find_doc(ms, "nrtm_version") {
        Some(DocValue::Scalar(JsonValue::UInt(v))) => *v,
        Some(_) => {
            return Err(NrtmError::WrongFieldType { field: "nrtm_version".to_owned() });
        },
        None => {
            return Err(NrtmError::MissingField { field: "nrtm_version".to_owned() });
        },
    };
    let source: String = match find_doc(ms, "source") {
        Some(DocValue::Scalar(JsonValue::Str(s))) => s.clone(),
        Some(_) => {
            return Err(NrtmError::WrongFieldType { field: "source".to_owned() });
        },
        None => {
            return Err(NrtmError::MissingField { field: "source".to_owned() });
        },
    };
    let session_id: String = match find_doc(ms, "session_id") {
        Some(DocValue::Scalar(JsonValue::Str(s))) => s.clone(),
        Some(_) => {
            return Err(NrtmError::WrongFieldType { field: "session_id".to_owned() });
        },
        None => {
            return Err(NrtmError::MissingField { field: "session_id".to_owned() });
        },
    };
    let version: u64 = match find_doc(ms, "version") {
        Some(DocValue::Scalar(JsonValue::UInt(v))) => *v,
        Some(_) => {
            return Err(NrtmError::WrongFieldType { field: "version".to_owned() });
        },
        None => {
            return Err(NrtmError::MissingField { field: "version".to_owned() });
        },
    };
    let tg: String = match find_doc(ms, "type") {
        Some(DocValue::Scalar(JsonValue::Str(s))) => s.clone(),
        Some(_) => {
            return Err(NrtmError::WrongFieldType { field: "type".to_owned() });
        },
        None => {
            return Err(NrtmError::MissingField { field: "type".to_owned() });
        },
    };
    if nv != 4 {
        return Err(NrtmError::WrongProtocolVersion { found: nv });
    }
    if version > 0xFFFF_FFFF {
        return Err(NrtmError::WrongFieldType { field: "version".to_owned() });
    }
    if !str_eq(tg.as_str(), tag) {
        return Err(NrtmError::WrongFieldType { field: "type".to_owned() });
    }
    Ok((nv as u8, source, session_id, version as u32))
}

/// A key the snapshot entry schema admits.
pub open spec fn spec_sentry_key(k: Seq<char>) -> bool {
    k == "object"@
}

fn sentry_find_unknown<'a>(ms: &'a Vec<(String, DocValue)>) -> (r: Option<&'a String>)
    ensures
        r is None <==> (forall|i: int|
            0 <= i < doc_view(ms@).len() ==> spec_sentry_key(#[trigger] doc_view(ms@)[i].0)),
{
    let ghost mv = doc_view(ms@);
    let mut i: usize = 0;
    while i < ms.len()
        invariant
            i <= ms@.len(),
            mv == doc_view(ms@),
            mv.len() == ms@.len(),
            forall|a: int| 0 <= a < i ==> spec_sentry_key(#[trigger] mv[a].0),
        decreases ms@.len() - i,
    {
        if !str_eq(ms[i].0.as_str(), "object") {
            proof {
                assert(!spec_sentry_key(mv[i as int].0));
            }
            return Some(&ms[i].0);
        }
        i = i + 1;
    }
    None
}

/// The snapshot entry schema: exactly one field, `object`, holding text.
pub open spec fn spec_extract_snapshot_entry(ms: Seq<(Seq<char>, DocValueView)>) -> Option<
    Seq<char>,
> {
    if !spec_keys_unique_doc(ms) || !(forall|i: int|
        0 <= i < ms.len() ==> spec_sentry_key(#[trigger] ms[i].0)) {
        None
    } else {
        match spec_lookup_doc(ms, "object"@) {
            Some(DocValueView::Scalar(JsonView::Str(o))) => Some(o),
            _ => None,
        }
    }
}

fn extract_snapshot_entry(ms: &Vec<(String, DocValue)>) -> (r: Result<NRTM4SnapshotEntry, NrtmError>)
    ensures
        r is Ok <==> spec_extract_snapshot_entry(doc_view(ms@)) is Some,
        r is Ok ==> r.unwrap()@ == spec_extract_snapshot_entry(doc_view(ms@)).unwrap(),
{
    match doc_find_dup(ms) {
        Some(k) => {
            return Err(NrtmError::DuplicateField { field: k.as_str().to_owned() });
        },
        None => {},
    }
    match sentry_find_unknown(ms) {
        Some(k) => {
            return Err(NrtmError::UnknownField { field: k.as_str().to_owned() });
        },
        None => {},
    }
    match find_doc(ms, "object") {
        Some(DocValue::Scalar(JsonValue::Str(s))) => Ok(NRTM4SnapshotEntry { object: s.clone() }),
        Some(_) => Err(NrtmError::WrongFieldType { field: "object".to_owned() }),
        None => Err(NrtmError::MissingField { field: "object".to_owned() }),
    }
}

/// A key the delta entry schema admits.
pub open spec fn spec_dentry_key(k: Seq<char>) -> bool {
    k == "action"@ || k == "object"@ || k == "object_class"@ || k == "primary_key"@
}

fn dentry_find_unknown<'a>(ms: &'a Vec<(String, DocValue)>) -> (r: Option<&'a String>)
    ensures
        r is None <==> (forall|i: int|
            0 <= i < doc_view(ms@).len() ==> spec_dentry_key(#[trigger] doc_view(ms@)[i].0)),
{
    let ghost mv = doc_view(ms@);
    let mut i: usize = 0;
    while i < ms.len()
        invariant
            i <= ms@.len(),
            mv == doc_view(ms@),
            mv.len() == ms@.len(),
            forall|a: int| 0 <= a < i ==> spec_dentry_key(#[trigger] mv[a].0),
        decreases ms@.len() - i,
    {
        let k = ms[i].0.as_str();
        if !(str_eq(k, "action") || str_eq(k, "object") || str_eq(k, "object_class") || str_eq(
            k,
            "primary_key",
        )) {
            proof {
                assert(!spec_dentry_key(mv[i as int].0));
            }
            return Some(&ms[i].0);
        }
        i = i + 1;
    }
    None
}

/// The delta entry schema: a closed, tag-discriminated sum. An
/// `add_modify` carries exactly a full object; a `delete` carries exactly
/// the target's class and primary key; any other tag is rejected.
pub open spec fn spec_extract_delta_entry(ms: Seq<(Seq<char>, DocValueView)>) -> Option<
    DeltaEntryView,
> {
    if !spec_keys_unique_doc(ms) || !(forall|i: int|
        0 <= i < ms.len() ==> spec_dentry_key(#[trigger] ms[i].0)) {
        None
    } else {
        match spec_lookup_doc(ms, "action"@) {
            Some(DocValueView::Scalar(JsonView::Str(a))) => {
                if a == "add_modify"@ {
                    match (spec_lookup_doc(ms, "object"@), spec_lookup_doc(ms, "object_class"@),
                    spec_lookup_doc(ms, "primary_key"@)) {
                        (Some(DocValueView::Scalar(JsonView::Str(o))), None, None) => Some(
                            DeltaEntryView::AddModify { object: o },
                        ),
                        _ => None,
                    }
                } else if a == "delete"@ {
                    match (spec_lookup_doc(ms, "object"@), spec_lookup_doc(ms, "object_class"@),
                    spec_lookup_doc(ms, "primary_key"@)) {
                        (
                            None,
                            Some(DocValueView::Scalar(JsonView::Str(c))),
                            Some(DocValueView::Scalar(JsonView::Str(p))),
                        ) => Some(DeltaEntryView::Delete { object_class: c, primary_key: p }),
                        _ => None,
                    }
                } else {
                    None
                }
            },
            _ => None,
        }
    }
}

#[verifier::rlimit(50)]
fn extract_delta_entry(ms: &Vec<(String, DocValue)>) -> (r: Result<NRTM4DeltaEntry, NrtmError>)
    ensures
        r is Ok <==> spec_extract_delta_entry(doc_view(ms@)) is Some,
        r is Ok ==> r.unwrap()@ == spec_extract_delta_entry(doc_view(ms@)).unwrap(),
{
    match doc_find_dup(ms) {
        Some(k) => {
            return Err(NrtmError::DuplicateField { field: k.as_str().to_owned() });
        },
        None => {},
    }
    match dentry_find_unknown(ms) {
        Some(k) => {
            return Err(NrtmError::UnknownField { field: k.as_str().to_owned() });
        },
        None => {},
    }
    let action: String = match find_doc(ms, "action") {
        Some(DocValue::Scalar(JsonValue::Str(s))) => s.clone(),
        Some(_) => {
            return Err(NrtmError::WrongFieldType { field: "action".to_owned() });
        },
        None => {
            return Err(NrtmError::MissingField { field: "action".to_owned() });
        },
    };
    if str_eq(action.as_str(), "add_modify") {
        let object: String = match find_doc(ms, "object") {
            Some(DocValue::Scalar(JsonValue::Str(s))) => s.clone(),
            Some(_) => {
                return Err(NrtmError::WrongFieldType { field: "object".to_owned() });
            },
            None => {
                return Err(NrtmError::MissingField { field: "object".to_owned() });
            },
        };
        match find_doc(ms, "object_class") {
            Some(_) => {
                return Err(NrtmError::UnknownField { field: "object_class".to_owned() });
            },
            None => {},
        }
        match find_doc(ms, "primary_key") {
            Some(_) => {
                return Err(NrtmError::UnknownField { field: "primary_key".to_owned() });
            },
            None => {},
        }
        Ok(NRTM4DeltaEntry::AddModify { object })
    } else if str_eq(action.as_str(), "delete") {
        match find_doc(ms, "object") {
            Some(_) => {
                return Err(NrtmError::UnknownField { field: "object".to_owned() });
            },
            None => {},
        }
        let object_class: String = match find_doc(ms, "object_class") {
            Some(DocValue::Scalar(JsonValue::Str(s))) => s.clone(),
            Some(_) => {
                return Err(NrtmError::WrongFieldType { field: "object_class".to_owned() });
            },
            None => {
                return Err(NrtmError::MissingField { field: "object_class".to_owned() });
            },
        };
        let primary_key: String = match find_doc(ms, "primary_key") {
            Some(DocValue::Scalar(JsonValue::Str(s))) => s.clone(),
            Some(_) => {
                return Err(NrtmError::WrongFieldType { field: "primary_key".to_owned() });
            },
            None => {
                return Err(NrtmError::MissingField { field: "primary_key".to_owned() });
            },
        };
        Ok(NRTM4DeltaEntry::Delete { object_class, primary_key })
    } else {
        Err(NrtmError::UnknownEntryTag)
    }
}

/// A key the notification schema admits.
pub open spec fn spec_unf_key(k: Seq<char>) -> bool {
    k == "nrtm_version"@ || k == "source"@ || k == "session_id"@ || k == "version"@ || k
        == "timestamp"@ || k == "type"@ || k == "snapshot"@ || k == "deltas"@ || k
        == "next_signing_key"@
}

fn unf_find_unknown<'a>(ms: &'a Vec<(String, DocValue)>) -> (r: Option<&'a String>)
    ensures
        r is None <==> (forall|i: int|
            0 <= i < doc_view(ms@).len() ==> spec_unf_key(#[trigger] doc_view(ms@)[i].0)),
{
    let ghost mv = doc_view(ms@);
    let mut i: usize = 0;
    while i < ms.len()
        invariant
            i <= ms@.len(),
            mv == doc_view(ms@),
            mv.len() == ms@.len(),
            forall|a: int| 0 <= a < i ==> spec_unf_key(#[trigger] mv[a].0),
        decreases ms@.len() - i,
    {
        let k = ms[i].0.as_str();
        if !(str_eq(k, "nrtm_version") || str_eq(k, "source") || str_eq(k, "session_id") || str_eq(
            k,
            "version",
        ) || str_eq(k, "timestamp") || str_eq(k, "type") || str_eq(k, "snapshot") || str_eq(
            k,
            "deltas",
        ) || str_eq(k, "next_signing_key")) {
            proof {
                assert(!spec_unf_key(mv[i as int].0));
            }
            return Some(&ms[i].0);
        }
        i = i + 1;
    }
    None
}

/// The optional next trust anchor: absent or null is none; text is some;
/// any other shape is rejected.
pub open spec fn spec_extract_nsk(ms: Seq<(Seq<char>, DocValueView)>) -> Option<Option<Seq<char>>> {
    match spec_lookup_doc(ms, "next_signing_key"@) {
        None => Some(None),
        Some(DocValueView::Scalar(JsonView::Null)) => Some(None),
        Some(DocValueView::Scalar(JsonView::Str(k))) => Some(Some(k)),
        Some(_) => None,
    }
}

/// The notification schema: exactly the declared fields, each once; the
/// timestamp must name a Unix second; the snapshot reference and every
/// delta reference must fit their own schema.
pub open spec fn spec_extract_unf(ms: Seq<(Seq<char>, DocValueView)>) -> Option<UnfView> {
    if !spec_keys_unique_doc(ms) || !(forall|i: int|
        0 <= i < ms.len() ==> spec_unf_key(#[trigger] ms[i].0)) {
        None
    } else {
        match (spec_lookup_doc(ms, "nrtm_version"@), spec_lookup_doc(ms, "source"@),
        spec_lookup_doc(ms, "session_id"@), spec_lookup_doc(ms, "version"@), spec_lookup_doc(
            ms,
            "timestamp"@,
        ), spec_lookup_doc(ms, "type"@), spec_lookup_doc(ms, "snapshot"@), spec_lookup_doc(
            ms,
            "deltas"@,
        )) {
            (
                Some(DocValueView::Scalar(JsonView::UInt(nv))),
                Some(DocValueView::Scalar(JsonView::Str(src))),
                Some(DocValueView::Scalar(JsonView::Str(sid))),
                Some(DocValueView::Scalar(JsonView::UInt(v))),
                Some(DocValueView::Scalar(JsonView::Str(ts))),
                Some(DocValueView::Scalar(JsonView::Str(ft))),
                Some(DocValueView::Object(sref)),
                Some(DocValueView::Array(ditems)),
            ) => {
                if nv <= 255 && v <= u32::MAX {
                    match (crate::timestamp::spec_parse_rfc3339(
                        vstd::utf8::encode_utf8(ts),
                    ), spec_extract_ref(sref), spec_extract_refs(ditems), spec_extract_nsk(ms)) {
                        (Some(epoch), Some(sr), Some(dr), Some(nskv)) => Some(
                            UnfView {
                                nrtm_version: nv as u8,
                                source: src,
                                session_id: sid,
                                version: v as u32,
                                timestamp: epoch,
                                file_type: ft,
                                snapshot: sr,
                                deltas: dr,
                                next_signing_key: nskv,
                            },
                        ),
                        _ => None,
                    }
                } else {
                    None
                }
            },
            _ => None,
        }
    }
}

/// Extracts the notification document from its member list, exactly as the
/// schema admits it.
#[verifier::rlimit(100)]
pub fn extract_unf(ms: &Vec<(String, DocValue)>) -> (r: Result<
    NRTM4UpdateNotificationFile,
    NrtmError,
>)
    ensures
        r is Ok <==> spec_extract_unf(doc_view(ms@)) is Some,
        r is Ok ==> r.unwrap()@ == spec_extract_unf(doc_view(ms@)).unwrap(),
{
    match doc_find_dup(ms) {
        Some(k) => {
            return Err(NrtmError::DuplicateField { field: k.as_str().to_owned() });
        },
        None => {},
    }
    match unf_find_unknown(ms) {
        Some(k) => {
            return Err(NrtmError::UnknownField { field: k.as_str().to_owned() });
        },
        None => {},
    }
    let nv: u64 = match find_doc(ms, "nrtm_version") {
        Some(DocValue::Scalar(JsonValue::UInt(v))) => *v,
        Some(_) => {
            return Err(NrtmError::WrongFieldType { field: "nrtm_version".to_owned() });
        },
        None => {
            return Err(NrtmError::MissingField { field: "nrtm_version".to_owned() });
        },
    };
    let source: String = match find_doc(ms, "source") {
        Some(DocValue::Scalar(JsonValue::Str(s))) => s.clone(),
        Some(_) => {
            return Err(NrtmError::WrongFieldType { field: "source".to_owned() });
        },
        None => {
            return Err(NrtmError::MissingField { field: "source".to_owned() });
        },
    };
    let session_id: String = match find_doc(ms, "session_id") {
        Some(DocValue::Scalar(JsonValue::Str(s))) => s.clone(),
        Some(_) => {
            return Err(NrtmError::WrongFieldType { field: "session_id".to_owned() });
        },
        None => {
            return Err(NrtmError::MissingField { field: "session_id".to_owned() });
        },
    };
    let version: u64 = match find_doc(ms, "version") {
        Some(DocValue::Scalar(JsonValue::UInt(v))) => *v,
        Some(_) => {
            return Err(NrtmError::WrongFieldType { field: "version".to_owned() });
        },
        None => {
            return Err(NrtmError::MissingField { field: "version".to_owned() });
        },
    };
    let ts: String = match find_doc(ms, "timestamp") {
        Some(DocValue::Scalar(JsonValue::Str(s))) => s.clone(),
        Some(_) => {
            return Err(NrtmError::WrongFieldType { field: "timestamp".to_owned() });
        },
        None => {
            return Err(NrtmError::MissingField { field: "timestamp".to_owned() });
        },
    };
    let file_type: String = match find_doc(ms, "type") {
        Some(DocValue::Scalar(JsonValue::Str(s))) => s.clone(),
        Some(_) => {
            return Err(NrtmError::WrongFieldType { field: "type".to_owned() });
        },
        None => {
            return Err(NrtmError::MissingField { field: "type".to_owned() });
        },
    };
    let snapshot: NRTM4FileReference = match find_doc(ms, "snapshot") {
        Some(DocValue::Object(sms)) => {
            match extract_file_ref(sms) {
                Ok(fr) => fr,
                Err(e) => {
                    return Err(e);
                },
            }
        },
        Some(_) => {
            return Err(NrtmError::WrongFieldType { field: "snapshot".to_owned() });
        },
        None => {
            return Err(NrtmError::MissingField { field: "snapshot".to_owned() });
        },
    };
    let deltas: Vec<NRTM4FileReference> = match find_doc(ms, "deltas") {
        Some(DocValue::Array(items)) => {
            match extract_refs(items) {
                Ok(rs) => rs,
                Err(e) => {
                    return Err(e);
                },
            }
        },
        Some(_) => {
            return Err(NrtmError::WrongFieldType { field: "deltas".to_owned() });
        },
        None => {
            return Err(NrtmError::MissingField { field: "deltas".to_owned() });
        },
    };
    let next_signing_key: Option<String> = match find_doc(ms, "next_signing_key") {
        None => None,
        Some(DocValue::Scalar(JsonValue::Null)) => None,
        Some(DocValue::Scalar(JsonValue::Str(s))) => Some(s.clone()),
        Some(_) => {
            return Err(NrtmError::WrongFieldType { field: "next_signing_key".to_owned() });
        },
    };
    if nv > 255 {
        return Err(NrtmError::WrongFieldType { field: "nrtm_version".to_owned() });
    }
    if version > 0xFFFF_FFFF {
        return Err(NrtmError::WrongFieldType { field: "version".to_owned() });
    }
    let timestamp: i64 = match crate::timestamp::parse_rfc3339(ts.as_str()) {
        Some(t) => t,
        None => {
            return Err(NrtmError::BadTimestamp);
        },
    };
    Ok(
        NRTM4UpdateNotificationFile {
            nrtm_version: nv as u8,
            source,
            session_id,
            version: version as u32,
            timestamp,
            file_type,
            snapshot,
            deltas,
            next_signing_key,
        },
    )
}


/// The versions of a list of references, in list order.
pub open spec fn delta_versions(refs: Seq<FileReferenceView>) -> Seq<u32> {
    refs.map_values(|r: FileReferenceView| r.version)
}

/// The version rules of the notification: the snapshot version within the
/// counter; the delta versions one contiguous ascending run of positive
/// versions; the highest no more than the counter; the lowest leaving no
/// coverage gap above the snapshot version.
pub open spec fn spec_versions_ok(snapshot_version: u32, version: u32, dv: Seq<u32>) -> bool {
    &&& snapshot_version <= version
    &&& crate::validators::spec_contiguous(dv)
    &&& dv.len() > 0 ==> dv[dv.len() - 1] <= version
    &&& dv.len() > 0 ==> dv[0] <= snapshot_version + 1
    &&& dv.len() > 0 ==> dv[0] >= 1
}

/// Position of the first reference whose locator lacks the secure scheme,
/// scanning from `i`; the length when every one carries it.
pub open spec fn spec_first_bad_url(refs: Seq<FileReferenceView>, i: int) -> int
    recommends
        0 <= i <= refs.len(),
    decreases refs.len() - i,
        when 0 <= i <= refs.len()
{
    if i >= refs.len() {
        i
    } else if !crate::validators::spec_https_url(refs[i].url) {
        i
    } else {
        spec_first_bad_url(refs, i + 1)
    }
}

/// A position preceded by secure locators only, and holding an insecure
/// one or the end, is exactly where the scan stops.
proof fn lemma_first_bad_url_at(refs: Seq<FileReferenceView>, k: int, i: int)
    requires
        0 <= k <= i <= refs.len(),
        forall|j: int| k <= j < i ==> crate::validators::spec_https_url((#[trigger] refs[j]).url),
        i < refs.len() ==> !crate::validators::spec_https_url(refs[i].url),
    ensures
        spec_first_bad_url(refs, k) == i,
    decreases i - k,
{
    if k < i {
        lemma_first_bad_url_at(refs, k + 1, i);
    }
}

/// Schema-level self-consistency of the notification, at verification time
/// `now`: the fixed protocol version, the identifier grammars, the secure
/// scheme on every locator, the version rules, and freshness.
pub open spec fn spec_unf_valid(u: UnfView, now: int) -> bool {
    &&& u.nrtm_version == 4
    &&& crate::validators::spec_source_ok(u.source)
    &&& crate::validators::spec_uuid_ok(u.session_id)
    &&& crate::validators::spec_https_url(u.snapshot.url)
    &&& forall|i: int|
        0 <= i < u.deltas.len() ==> crate::validators::spec_https_url(
            (#[trigger] u.deltas[i]).url,
        )
    &&& spec_versions_ok(u.snapshot.version, u.version, delta_versions(u.deltas))
    &&& crate::timestamp::spec_fresh(u.timestamp as int, now)
}

/// The exact error a failed schema-level validation carries: the first
/// rule broken, in checking order, names its rule and the offending
/// values.
pub open spec fn spec_unf_error(e: NrtmError, u: UnfView, now: int) -> bool {
    let dv = delta_versions(u.deltas);
    if u.nrtm_version != 4 {
        e matches NrtmError::WrongProtocolVersion { found } && found == u.nrtm_version
    } else if !crate::validators::spec_source_ok(u.source) {
        e == NrtmError::BadSource
    } else if !crate::validators::spec_uuid_ok(u.session_id) {
        e == NrtmError::BadSessionId
    } else if !crate::validators::spec_https_url(u.snapshot.url) {
        e matches NrtmError::BadUrlScheme { url } && url@ == u.snapshot.url
    } else if spec_first_bad_url(u.deltas, 0) < u.deltas.len() {
        e matches NrtmError::BadUrlScheme { url } && url@ == u.deltas[spec_first_bad_url(
            u.deltas,
            0,
        )].url
    } else if u.snapshot.version > u.version {
        e matches NrtmError::SnapshotVersionTooHigh { snapshot_version, version }
            && snapshot_version == u.snapshot.version && version == u.version
    } else if !crate::validators::spec_contiguous(dv) {
        e == NrtmError::NonContiguousDeltas
    } else if dv.len() > 0 && dv[dv.len() - 1] > u.version {
        e matches NrtmError::DeltaVersionTooHigh { delta_version, version } && delta_version
            == dv[dv.len() - 1] && version == u.version
    } else if dv.len() > 0 && dv[0] > u.snapshot.version + 1 {
        e matches NrtmError::CoverageGap { snapshot_version, first_delta_version }
            && snapshot_version == u.snapshot.version && first_delta_version == dv[0]
    } else if dv.len() > 0 && dv[0] < 1 {
        e matches NrtmError::WrongFieldType { field } && field@ == "version"@
    } else if !crate::timestamp::spec_fresh(u.timestamp as int, now) {
        e matches NrtmError::StaleNotification { age_seconds } && (now - u.timestamp <= i64::MAX
            ==> age_seconds == now - u.timestamp)
    } else {
        false
    }
}

/// Validates the notification's own schema-level rules at verification time
/// `now`, exactly; each failure is the first broken rule's error, naming
/// its rule and the offending values.
pub fn validate_unf(unf: &NRTM4UpdateNotificationFile, now: i64) -> (r: Result<(), NrtmError>)
    ensures
        r is Ok <==> spec_unf_valid(unf@, now as int),
        r is Err ==> spec_unf_error(r->Err_0, unf@, now as int),
{
    if unf.nrtm_version != 4 {
        return Err(NrtmError::WrongProtocolVersion { found: unf.nrtm_version as u64 });
    }
    if !crate::validators::validate_source(unf.source.as_str()) {
        return Err(NrtmError::BadSource);
    }
    if !crate::validators::validate_uuid(unf.session_id.as_str()) {
        return Err(NrtmError::BadSessionId);
    }
    if !crate::validators::validate_url(unf.snapshot.url.as_str()) {
        return Err(NrtmError::BadUrlScheme { url: unf.snapshot.url.as_str().to_owned() });
    }
    let mut versions: Vec<u32> = Vec::new();
    let mut i: usize = 0;
    while i < unf.deltas.len()
        invariant
            i <= unf.deltas@.len(),
            versions@.len() == i,
            unf@.nrtm_version == 4,
            crate::validators::spec_source_ok(unf@.source),
            crate::validators::spec_uuid_ok(unf@.session_id),
            crate::validators::spec_https_url(unf@.snapshot.url),
            forall|j: int| 0 <= j < i ==> #[trigger] versions@[j] == unf@.deltas[j].version,
            forall|j: int|
                0 <= j < i ==> crate::validators::spec_https_url(
                    (#[trigger] unf@.deltas[j]).url,
                ),
        decreases unf.deltas@.len() - i,
    {
        if !crate::validators::validate_url(unf.deltas[i].url.as_str()) {
            proof {
                assert(!crate::validators::spec_https_url(unf@.deltas[i as int].url));
                lemma_first_bad_url_at(unf@.deltas, 0, i as int);
            }
            return Err(NrtmError::BadUrlScheme { url: unf.deltas[i].url.as_str().to_owned() });
        }
        versions.push(unf.deltas[i].version);
        i = i + 1;
    }
    proof {
        assert(versions@ =~= delta_versions(unf@.deltas));
        lemma_first_bad_url_at(unf@.deltas, 0, unf@.deltas.len() as int);
    }
    if unf.snapshot.version > unf.version {
        return Err(
            NrtmError::SnapshotVersionTooHigh {
                snapshot_version: unf.snapshot.version,
                version: unf.version,
            },
        );
    }
    if !crate::validators::is_contiguous_and_ordered(versions.as_slice()) {
        return Err(NrtmError::NonContiguousDeltas);
    }
    if versions.len() > 0 {
        let highest = versions[versions.len() - 1];
        if highest > unf.version {
            return Err(
                NrtmError::DeltaVersionTooHigh { delta_version: highest, version: unf.version },
            );
        }
        let lowest = versions[0];
        if unf.snapshot.version as u64 + 1 < lowest as u64 {
            return Err(
                NrtmError::CoverageGap {
                    snapshot_version: unf.snapshot.version,
                    first_delta_version: lowest,
                },
            );
        }
        if lowest < 1 {
            return Err(NrtmError::WrongFieldType { field: "version".to_owned() });
        }
    }
    if !crate::timestamp::is_fresh(unf.timestamp, now) {
        let age: i64 = match now.checked_sub(unf.timestamp) {
            Some(d) => d,
            None => i64::MAX,
        };
        return Err(NrtmError::StaleNotification { age_seconds: age });
    }
    Ok(())
}

proof fn lemma_contig_index(dv: Seq<u32>, i: int)
    requires
        crate::validators::spec_contiguous(dv),
        0 <= i < dv.len(),
    ensures
        dv[i] == dv[0] + i,
    decreases i,
{
    if i > 0 {
        lemma_contig_index(dv, i - 1);
        assert(dv[(i - 1) + 1] == dv[i - 1] + 1);
    }
}

/// Contiguity (law): the version rule accepts exactly the lists that are
/// one ascending run of positive versions anchored at most one above the
/// snapshot version and capped by the version counter — together with a
/// snapshot version within the counter; the empty list is accepted exactly
/// on the latter condition alone.
pub proof fn lemma_contiguity_characterization(snapshot_version: u32, version: u32, dv: Seq<u32>)
    ensures
        spec_versions_ok(snapshot_version, version, dv) <==> (snapshot_version <= version && (
        dv.len() == 0 || (1 <= dv[0] <= snapshot_version + 1 && dv[0] + dv.len() - 1 <= version
            && dv =~= Seq::new(dv.len(), |i: int| (dv[0] + i) as u32)))),
{
    if dv.len() > 0 {
        if spec_versions_ok(snapshot_version, version, dv) {
            assert forall|i: int| 0 <= i < dv.len() implies #[trigger] dv[i] == dv[0] + i by {
                lemma_contig_index(dv, i);
            }
            assert(dv[dv.len() - 1] == dv[0] + dv.len() - 1);
            assert(dv =~= Seq::new(dv.len(), |i: int| (dv[0] + i) as u32));
        }
        if snapshot_version <= version && 1 <= dv[0] <= snapshot_version + 1 && dv[0] + dv.len()
            - 1 <= version && dv =~= Seq::new(dv.len(), |i: int| (dv[0] + i) as u32) {
            assert forall|i: int| 0 <= i && i + 1 < dv.len() implies #[trigger] dv[i + 1] == dv[i]
                + 1 by {
                assert(dv[i] == (dv[0] + i) as u32);
                assert(dv[i + 1] == (dv[0] + i + 1) as u32);
                assert(dv[0] + i + 1 <= dv[0] + dv.len() - 1);
            }
            assert(dv[dv.len() - 1] == (dv[0] + dv.len() - 1) as u32);
        }
    }
}

/// The run anchored exactly one above the snapshot version (law): for every
/// length, the run snapshot+1, …, snapshot+k is accepted exactly when it
/// stays within the version counter; for equal snapshot and counter only
/// the empty run remains.
pub proof fn lemma_contiguity_full_run(snapshot_version: u32, version: u32, k: nat)
    requires
        snapshot_version + k <= u32::MAX,
    ensures
        spec_versions_ok(
            snapshot_version,
            version,
            Seq::new(k, |i: int| (snapshot_version + 1 + i) as u32),
        ) <==> snapshot_version + k <= version,
{
    let dv = Seq::new(k, |i: int| (snapshot_version + 1 + i) as u32);
    if k > 0 {
        assert(dv[0] == snapshot_version + 1);
        assert(dv[dv.len() - 1] == snapshot_version + k);
        lemma_contiguity_characterization(snapshot_version, version, dv);
        if snapshot_version + k <= version {
            assert(dv =~= Seq::new(dv.len(), |i: int| (dv[0] + i) as u32));
        }
    }
}

/// The exact error a failed consistency check carries: the first rule
/// broken, in checking order (source, then session, then version), names
/// the offending field of the named file with the found and the expected
/// value.
pub open spec fn spec_consistency_error(
    e: NrtmError,
    h: HeaderView,
    u: UnfView,
    expected_version: u32,
    file_name: Seq<char>,
) -> bool {
    if h.source != u.source {
        e matches NrtmError::ConsistencyMismatch { field, file, found, expected } && field@
            == "source"@ && file@ == file_name && found@ == h.source && expected@ == u.source
    } else if !crate::validators::seq_ci_equal(h.session_id, u.session_id) {
        e matches NrtmError::ConsistencyMismatch { field, file, found, expected } && field@
            == "session_id"@ && file@ == file_name && found@ == h.session_id && expected@
            == u.session_id
    } else if h.version != expected_version {
        e matches NrtmError::VersionMismatch { file, found_version, expected_version: ev } && file@
            == file_name && found_version == h.version && ev == expected_version
    } else {
        false
    }
}

/// A snapshot header matches the notification: same source, same session
/// (case carries no meaning in its hexadecimal digits), and exactly the
/// declared snapshot version.
pub open spec fn spec_snapshot_consistent(h: HeaderView, u: UnfView) -> bool {
    &&& h.source == u.source
    &&& crate::validators::seq_ci_equal(h.session_id, u.session_id)
    &&& h.version == u.snapshot.version
}

/// A delta header matches the notification and the reference that named
/// it: same source and session, and exactly the version the reference
/// declared.
pub open spec fn spec_delta_consistent(h: HeaderView, u: UnfView, expected_version: u32) -> bool {
    &&& h.source == u.source
    &&& crate::validators::seq_ci_equal(h.session_id, u.session_id)
    &&& h.version == expected_version
}

impl NRTM4SnapshotFile {
    /// The cross-document rules for a snapshot document, exactly.
    pub fn validate_unf_consistency(&self, unf: &NRTM4UpdateNotificationFile) -> (r: Result<
        (),
        NrtmError,
    >)
        ensures
            r is Ok <==> spec_snapshot_consistent(self.header@, unf@),
            r is Err ==> spec_consistency_error(
                r->Err_0,
                self.header@,
                unf@,
                unf@.snapshot.version,
                "Snapshot"@,
            ),
    {
        match crate::validators::check_consistency(
            self.header.source.as_str(),
            unf.source.as_str(),
            "source",
            "Snapshot",
        ) {
            Err(e) => {
                return Err(e);
            },
            Ok(_) => {},
        }
        if !crate::validators::str_ci_eq(self.header.session_id.as_str(), unf.session_id.as_str()) {
            return Err(
                NrtmError::ConsistencyMismatch {
                    field: "session_id".to_owned(),
                    file: "Snapshot".to_owned(),
                    found: self.header.session_id.as_str().to_owned(),
                    expected: unf.session_id.as_str().to_owned(),
                },
            );
        }
        crate::validators::check_version_consistency(
            self.header.version,
            unf.snapshot.version,
            "Snapshot",
        )
    }
}

impl NRTM4DeltaFile {
    /// The cross-document rules for a delta document, exactly: the version
    /// is held against the reference that named this delta, not merely the
    /// next expected one.
    pub fn validate_unf_consistency(
        &self,
        unf: &NRTM4UpdateNotificationFile,
        expected_version: u32,
    ) -> (r: Result<(), NrtmError>)
        ensures
            r is Ok <==> spec_delta_consistent(self.header@, unf@, expected_version),
            r is Err ==> spec_consistency_error(
                r->Err_0,
                self.header@,
                unf@,
                expected_version,
                "Delta"@,
            ),
    {
        match crate::validators::check_consistency(
            self.header.source.as_str(),
            unf.source.as_str(),
            "source",
            "Delta",
        ) {
            Err(e) => {
                return Err(e);
            },
            Ok(_) => {},
        }
        if !crate::validators::str_ci_eq(self.header.session_id.as_str(), unf.session_id.as_str()) {
            return Err(
                NrtmError::ConsistencyMismatch {
                    field: "session_id".to_owned(),
                    file: "Delta".to_owned(),
                    found: self.header.session_id.as_str().to_owned(),
                    expected: unf.session_id.as_str().to_owned(),
                },
            );
        }
        crate::validators::check_version_consistency(self.header.version, expected_version, "Delta")
    }
}


/// The views of a list of snapshot entries.
pub open spec fn sentries_view(es: Seq<NRTM4SnapshotEntry>) -> Seq<Seq<char>> {
    es.map_values(|e: NRTM4SnapshotEntry| e@)
}

/// The views of a list of delta entries.
pub open spec fn dentries_view(es: Seq<NRTM4DeltaEntry>) -> Seq<DeltaEntryView> {
    es.map_values(|e: NRTM4DeltaEntry| e@)
}

/// What one record yields as a snapshot entry: it must decode as UTF-8,
/// parse as a document, and fit the entry schema.
pub open spec fn spec_snapshot_entry_of(rec: Seq<u8>) -> Option<Seq<char>> {
    if !vstd::utf8::valid_utf8(rec) {
        None
    } else {
        match crate::json::spec_parse_document(rec) {
            Some(ms) => spec_extract_snapshot_entry(ms),
            None => None,
        }
    }
}

/// What one record yields as a delta entry.
pub open spec fn spec_delta_entry_of(rec: Seq<u8>) -> Option<DeltaEntryView> {
    if !vstd::utf8::valid_utf8(rec) {
        None
    } else {
        match crate::json::spec_parse_document(rec) {
            Some(ms) => spec_extract_delta_entry(ms),
            None => None,
        }
    }
}

/// The snapshot entries of a run of records; one bad record spoils the run.
pub open spec fn spec_snapshot_entries(recs: Seq<Seq<u8>>) -> Option<Seq<Seq<char>>>
    decreases recs.len(),
{
    if recs.len() == 0 {
        Some(Seq::empty())
    } else {
        match (spec_snapshot_entry_of(recs.first()), spec_snapshot_entries(recs.drop_first())) {
            (Some(e), Some(rest)) => Some(seq![e] + rest),
            _ => None,
        }
    }
}

/// The delta entries of a run of records, in order.
pub open spec fn spec_delta_entries(recs: Seq<Seq<u8>>) -> Option<Seq<DeltaEntryView>>
    decreases recs.len(),
{
    if recs.len() == 0 {
        Some(Seq::empty())
    } else {
        match (spec_delta_entry_of(recs.first()), spec_delta_entries(recs.drop_first())) {
            (Some(e), Some(rest)) => Some(seq![e] + rest),
            _ => None,
        }
    }
}

fn collect_snapshot_entries(records: &mut crate::jsonseq::JSONSequenceIterator, acc: Vec<
    NRTM4SnapshotEntry,
>) -> (r: Result<Vec<NRTM4SnapshotEntry>, NrtmError>)
    requires
        old(records).wf(),
    ensures
        final(records).wf(),
        r is Ok <==> spec_snapshot_entries(old(records).remaining()) is Some,
        r is Ok ==> sentries_view(r.unwrap()@) == sentries_view(acc@) + spec_snapshot_entries(
            old(records).remaining(),
        ).unwrap(),
    decreases old(records).remaining().len(),
{
    let mut acc = acc;
    let ghost rem = records.remaining();
    match records.next() {
        None => {
            proof {
                assert(sentries_view(acc@) + Seq::<Seq<char>>::empty() =~= sentries_view(acc@));
            }
            Ok(acc)
        },
        Some(Err(e)) => Err(e),
        Some(Ok(rec)) => {
            proof {
                vstd::utf8::decode_utf8_encode_utf8(rem.first());
            }
            let bytes = rec.as_str().as_bytes_vec();
            match crate::json::parse_document(&bytes) {
                Err(e) => Err(e),
                Ok(ms) => {
                    match extract_snapshot_entry(&ms) {
                        Err(e) => Err(e),
                        Ok(entry) => {
                            let ghost ev = entry@;
                            acc.push(entry);
                            proof {
                                assert(sentries_view(acc@) =~= sentries_view(
                                    acc@.drop_last(),
                                ).push(ev));
                            }
                            let res = collect_snapshot_entries(records, acc);
                            proof {
                                if spec_snapshot_entries(rem.drop_first()) is Some {
                                    assert(sentries_view(acc@) + spec_snapshot_entries(
                                        rem.drop_first(),
                                    ).unwrap() =~= sentries_view(acc@.drop_last()) + (seq![ev]
                                        + spec_snapshot_entries(rem.drop_first()).unwrap()));
                                }
                            }
                            res
                        },
                    }
                },
            }
        },
    }
}

fn collect_delta_entries(records: &mut crate::jsonseq::JSONSequenceIterator, acc: Vec<
    NRTM4DeltaEntry,
>) -> (r: Result<Vec<NRTM4DeltaEntry>, NrtmError>)
    requires
        old(records).wf(),
    ensures
        final(records).wf(),
        r is Ok <==> spec_delta_entries(old(records).remaining()) is Some,
        r is Ok ==> dentries_view(r.unwrap()@) == dentries_view(acc@) + spec_delta_entries(
            old(records).remaining(),
        ).unwrap(),
    decreases old(records).remaining().len(),
{
    let mut acc = acc;
    let ghost rem = records.remaining();
    match records.next() {
        None => {
            proof {
                assert(dentries_view(acc@) + Seq::<DeltaEntryView>::empty() =~= dentries_view(
                    acc@,
                ));
            }
            Ok(acc)
        },
        Some(Err(e)) => Err(e),
        Some(Ok(rec)) => {
            proof {
                vstd::utf8::decode_utf8_encode_utf8(rem.first());
            }
            let bytes = rec.as_str().as_bytes_vec();
            match crate::json::parse_document(&bytes) {
                Err(e) => Err(e),
                Ok(ms) => {
                    match extract_delta_entry(&ms) {
                        Err(e) => Err(e),
                        Ok(entry) => {
                            let ghost ev = entry@;
                            acc.push(entry);
                            proof {
                                assert(dentries_view(acc@) =~= dentries_view(
                                    acc@.drop_last(),
                                ).push(ev));
                            }
                            let res = collect_delta_entries(records, acc);
                            proof {
                                if spec_delta_entries(rem.drop_first()) is Some {
                                    assert(dentries_view(acc@) + spec_delta_entries(
                                        rem.drop_first(),
                                    ).unwrap() =~= dentries_view(acc@.drop_last()) + (seq![ev]
                                        + spec_delta_entries(rem.drop_first()).unwrap()));
                                }
                            }
                            res
                        },
                    }
                },
            }
        },
    }
}

/// What a header record yields as a snapshot header.
pub open spec fn spec_snapshot_header_of(s: Seq<char>) -> Option<HeaderView> {
    match crate::json::spec_parse_document(vstd::utf8::encode_utf8(s)) {
        Some(ms) => spec_extract_header(ms, "snapshot"@),
        None => None,
    }
}

/// What a header record yields as a delta header.
pub open spec fn spec_delta_header_of(s: Seq<char>) -> Option<HeaderView> {
    match crate::json::spec_parse_document(vstd::utf8::encode_utf8(s)) {
        Some(ms) => spec_extract_header(ms, "delta"@),
        None => None,
    }
}

impl NRTM4SnapshotFile {
    /// Builds a snapshot document from its header record and the remaining
    /// entry records: the shared parse-header-then-validate-each-entry
    /// sequence, pulled one record at a time.
    pub fn from_header_and_records(
        header_content: String,
        records: &mut crate::jsonseq::JSONSequenceIterator,
    ) -> (r: Result<NRTM4SnapshotFile, NrtmError>)
        requires
            old(records).wf(),
        ensures
            final(records).wf(),
            r is Ok <==> (spec_snapshot_header_of(header_content@) is Some
                && spec_snapshot_entries(old(records).remaining()) is Some),
            r is Ok ==> r.unwrap().header@ == spec_snapshot_header_of(header_content@).unwrap()
                && sentries_view(r.unwrap().entries@) == spec_snapshot_entries(
                old(records).remaining(),
            ).unwrap(),
    {
        let hdr_bytes = header_content.as_str().as_bytes_vec();
        let ms = match crate::json::parse_document(&hdr_bytes) {
            Ok(ms) => ms,
            Err(e) => {
                return Err(e);
            },
        };
        let (nrtm_version, source, session_id, version) = match extract_header(&ms, "snapshot") {
            Ok(h) => h,
            Err(e) => {
                return Err(e);
            },
        };
        let header = NRTM4SnapshotHeader {
            nrtm_version,
            source,
            session_id,
            version,
            header_type: NRTM4SnapshotHeaderType::Snapshot,
        };
        let empty_acc: Vec<NRTM4SnapshotEntry> = Vec::new();
        proof {
            assert(sentries_view(empty_acc@) =~= Seq::<Seq<char>>::empty());
        }
        let entries = match collect_snapshot_entries(records, empty_acc) {
            Ok(es) => es,
            Err(e) => {
                return Err(e);
            },
        };
        proof {
            if spec_snapshot_entries(old(records).remaining()) is Some {
                assert(Seq::<Seq<char>>::empty() + spec_snapshot_entries(
                    old(records).remaining(),
                ).unwrap() =~= spec_snapshot_entries(old(records).remaining()).unwrap());
            }
        }
        Ok(NRTM4SnapshotFile { header, entries })
    }
}

impl NRTM4DeltaFile {
    /// Builds a delta document from its header record and the remaining
    /// entry records, keeping the entries in record order.
    pub fn from_header_and_records(
        header_content: String,
        records: &mut crate::jsonseq::JSONSequenceIterator,
    ) -> (r: Result<NRTM4DeltaFile, NrtmError>)
        requires
            old(records).wf(),
        ensures
            final(records).wf(),
            r is Ok <==> (spec_delta_header_of(header_content@) is Some && spec_delta_entries(
                old(records).remaining(),
            ) is Some),
            r is Ok ==> r.unwrap().header@ == spec_delta_header_of(header_content@).unwrap()
                && dentries_view(r.unwrap().entries@) == spec_delta_entries(
                old(records).remaining(),
            ).unwrap(),
    {
        let hdr_bytes = header_content.as_str().as_bytes_vec();
        let ms = match crate::json::parse_document(&hdr_bytes) {
            Ok(ms) => ms,
            Err(e) => {
                return Err(e);
            },
        };
        let (nrtm_version, source, session_id, version) = match extract_header(&ms, "delta") {
            Ok(h) => h,
            Err(e) => {
                return Err(e);
            },
        };
        let header = NRTM4DeltaHeader {
            nrtm_version,
            source,
            session_id,
            version,
            header_type: NRTM4DeltaHeaderType::Delta,
        };
        let empty_acc: Vec<NRTM4DeltaEntry> = Vec::new();
        proof {
            assert(dentries_view(empty_acc@) =~= Seq::<DeltaEntryView>::empty());
        }
        let entries = match collect_delta_entries(records, empty_acc) {
            Ok(es) => es,
            Err(e) => {
                return Err(e);
            },
        };
        proof {
            if spec_delta_entries(old(records).remaining()) is Some {
                assert(Seq::<DeltaEntryView>::empty() + spec_delta_entries(
                    old(records).remaining(),
                ).unwrap() =~= spec_delta_entries(old(records).remaining()).unwrap());
            }
        }
        Ok(NRTM4DeltaFile { header, entries })
    }
}

} // verus!
