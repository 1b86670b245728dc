//! Field-level validators shared by the schema and consistency layers:
//! the restricted identifier grammar for dataset names, the unique-identifier
//! format for sessions, locator checks, and the field-match rule that the
//! cross-document consistency state machine applies.

use vstd::prelude::*;
use vstd::string::StrSliceExecFns;
use vstd::string::StringExecFns;
use crate::errors::NrtmError;
use crate::json::str_eq;

verus! {

/// The version numbers form a strictly contiguous ascending run:
/// each element is exactly one more than the one before it.
pub open spec fn spec_contiguous(versions: Seq<u32>) -> bool {
    forall|i: int| 0 <= i && i + 1 < versions.len() ==> #[trigger] versions[i + 1] == versions[i] + 1
}

/// Decides whether a list of version numbers is a contiguous ascending run
/// with no gaps or repeats. An empty list is trivially contiguous.
pub fn is_contiguous_and_ordered(numbers: &[u32]) -> (r: bool)
    ensures
        r == spec_contiguous(numbers@),
{
    let n = numbers.len();
    if n == 0 {
        return true;
    }
    let mut i: usize = 0;
    while i + 1 < n
        invariant
            n == numbers@.len(),
            i < n,
            forall|j: int| 0 <= j && j + 1 <= i ==> #[trigger] numbers@[j + 1] == numbers@[j] + 1,
        decreases n - i,
    {
        if numbers[i + 1] as u64 != numbers[i] as u64 + 1 {
            return false;
        }
        i = i + 1;
    }
    true
}

pub open spec fn is_alpha_char(c: char) -> bool {
    (65 <= c as u32 && c as u32 <= 90) || (97 <= c as u32 && c as u32 <= 122)
}

pub open spec fn is_digit_char(c: char) -> bool {
    48 <= c as u32 && c as u32 <= 57
}

/// A character the dataset-identifier grammar admits after the first one.
pub open spec fn is_source_char(c: char) -> bool {
    is_alpha_char(c) || is_digit_char(c) || c as u32 == 45 || c as u32 == 95
}

/// The restricted identifier grammar for dataset names: a leading letter,
/// then letters, digits, hyphen or underscore, and no trailing separator.
pub open spec fn spec_source_ok(s: Seq<char>) -> bool {
    &&& s.len() >= 1
    &&& is_alpha_char(s[0])
    &&& forall|i: int| 0 <= i < s.len() ==> #[trigger] is_source_char(s[i])
    &&& s[s.len() - 1] as u32 != 45
    &&& s[s.len() - 1] as u32 != 95
}

/// Decides the dataset-identifier grammar, exactly.
pub fn validate_source(s: &str) -> (r: bool)
    ensures
        r == spec_source_ok(s@),
{
    let n = s.unicode_len();
    if n == 0 {
        return false;
    }
    let first = s.get_char(0);
    let fc = first as u32;
    if !((fc >= 65 && fc <= 90) || (fc >= 97 && fc <= 122)) {
        return false;
    }
    let mut i: usize = 0;
    while i < n
        invariant
            n == s@.len(),
            i <= n,
            forall|j: int| 0 <= j < i ==> #[trigger] is_source_char(s@[j]),
        decreases n - i,
    {
        let c = s.get_char(i) as u32;
        if !((c >= 65 && c <= 90) || (c >= 97 && c <= 122) || (c >= 48 && c <= 57) || c == 45 || c
            == 95) {
            proof {
                assert(!is_source_char(s@[i as int]));
            }
            return false;
        }
        i = i + 1;
    }
    let last = s.get_char(n - 1) as u32;
    if last == 45 || last == 95 {
        return false;
    }
    true
}

pub open spec fn is_hex_char(c: char) -> bool {
    is_digit_char(c) || (97 <= c as u32 && c as u32 <= 102) || (65 <= c as u32 && c as u32 <= 70)
}

/// The canonical hyphenated form of a unique identifier: five groups of
/// hexadecimal digits of lengths 8, 4, 4, 4 and 12. Only this rendering is
/// accepted; other textual forms of the same identifier are rejected as
/// malformed.
pub open spec fn spec_uuid_ok(s: Seq<char>) -> bool {
    &&& s.len() == 36
    &&& s[8] as u32 == 45
    &&& s[13] as u32 == 45
    &&& s[18] as u32 == 45
    &&& s[23] as u32 == 45
    &&& forall|i: int|
        0 <= i < 36 && i != 8 && i != 13 && i != 18 && i != 23 ==> #[trigger] is_hex_char(s[i])
}

/// Decides the unique-identifier format, exactly.
pub fn validate_uuid(s: &str) -> (r: bool)
    ensures
        r == spec_uuid_ok(s@),
{
    let n = s.unicode_len();
    if n != 36 {
        return false;
    }
    let mut i: usize = 0;
    while i < 36
        invariant
            n == s@.len(),
            n == 36,
            i <= 36,
            forall|j: int|
                0 <= j < i && j != 8 && j != 13 && j != 18 && j != 23 ==> #[trigger] is_hex_char(
                    s@[j],
                ),
            forall|j: int| 0 <= j < i && (j == 8 || j == 13 || j == 18 || j == 23) ==> s@[j] as u32
                == 45,
        decreases 36 - i,
    {
        let c = s.get_char(i) as u32;
        if i == 8 || i == 13 || i == 18 || i == 23 {
            if c != 45 {
                proof {
                    assert(s@[i as int] as u32 != 45);
                }
                return false;
            }
        } else {
            if !((c >= 48 && c <= 57) || (c >= 97 && c <= 102) || (c >= 65 && c <= 70)) {
                proof {
                    assert(!is_hex_char(s@[i as int]));
                }
                return false;
            }
        }
        i = i + 1;
    }
    true
}

/// Two characters equal up to ASCII letter case.
pub open spec fn chars_ci_equal(a: char, b: char) -> bool {
    a == b || (65 <= a as u32 && a as u32 <= 90 && b as u32 == a as u32 + 32) || (65 <= b as u32
        && b as u32 <= 90 && a as u32 == b as u32 + 32)
}

/// Two character sequences equal up to ASCII letter case.
pub open spec fn seq_ci_equal(x: Seq<char>, y: Seq<char>) -> bool {
    x.len() == y.len() && forall|i: int| 0 <= i < x.len() ==> #[trigger] chars_ci_equal(x[i], y[i])
}

/// Decides equality up to ASCII letter case, exactly. Session identifiers
/// compare this way: their hexadecimal digits carry no case.
pub fn str_ci_eq(a: &str, b: &str) -> (r: bool)
    ensures
        r == seq_ci_equal(a@, b@),
{
    let na = a.unicode_len();
    let nb = b.unicode_len();
    if na != nb {
        return false;
    }
    let mut i: usize = 0;
    while i < na
        invariant
            na == a@.len(),
            nb == b@.len(),
            na == nb,
            i <= na,
            forall|j: int| 0 <= j < i ==> #[trigger] chars_ci_equal(a@[j], b@[j]),
        decreases na - i,
    {
        let ca = a.get_char(i) as u32;
        let cb = b.get_char(i) as u32;
        if !(ca == cb || (65 <= ca && ca <= 90 && cb == ca + 32) || (65 <= cb && cb <= 90 && ca
            == cb + 32)) {
            proof {
                assert(!chars_ci_equal(a@[i as int], b@[i as int]));
            }
            return false;
        }
        i = i + 1;
    }
    true
}

/// `suffix` closes `s`.
pub open spec fn spec_ends_with(s: Seq<char>, suffix: Seq<char>) -> bool {
    suffix.len() <= s.len() && s.subrange(s.len() - suffix.len(), s.len() as int) == suffix
}

pub fn str_ends_with(s: &str, suffix: &str) -> (r: bool)
    ensures
        r == spec_ends_with(s@, suffix@),
{
    let n = s.unicode_len();
    let m = suffix.unicode_len();
    if m > n {
        return false;
    }
    let mut i: usize = 0;
    while i < m
        invariant
            n == s@.len(),
            m == suffix@.len(),
            m <= n,
            i <= m,
            forall|j: int| 0 <= j < i ==> s@[s@.len() - suffix@.len() + j] == suffix@[j],
        decreases m - i,
    {
        if s.get_char(n - m + i) != suffix.get_char(i) {
            proof {
                assert(s@.subrange(s@.len() - suffix@.len(), s@.len() as int)[i as int]
                    != suffix@[i as int]);
            }
            return false;
        }
        i = i + 1;
    }
    proof {
        assert(s@.subrange(s@.len() - suffix@.len(), s@.len() as int) =~= suffix@);
    }
    true
}

/// `sub` occurs somewhere in `s`.
pub open spec fn spec_contains_seq(s: Seq<char>, sub: Seq<char>) -> bool {
    exists|k: int|
        0 <= k && k + sub.len() <= s.len() && #[trigger] s.subrange(k, k + sub.len()) == sub
}

pub fn str_contains(s: &str, sub: &str) -> (r: bool)
    ensures
        r == spec_contains_seq(s@, sub@),
{
    let n = s.unicode_len();
    let m = sub.unicode_len();
    if m > n {
        return false;
    }
    if m == 0 {
        proof {
            assert(s@.subrange(0, 0 + sub@.len() as int) =~= sub@);
        }
        return true;
    }
    let mut k: usize = 0;
    while k <= n - m
        invariant
            n == s@.len(),
            m == sub@.len(),
            1 <= m <= n,
            k <= n - m + 1,
            forall|t: int|
                0 <= t < k ==> #[trigger] s@.subrange(t, t + sub@.len()) != sub@,
        decreases n - k,
    {
        let mut i: usize = 0;
        let mut matched = true;
        while matched && i < m
            invariant
                n == s@.len(),
                m == sub@.len(),
                k + m <= n,
                i <= m,
                matched ==> forall|j: int| 0 <= j < i ==> s@[k + j] == sub@[j],
                !matched ==> s@.subrange(k as int, k + sub@.len()) != sub@,
            decreases m - i + (if matched { 1int } else { 0int }),
        {
            if s.get_char(k + i) != sub.get_char(i) {
                proof {
                    assert(s@.subrange(k as int, k + sub@.len())[i as int] != sub@[i as int]);
                }
                matched = false;
            } else {
                i = i + 1;
            }
        }
        if matched {
            proof {
                assert(s@.subrange(k as int, k + sub@.len()) =~= sub@);
            }
            return true;
        }
        k = k + 1;
    }
    proof {
        assert forall|t: int| 0 <= t && t + sub@.len() <= s@.len() implies #[trigger] s@.subrange(
            t,
            t + sub@.len(),
        ) != sub@ by {
            assert(t < k);
        }
    }
    false
}

/// The secure transport scheme: the locator opens with `https://`, the
/// scheme letters in either case.
pub open spec fn spec_https_url(s: Seq<char>) -> bool {
    &&& s.len() >= 8
    &&& chars_ci_equal(s[0], 'h')
    &&& chars_ci_equal(s[1], 't')
    &&& chars_ci_equal(s[2], 't')
    &&& chars_ci_equal(s[3], 'p')
    &&& chars_ci_equal(s[4], 's')
    &&& s[5] as u32 == 58
    &&& s[6] as u32 == 47
    &&& s[7] as u32 == 47
}

/// Decides the secure-scheme rule on a locator, exactly.
pub fn validate_url(url: &str) -> (r: bool)
    ensures
        r == spec_https_url(url@),
{
    let n = url.unicode_len();
    if n < 8 {
        return false;
    }
    let c0 = url.get_char(0) as u32;
    let c1 = url.get_char(1) as u32;
    let c2 = url.get_char(2) as u32;
    let c3 = url.get_char(3) as u32;
    let c4 = url.get_char(4) as u32;
    let c5 = url.get_char(5) as u32;
    let c6 = url.get_char(6) as u32;
    let c7 = url.get_char(7) as u32;
    (c0 == 104 || c0 == 72) && (c1 == 116 || c1 == 84) && (c2 == 116 || c2 == 84) && (c3 == 112
        || c3 == 80) && (c4 == 115 || c4 == 83) && c5 == 58 && c6 == 47 && c7 == 47
}

/// End of the path part: the position of the first `?` or `#`, or the end.
pub open spec fn spec_path_end(s: Seq<char>, i: int) -> int
    recommends
        0 <= i <= s.len(),
    decreases s.len() - i,
        when 0 <= i <= s.len()
{
    if i >= s.len() {
        i
    } else if s[i] as u32 == 63 || s[i] as u32 == 35 {
        i
    } else {
        spec_path_end(s, i + 1)
    }
}

fn path_end(s: &str, i: usize, n: usize) -> (r: usize)
    requires
        i <= s@.len(),
        n == s@.len(),
    ensures
        r == spec_path_end(s@, i as int),
        i <= r <= s@.len(),
    decreases s@.len() - i,
{
    if i >= n {
        i
    } else {
        let c = s.get_char(i) as u32;
        if c == 63 || c == 35 {
            i
        } else {
            path_end(s, i + 1, n)
        }
    }
}

/// Start of the last path segment before `end`: the position just after the
/// last `/` strictly before `end`, or zero.
pub open spec fn spec_seg_start(s: Seq<char>, end: int) -> int
    recommends
        0 <= end <= s.len(),
    decreases end,
        when 0 <= end <= s.len()
{
    if end <= 0 {
        0
    } else if s[end - 1] as u32 == 47 {
        end
    } else {
        spec_seg_start(s, end - 1)
    }
}

fn seg_start(s: &str, end: usize) -> (r: usize)
    requires
        end <= s@.len(),
    ensures
        r == spec_seg_start(s@, end as int),
        r <= end,
    decreases end,
{
    if end == 0 {
        0
    } else if s.get_char(end - 1) as u32 == 47 {
        end
    } else {
        seg_start(s, end - 1)
    }
}

/// The notification locator is acceptable exactly when it uses the secure
/// scheme, carries a non-empty authority followed by a path, and the last
/// path segment — never the authority itself — is the well-known filename.
pub open spec fn spec_unf_url_ok(s: Seq<char>, well_known: Seq<char>) -> bool {
    &&& spec_https_url(s)
    &&& ({
        let pe = spec_path_end(s, 0);
        let ss = spec_seg_start(s, pe);
        ss > 8 && s[8] as u32 != 47 && s.subrange(ss, pe) == well_known
    })
}

/// Validates the notification document's locator before any network
/// activity: secure scheme, a non-empty authority, and the well-known
/// filename as its last path segment (the authority itself is no
/// segment). Returns the locator unchanged on success.
pub fn parse_validate_unf_url(unf_url: &str, well_known: &str) -> (r: Result<String, NrtmError>)
    ensures
        r is Ok <==> spec_unf_url_ok(unf_url@, well_known@),
        r is Ok ==> r.unwrap()@ == unf_url@,
        r is Err ==> r->Err_0 == NrtmError::BadNotificationUrl,
{
    if !validate_url(unf_url) {
        return Err(NrtmError::BadNotificationUrl);
    }
    let n = unf_url.unicode_len();
    let pe = path_end(unf_url, 0, n);
    let ss = seg_start(unf_url, pe);
    if ss <= 8 {
        return Err(NrtmError::BadNotificationUrl);
    }
    if unf_url.get_char(8) as u32 == 47 {
        return Err(NrtmError::BadNotificationUrl);
    }
    let seg = unf_url.substring_char(ss, pe);
    if str_eq(seg, well_known) {
        Ok(unf_url.to_owned())
    } else {
        Err(NrtmError::BadNotificationUrl)
    }
}

/// Joins a referenced locator against the notification's own locator: an
/// absolute reference (one carrying `://`) stands as it is; any other
/// replaces everything after the last `/` of the notification's path.
pub fn replace_filename_in_url(unf_url: &str, target: &str) -> (r: String)
    ensures
        spec_contains_seq(target@, "://"@) ==> r@ == target@,
        !spec_contains_seq(target@, "://"@) ==> r@ == unf_url@.subrange(
            0,
            spec_seg_start(unf_url@, spec_path_end(unf_url@, 0)),
        ) + target@,
{
    if str_contains(target, "://") {
        return target.to_owned();
    }
    let n = unf_url.unicode_len();
    let pe = path_end(unf_url, 0, n);
    let ss = seg_start(unf_url, pe);
    let mut out = unf_url.substring_char(0, ss).to_owned();
    out.append(target);
    out
}

/// Relies on pem::parse: whether the text is one well-formed PEM block and,
/// if so, which tag it carries; the result depends on the text alone.
pub uninterp spec fn pem_tag_of(input: Seq<char>) -> Option<Seq<char>>;

#[verifier::external_body]
fn parse_pem_tag(input: &str) -> (r: Option<String>)
    ensures
        r is Some <==> pem_tag_of(input@) is Some,
        r is Some ==> r.unwrap()@ == pem_tag_of(input@).unwrap(),
{
    match pem::parse(input) {
        Ok(p) => Some(p.tag().to_string()),
        Err(_) => None,
    }
}

/// Accepts exactly the PEM blocks tagged as public keys, and hands the
/// input back unchanged; anything else is a configuration error.
pub fn validate_pem(input: &str) -> (r: Result<String, NrtmError>)
    ensures
        r is Ok <==> (pem_tag_of(input@) is Some && pem_tag_of(input@).unwrap() == "PUBLIC KEY"@),
        r is Ok ==> r.unwrap()@ == input@,
        r is Err ==> r->Err_0 == NrtmError::BadPem,
{
    match parse_pem_tag(input) {
        None => Err(NrtmError::BadPem),
        Some(tag) => {
            if str_eq(tag.as_str(), "PUBLIC KEY") {
                Ok(input.to_owned())
            } else {
                Err(NrtmError::BadPem)
            }
        },
    }
}

/// The trust-anchor rule of the envelope scheme: the verification key must
/// be a public-key PEM block.
pub fn validate_signing_key(signing_key: &str) -> (r: Result<(), NrtmError>)
    ensures
        r is Ok <==> (pem_tag_of(signing_key@) is Some && pem_tag_of(signing_key@).unwrap()
            == "PUBLIC KEY"@),
        r is Err ==> r->Err_0 == NrtmError::BadPem,
{
    match validate_pem(signing_key) {
        Ok(_) => Ok(()),
        Err(e) => Err(e),
    }
}

/// The consistency rule for one text field: a snapshot or delta header
/// field must equal the notification's, character for character.
pub fn check_consistency(in_subfile: &str, in_unf: &str, field_human_name: &str, file_human_name:
    &str) -> (r: Result<(), NrtmError>)
    ensures
        r is Ok <==> in_subfile@ == in_unf@,
        r is Err ==> (r->Err_0 matches NrtmError::ConsistencyMismatch {
            field,
            file,
            found,
            expected,
        } && field@ == field_human_name@ && file@ == file_human_name@ && found@ == in_subfile@
            && expected@ == in_unf@),
{
    if str_eq(in_subfile, in_unf) {
        Ok(())
    } else {
        Err(
            NrtmError::ConsistencyMismatch {
                field: field_human_name.to_owned(),
                file: file_human_name.to_owned(),
                found: in_subfile.to_owned(),
                expected: in_unf.to_owned(),
            },
        )
    }
}

/// The consistency rule for one version field: a header version must equal
/// the version the notification declared for that resource.
pub fn check_version_consistency(found: u32, expected: u32, file_human_name: &str) -> (r: Result<
    (),
    NrtmError,
>)
    ensures
        r is Ok <==> found == expected,
        r is Err ==> (r->Err_0 matches NrtmError::VersionMismatch {
            file,
            found_version,
            expected_version,
        } && file@ == file_human_name@ && found_version == found && expected_version == expected),
{
    if found == expected {
        Ok(())
    } else {
        Err(
            NrtmError::VersionMismatch {
                file: file_human_name.to_owned(),
                found_version: found,
                expected_version: expected,
            },
        )
    }
}

} // verus!
