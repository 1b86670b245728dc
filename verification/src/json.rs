//! Parser for the document records of the wire format. Every record is a
//! JSON object whose values are scalars (null, booleans, unsigned integers,
//! strings), flat objects of scalars, or arrays of such flat objects — the
//! only shapes the protocol's documents use. Deeper nesting is rejected.
//!
//! Each executable parser is specified exactly by a spec-level mirror over
//! the record's UTF-8 bytes; the mirrors are the authoritative grammar.

use vstd::prelude::*;
use vstd::utf8::valid_utf8;
use vstd::utf8::decode_utf8;
use vstd::utf8::encode_scalar;
use vstd::utf8::is_scalar;
use crate::errors::NrtmError;
use crate::jsonseq::bytes_to_string;

verus! {

/// A scalar JSON value.
#[derive(Debug)]
pub enum JsonValue {
    Null,
    Bool(bool),
    UInt(u64),
    Str(String),
}

/// The mathematical shape of a scalar value.
pub enum JsonView {
    Null,
    Bool(bool),
    UInt(u64),
    Str(Seq<char>),
}

/// The view of a scalar value: strings become character sequences.
pub open spec fn jv_view(v: JsonValue) -> JsonView {
    match v {
        JsonValue::Null => JsonView::Null,
        JsonValue::Bool(b) => JsonView::Bool(b),
        JsonValue::UInt(n) => JsonView::UInt(n),
        JsonValue::Str(s) => JsonView::Str(s@),
    }
}

/// A member value of a document object: a scalar, a flat object of scalars,
/// or an array of flat objects — the only shapes the documents use. Deeper
/// nesting is outside the wire format and is rejected.
#[derive(Debug)]
pub enum DocValue {
    Scalar(JsonValue),
    Object(Vec<(String, JsonValue)>),
    Array(Vec<Vec<(String, JsonValue)>>),
}

/// The mathematical shape of a member value.
pub enum DocValueView {
    Scalar(JsonView),
    Object(Seq<(Seq<char>, JsonView)>),
    Array(Seq<Seq<(Seq<char>, JsonView)>>),
}

/// The view of a flat object's member list.
pub open spec fn members_view(ms: Seq<(String, JsonValue)>) -> Seq<(Seq<char>, JsonView)> {
    ms.map_values(|m: (String, JsonValue)| (m.0@, jv_view(m.1)))
}

pub open spec fn dv_view(v: DocValue) -> DocValueView {
    match v {
        DocValue::Scalar(sc) => DocValueView::Scalar(jv_view(sc)),
        DocValue::Object(ms) => DocValueView::Object(members_view(ms@)),
        DocValue::Array(items) => DocValueView::Array(
            items@.map_values(|ms: Vec<(String, JsonValue)>| members_view(ms@)),
        ),
    }
}

/// The view of a whole document: its member list, in record order.
pub open spec fn doc_view(ms: Seq<(String, DocValue)>) -> Seq<(Seq<char>, DocValueView)> {
    ms.map_values(|m: (String, DocValue)| (m.0@, dv_view(m.1)))
}

/// JSON insignificant whitespace.
pub open spec fn is_ws(b: u8) -> bool {
    b == 0x20 || b == 0x09 || b == 0x0a || b == 0x0d
}

pub open spec fn is_digit(b: u8) -> bool {
    0x30 <= b <= 0x39
}

/// First position at or after `i` holding no insignificant whitespace.
pub open spec fn spec_skip_ws(s: Seq<u8>, i: int) -> int
    recommends
        0 <= i <= s.len(),
    decreases s.len() - i,
        when 0 <= i <= s.len()
{
    if i >= s.len() {
        i
    } else if is_ws(s[i]) {
        spec_skip_ws(s, i + 1)
    } else {
        i
    }
}

pub proof fn lemma_skip_ws_bounds(s: Seq<u8>, i: int)
    requires
        0 <= i <= s.len(),
    ensures
        i <= spec_skip_ws(s, i) <= s.len(),
    decreases s.len() - i,
{
    if i < s.len() && is_ws(s[i]) {
        lemma_skip_ws_bounds(s, i + 1);
    }
}

fn skip_ws(s: &Vec<u8>, i: usize) -> (r: usize)
    requires
        i <= s@.len(),
    ensures
        r == spec_skip_ws(s@, i as int),
        i <= r <= s@.len(),
    decreases s@.len() - i,
{
    if i >= s.len() {
        i
    } else {
        let b = s[i];
        if b == 0x20 || b == 0x09 || b == 0x0a || b == 0x0d {
            skip_ws(s, i + 1)
        } else {
            i
        }
    }
}

/// Accumulates decimal digits into `acc`; fails only on overflow of the
/// 64-bit range. Stops at the first non-digit.
pub open spec fn spec_digits(s: Seq<u8>, i: int, acc: u64) -> Option<(u64, int)>
    recommends
        0 <= i <= s.len(),
    decreases s.len() - i,
        when 0 <= i <= s.len()
{
    if i >= s.len() || !is_digit(s[i]) {
        Some((acc, i))
    } else {
        let d = (s[i] - 0x30) as u64;
        if acc * 10 + d > u64::MAX {
            None
        } else {
            spec_digits(s, i + 1, (acc * 10 + d) as u64)
        }
    }
}

pub proof fn lemma_digits_bounds(s: Seq<u8>, i: int, acc: u64)
    requires
        0 <= i <= s.len(),
    ensures
        spec_digits(s, i, acc) is Some ==> i <= spec_digits(s, i, acc).unwrap().1 <= s.len(),
        spec_digits(s, i, acc) is Some && i < s.len() && is_digit(s[i]) ==> i < spec_digits(
            s,
            i,
            acc,
        ).unwrap().1,
    decreases s.len() - i,
{
    if i >= s.len() || !is_digit(s[i]) {
    } else {
        let d = (s[i] - 0x30) as u64;
        if acc * 10 + d <= u64::MAX {
            lemma_digits_bounds(s, i + 1, (acc * 10 + d) as u64);
        }
    }
}

fn parse_digits(s: &Vec<u8>, i: usize, acc: u64) -> (r: Result<(u64, usize), NrtmError>)
    requires
        i <= s@.len(),
    ensures
        r is Ok <==> spec_digits(s@, i as int, acc) is Some,
        r is Ok ==> spec_digits(s@, i as int, acc) == Some(
            (r.unwrap().0, r.unwrap().1 as int),
        ),
        r is Ok ==> i <= r.unwrap().1 <= s@.len(),
        r is Err ==> r->Err_0 == NrtmError::JsonSyntax,
    decreases s@.len() - i,
{
    if i >= s.len() {
        return Ok((acc, i));
    }
    let b = s[i];
    if b < 0x30 || b > 0x39 {
        return Ok((acc, i));
    }
    let d = (b - 0x30) as u64;
    match acc.checked_mul(10) {
        None => Err(NrtmError::JsonSyntax),
        Some(m) => match m.checked_add(d) {
            None => Err(NrtmError::JsonSyntax),
            Some(v) => parse_digits(s, i + 1, v),
        },
    }
}

/// A JSON number restricted to the unsigned integers the documents carry:
/// one or more digits, no leading zero, no sign, fraction, or exponent.
pub open spec fn spec_parse_uint(s: Seq<u8>, i: int) -> Option<(u64, int)>
    recommends
        0 <= i <= s.len(),
{
    if i >= s.len() || !is_digit(s[i]) {
        None
    } else if s[i] == 0x30 && i + 1 < s.len() && is_digit(s[i + 1]) {
        None
    } else {
        match spec_digits(s, i, 0u64) {
            None => None,
            Some((v, j)) => {
                if j < s.len() && (s[j] == 0x2e || s[j] == 0x65 || s[j] == 0x45) {
                    None
                } else {
                    Some((v, j))
                }
            },
        }
    }
}

pub proof fn lemma_parse_uint_bounds(s: Seq<u8>, i: int)
    requires
        0 <= i <= s.len(),
    ensures
        spec_parse_uint(s, i) is Some ==> i < spec_parse_uint(s, i).unwrap().1 <= s.len(),
{
    if spec_parse_uint(s, i) is Some {
        lemma_digits_bounds(s, i, 0u64);
    }
}

fn parse_uint(s: &Vec<u8>, i: usize) -> (r: Result<(u64, usize), NrtmError>)
    requires
        i <= s@.len(),
    ensures
        r is Ok <==> spec_parse_uint(s@, i as int) is Some,
        r is Ok ==> spec_parse_uint(s@, i as int) == Some((r.unwrap().0, r.unwrap().1 as int)),
        r is Ok ==> i < r.unwrap().1 <= s@.len(),
        r is Err ==> r->Err_0 == NrtmError::JsonSyntax,
{
    if i >= s.len() {
        return Err(NrtmError::JsonSyntax);
    }
    let b = s[i];
    if b < 0x30 || b > 0x39 {
        return Err(NrtmError::JsonSyntax);
    }
    if b == 0x30 && i + 1 < s.len() {
        let b2 = s[i + 1];
        if b2 >= 0x30 && b2 <= 0x39 {
            return Err(NrtmError::JsonSyntax);
        }
    }
    match parse_digits(s, i, 0) {
        Err(e) => Err(e),
        Ok((v, j)) => {
            proof {
                lemma_parse_uint_bounds(s@, i as int);
            }
            if j < s.len() {
                let t = s[j];
                if t == 0x2e || t == 0x65 || t == 0x45 {
                    return Err(NrtmError::JsonSyntax);
                }
            }
            Ok((v, j))
        },
    }
}

/// Value of one hexadecimal digit byte.
pub open spec fn spec_hex_val(b: u8) -> Option<u32> {
    if 0x30 <= b <= 0x39 {
        Some((b - 0x30) as u32)
    } else if 0x61 <= b <= 0x66 {
        Some((b - 0x61 + 10) as u32)
    } else if 0x41 <= b <= 0x46 {
        Some((b - 0x41 + 10) as u32)
    } else {
        None
    }
}

/// Four hexadecimal digits starting at `i`.
pub open spec fn spec_hex4(s: Seq<u8>, i: int) -> Option<u32> {
    if i < 0 || i + 4 > s.len() {
        None
    } else {
        match (spec_hex_val(s[i]), spec_hex_val(s[i + 1]), spec_hex_val(s[i + 2]), spec_hex_val(
            s[i + 3],
        )) {
            (Some(a), Some(b), Some(c), Some(d)) => Some(
                ((a * 4096 + b * 256 + c * 16 + d)) as u32,
            ),
            _ => None,
        }
    }
}

fn hex_val(b: u8) -> (r: Option<u32>)
    ensures
        r == spec_hex_val(b),
{
    if b >= 0x30 && b <= 0x39 {
        Some((b - 0x30) as u32)
    } else if b >= 0x61 && b <= 0x66 {
        Some((b - 0x61 + 10) as u32)
    } else if b >= 0x41 && b <= 0x46 {
        Some((b - 0x41 + 10) as u32)
    } else {
        None
    }
}

fn hex4(s: &Vec<u8>, i: usize) -> (r: Option<u32>)
    requires
        i <= s@.len(),
    ensures
        r == spec_hex4(s@, i as int),
        r is Some ==> r.unwrap() < 0x10000,
{
    if s.len() < 4 || i > s.len() - 4 {
        return None;
    }
    match (hex_val(s[i]), hex_val(s[i + 1]), hex_val(s[i + 2]), hex_val(s[i + 3])) {
        (Some(a), Some(b), Some(c), Some(d)) => Some(a * 4096 + b * 256 + c * 16 + d),
        _ => None,
    }
}

/// Appends the UTF-8 encoding of a Unicode scalar value.
fn push_utf8(out: &mut Vec<u8>, scalar: u32)
    requires
        is_scalar(scalar),
    ensures
        final(out)@ == old(out)@ + encode_scalar(scalar),
{
    if scalar < 0x80 {
        out.push((scalar & 0x7F) as u8);
        assert(final(out)@ =~= old(out)@ + encode_scalar(scalar));
    } else if scalar < 0x800 {
        out.push(0xC0 | ((scalar >> 6) & 0x1F) as u8);
        out.push(0x80 | (scalar & 0x3F) as u8);
        assert(final(out)@ =~= old(out)@ + encode_scalar(scalar));
    } else if scalar < 0x10000 {
        out.push(0xE0 | ((scalar >> 12) & 0x0F) as u8);
        out.push(0x80 | ((scalar >> 6) & 0x3F) as u8);
        out.push(0x80 | (scalar & 0x3F) as u8);
        assert(final(out)@ =~= old(out)@ + encode_scalar(scalar));
    } else {
        out.push(0xF0 | ((scalar >> 18) & 0x7) as u8);
        out.push(0x80 | ((scalar >> 12) & 0x3F) as u8);
        out.push(0x80 | ((scalar >> 6) & 0x3F) as u8);
        out.push(0x80 | (scalar & 0x3F) as u8);
        assert(final(out)@ =~= old(out)@ + encode_scalar(scalar));
    }
}

/// The body of a JSON string from position `i` (just after the opening
/// quote), unescaped into raw UTF-8 bytes. Control bytes must be escaped;
/// the short escapes and \uXXXX (with surrogate pairs) are recognised.
pub open spec fn spec_string_bytes(s: Seq<u8>, i: int, acc: Seq<u8>) -> Option<(Seq<u8>, int)>
    recommends
        0 <= i <= s.len(),
    decreases s.len() - i,
        when 0 <= i <= s.len()
{
    if i >= s.len() {
        None
    } else if s[i] == 0x22 {
        Some((acc, i + 1))
    } else if s[i] == 0x5c {
        if i + 1 >= s.len() {
            None
        } else {
            let e = s[i + 1];
            if e == 0x22 || e == 0x5c || e == 0x2f {
                spec_string_bytes(s, i + 2, acc.push(e))
            } else if e == 0x62 {
                spec_string_bytes(s, i + 2, acc.push(0x08u8))
            } else if e == 0x66 {
                spec_string_bytes(s, i + 2, acc.push(0x0cu8))
            } else if e == 0x6e {
                spec_string_bytes(s, i + 2, acc.push(0x0au8))
            } else if e == 0x72 {
                spec_string_bytes(s, i + 2, acc.push(0x0du8))
            } else if e == 0x74 {
                spec_string_bytes(s, i + 2, acc.push(0x09u8))
            } else if e == 0x75 {
                match spec_hex4(s, i + 2) {
                    None => None,
                    Some(cp) => {
                        if 0xD800 <= cp < 0xDC00 {
                            if i + 8 + 4 <= s.len() && s[i + 6] == 0x5c && s[i + 7] == 0x75 {
                                match spec_hex4(s, i + 8) {
                                    None => None,
                                    Some(cp2) => {
                                        if 0xDC00 <= cp2 < 0xE000 {
                                            spec_string_bytes(
                                                s,
                                                i + 12,
                                                acc + encode_scalar(
                                                    (0x10000 + (cp - 0xD800) * 0x400 + (cp2
                                                        - 0xDC00)) as u32,
                                                ),
                                            )
                                        } else {
                                            None
                                        }
                                    },
                                }
                            } else {
                                None
                            }
                        } else if 0xDC00 <= cp < 0xE000 {
                            None
                        } else {
                            spec_string_bytes(s, i + 6, acc + encode_scalar(cp))
                        }
                    },
                }
            } else {
                None
            }
        }
    } else if s[i] < 0x20 {
        None
    } else {
        spec_string_bytes(s, i + 1, acc.push(s[i]))
    }
}

pub proof fn lemma_string_bytes_bounds(s: Seq<u8>, i: int, acc: Seq<u8>)
    requires
        0 <= i <= s.len(),
    ensures
        spec_string_bytes(s, i, acc) is Some ==> i < spec_string_bytes(s, i, acc).unwrap().1
            <= s.len(),
    decreases s.len() - i,
{
    if i >= s.len() {
    } else if s[i] == 0x22 {
    } else if s[i] == 0x5c {
        if i + 1 < s.len() {
            let e = s[i + 1];
            if e == 0x22 || e == 0x5c || e == 0x2f {
                lemma_string_bytes_bounds(s, i + 2, acc.push(e));
            } else if e == 0x62 {
                lemma_string_bytes_bounds(s, i + 2, acc.push(0x08u8));
            } else if e == 0x66 {
                lemma_string_bytes_bounds(s, i + 2, acc.push(0x0cu8));
            } else if e == 0x6e {
                lemma_string_bytes_bounds(s, i + 2, acc.push(0x0au8));
            } else if e == 0x72 {
                lemma_string_bytes_bounds(s, i + 2, acc.push(0x0du8));
            } else if e == 0x74 {
                lemma_string_bytes_bounds(s, i + 2, acc.push(0x09u8));
            } else if e == 0x75 {
                match spec_hex4(s, i + 2) {
                    None => {},
                    Some(cp) => {
                        if 0xD800 <= cp < 0xDC00 {
                            if i + 8 + 4 <= s.len() && s[i + 6] == 0x5c && s[i + 7] == 0x75 {
                                match spec_hex4(s, i + 8) {
                                    None => {},
                                    Some(cp2) => {
                                        if 0xDC00 <= cp2 < 0xE000 {
                                            lemma_string_bytes_bounds(
                                                s,
                                                i + 12,
                                                acc + encode_scalar(
                                                    (0x10000 + (cp - 0xD800) * 0x400 + (cp2
                                                        - 0xDC00)) as u32,
                                                ),
                                            );
                                        }
                                    },
                                }
                            }
                        } else if 0xDC00 <= cp < 0xE000 {
                        } else {
                            lemma_string_bytes_bounds(s, i + 6, acc + encode_scalar(cp));
                        }
                    },
                }
            }
        }
    } else if s[i] < 0x20 {
    } else {
        lemma_string_bytes_bounds(s, i + 1, acc.push(s[i]));
    }
}

fn parse_string_bytes(s: &Vec<u8>, i: usize, acc: Vec<u8>) -> (r: Result<
    (Vec<u8>, usize),
    NrtmError,
>)
    requires
        i <= s@.len(),
    ensures
        r is Ok <==> spec_string_bytes(s@, i as int, acc@) is Some,
        r is Ok ==> spec_string_bytes(s@, i as int, acc@) == Some(
            (r.unwrap().0@, r.unwrap().1 as int),
        ),
        r is Ok ==> i < r.unwrap().1 <= s@.len(),
        r is Err ==> r->Err_0 == NrtmError::JsonSyntax,
    decreases s@.len() - i,
{
    let mut acc = acc;
    if i >= s.len() {
        return Err(NrtmError::JsonSyntax);
    }
    let b = s[i];
    if b == 0x22 {
        return Ok((acc, i + 1));
    }
    if b == 0x5c {
        if i + 1 >= s.len() {
            return Err(NrtmError::JsonSyntax);
        }
        let e = s[i + 1];
        if e == 0x22 || e == 0x5c || e == 0x2f {
            acc.push(e);
            return parse_string_bytes(s, i + 2, acc);
        } else if e == 0x62 {
            acc.push(0x08);
            return parse_string_bytes(s, i + 2, acc);
        } else if e == 0x66 {
            acc.push(0x0c);
            return parse_string_bytes(s, i + 2, acc);
        } else if e == 0x6e {
            acc.push(0x0a);
            return parse_string_bytes(s, i + 2, acc);
        } else if e == 0x72 {
            acc.push(0x0d);
            return parse_string_bytes(s, i + 2, acc);
        } else if e == 0x74 {
            acc.push(0x09);
            return parse_string_bytes(s, i + 2, acc);
        } else if e == 0x75 {
            match hex4(s, if i + 2 <= s.len() { i + 2 } else { s.len() }) {
                None => Err(NrtmError::JsonSyntax),
                Some(cp) => {
                    if 0xD800 <= cp && cp < 0xDC00 {
                        if s.len() - i >= 12 && s[i + 6] == 0x5c && s[i + 7] == 0x75 {
                            match hex4(s, i + 8) {
                                None => Err(NrtmError::JsonSyntax),
                                Some(cp2) => {
                                    if 0xDC00 <= cp2 && cp2 < 0xE000 {
                                        let scalar = 0x10000 + (cp - 0xD800) * 0x400 + (cp2
                                            - 0xDC00);
                                        push_utf8(&mut acc, scalar);
                                        parse_string_bytes(s, i + 12, acc)
                                    } else {
                                        Err(NrtmError::JsonSyntax)
                                    }
                                },
                            }
                        } else {
                            Err(NrtmError::JsonSyntax)
                        }
                    } else if 0xDC00 <= cp && cp < 0xE000 {
                        Err(NrtmError::JsonSyntax)
                    } else {
                        push_utf8(&mut acc, cp);
                        parse_string_bytes(s, i + 6, acc)
                    }
                },
            }
        } else {
            Err(NrtmError::JsonSyntax)
        }
    } else if b < 0x20 {
        Err(NrtmError::JsonSyntax)
    } else {
        acc.push(b);
        parse_string_bytes(s, i + 1, acc)
    }
}

/// A complete JSON string at position `i` (at the opening quote), decoded
/// strictly as UTF-8 after unescaping.
pub open spec fn spec_parse_string(s: Seq<u8>, i: int) -> Option<(Seq<char>, int)>
    recommends
        0 <= i <= s.len(),
{
    if i >= s.len() || s[i] != 0x22 {
        None
    } else {
        match spec_string_bytes(s, i + 1, Seq::empty()) {
            None => None,
            Some((bytes, j)) => {
                if valid_utf8(bytes) {
                    Some((decode_utf8(bytes), j))
                } else {
                    None
                }
            },
        }
    }
}

pub proof fn lemma_parse_string_bounds(s: Seq<u8>, i: int)
    requires
        0 <= i <= s.len(),
    ensures
        spec_parse_string(s, i) is Some ==> i < spec_parse_string(s, i).unwrap().1 <= s.len(),
{
    if spec_parse_string(s, i) is Some {
        lemma_string_bytes_bounds(s, i + 1, Seq::empty());
    }
}

fn parse_string(s: &Vec<u8>, i: usize) -> (r: Result<(String, usize), NrtmError>)
    requires
        i <= s@.len(),
    ensures
        r is Ok <==> spec_parse_string(s@, i as int) is Some,
        r is Ok ==> spec_parse_string(s@, i as int) == Some(
            (r.unwrap().0@, r.unwrap().1 as int),
        ),
        r is Ok ==> i < r.unwrap().1 <= s@.len(),
        r is Err ==> r->Err_0 == NrtmError::JsonSyntax,
{
    if i >= s.len() {
        return Err(NrtmError::JsonSyntax);
    }
    if s[i] != 0x22 {
        return Err(NrtmError::JsonSyntax);
    }
    let empty_acc: Vec<u8> = Vec::new();
    match parse_string_bytes(s, i + 1, empty_acc) {
        Err(e) => Err(e),
        Ok((bytes, j)) => {
            proof {
                lemma_string_bytes_bounds(s@, i as int + 1, Seq::empty());
            }
            match bytes_to_string(bytes) {
                None => Err(NrtmError::JsonSyntax),
                Some(text) => Ok((text, j)),
            }
        },
    }
}


/// A scalar value at position `i`: a string, an unsigned integer, or one of
/// the literals null, true, false.
pub open spec fn spec_parse_scalar(s: Seq<u8>, i: int) -> Option<(JsonView, int)>
    recommends
        0 <= i <= s.len(),
{
    if i >= s.len() {
        None
    } else if s[i] == 0x22 {
        match spec_parse_string(s, i) {
            None => None,
            Some((cs, j)) => Some((JsonView::Str(cs), j)),
        }
    } else if is_digit(s[i]) {
        match spec_parse_uint(s, i) {
            None => None,
            Some((v, j)) => Some((JsonView::UInt(v), j)),
        }
    } else if s[i] == 0x6e {
        if i + 4 <= s.len() && s[i + 1] == 0x75 && s[i + 2] == 0x6c && s[i + 3] == 0x6c {
            Some((JsonView::Null, i + 4))
        } else {
            None
        }
    } else if s[i] == 0x74 {
        if i + 4 <= s.len() && s[i + 1] == 0x72 && s[i + 2] == 0x75 && s[i + 3] == 0x65 {
            Some((JsonView::Bool(true), i + 4))
        } else {
            None
        }
    } else if s[i] == 0x66 {
        if i + 5 <= s.len() && s[i + 1] == 0x61 && s[i + 2] == 0x6c && s[i + 3] == 0x73 && s[i + 4]
            == 0x65 {
            Some((JsonView::Bool(false), i + 5))
        } else {
            None
        }
    } else {
        None
    }
}

pub proof fn lemma_parse_scalar_bounds(s: Seq<u8>, i: int)
    requires
        0 <= i <= s.len(),
    ensures
        spec_parse_scalar(s, i) is Some ==> i < spec_parse_scalar(s, i).unwrap().1 <= s.len(),
{
    lemma_parse_string_bounds(s, i);
    lemma_parse_uint_bounds(s, i);
}

fn parse_scalar(s: &Vec<u8>, i: usize) -> (r: Result<(JsonValue, usize), NrtmError>)
    requires
        i <= s@.len(),
    ensures
        r is Ok <==> spec_parse_scalar(s@, i as int) is Some,
        r is Ok ==> spec_parse_scalar(s@, i as int) == Some(
            (jv_view(r.unwrap().0), r.unwrap().1 as int),
        ),
        r is Ok ==> i < r.unwrap().1 <= s@.len(),
        r is Err ==> r->Err_0 == NrtmError::JsonSyntax,
{
    if i >= s.len() {
        return Err(NrtmError::JsonSyntax);
    }
    let b = s[i];
    if b == 0x22 {
        match parse_string(s, i) {
            Err(e) => Err(e),
            Ok((text, j)) => Ok((JsonValue::Str(text), j)),
        }
    } else if b >= 0x30 && b <= 0x39 {
        match parse_uint(s, i) {
            Err(e) => Err(e),
            Ok((v, j)) => Ok((JsonValue::UInt(v), j)),
        }
    } else if b == 0x6e {
        if s.len() - i >= 4 && s[i + 1] == 0x75 && s[i + 2] == 0x6c && s[i + 3] == 0x6c {
            Ok((JsonValue::Null, i + 4))
        } else {
            Err(NrtmError::JsonSyntax)
        }
    } else if b == 0x74 {
        if s.len() - i >= 4 && s[i + 1] == 0x72 && s[i + 2] == 0x75 && s[i + 3] == 0x65 {
            Ok((JsonValue::Bool(true), i + 4))
        } else {
            Err(NrtmError::JsonSyntax)
        }
    } else if b == 0x66 {
        if s.len() - i >= 5 && s[i + 1] == 0x61 && s[i + 2] == 0x6c && s[i + 3] == 0x73 && s[i + 4]
            == 0x65 {
            Ok((JsonValue::Bool(false), i + 5))
        } else {
            Err(NrtmError::JsonSyntax)
        }
    } else {
        Err(NrtmError::JsonSyntax)
    }
}

/// The members of a flat object of scalars, from position `i` (just after
/// the opening brace, or after a comma when `first` is false), appended to
/// `acc`. Ends just after the closing brace.
pub open spec fn spec_flat_members(
    s: Seq<u8>,
    i: int,
    first: bool,
    acc: Seq<(Seq<char>, JsonView)>,
) -> Option<(Seq<(Seq<char>, JsonView)>, int)>
    recommends
        0 <= i <= s.len(),
    decreases s.len() - i,
        when 0 <= i <= s.len()
        via spec_flat_members_decreases
{
    let j = spec_skip_ws(s, i);
    if j >= s.len() {
        None
    } else if first && s[j] == 0x7d {
        Some((acc, j + 1))
    } else {
        match spec_parse_string(s, j) {
            None => None,
            Some((key, after_key)) => {
                let colon = spec_skip_ws(s, after_key);
                if colon >= s.len() || s[colon] != 0x3a {
                    None
                } else {
                    match spec_parse_scalar(s, spec_skip_ws(s, colon + 1)) {
                        None => None,
                        Some((val, after_val)) => {
                            let m = spec_skip_ws(s, after_val);
                            if m >= s.len() {
                                None
                            } else if s[m] == 0x2c {
                                spec_flat_members(s, m + 1, false, acc.push((key, val)))
                            } else if s[m] == 0x7d {
                                Some((acc.push((key, val)), m + 1))
                            } else {
                                None
                            }
                        },
                    }
                }
            },
        }
    }
}

#[via_fn]
proof fn spec_flat_members_decreases(
    s: Seq<u8>,
    i: int,
    first: bool,
    acc: Seq<(Seq<char>, JsonView)>,
) {
    lemma_skip_ws_bounds(s, i);
    let j = spec_skip_ws(s, i);
    if j < s.len() && !(first && s[j] == 0x7d) {
        lemma_parse_string_bounds(s, j);
        if spec_parse_string(s, j) is Some {
            let after_key = spec_parse_string(s, j).unwrap().1;
            lemma_skip_ws_bounds(s, after_key);
            let colon = spec_skip_ws(s, after_key);
            if colon < s.len() && s[colon] == 0x3a {
                lemma_skip_ws_bounds(s, colon + 1);
                let v0 = spec_skip_ws(s, colon + 1);
                lemma_parse_scalar_bounds(s, v0);
                if spec_parse_scalar(s, v0) is Some {
                    let after_val = spec_parse_scalar(s, v0).unwrap().1;
                    lemma_skip_ws_bounds(s, after_val);
                }
            }
        }
    }
}

pub proof fn lemma_flat_members_bounds(
    s: Seq<u8>,
    i: int,
    first: bool,
    acc: Seq<(Seq<char>, JsonView)>,
)
    requires
        0 <= i <= s.len(),
    ensures
        spec_flat_members(s, i, first, acc) is Some ==> i < spec_flat_members(
            s,
            i,
            first,
            acc,
        ).unwrap().1 <= s.len(),
    decreases s.len() - i,
{
    lemma_skip_ws_bounds(s, i);
    let j = spec_skip_ws(s, i);
    if j < s.len() && !(first && s[j] == 0x7d) {
        lemma_parse_string_bounds(s, j);
        if spec_parse_string(s, j) is Some {
            let key = spec_parse_string(s, j).unwrap().0;
            let after_key = spec_parse_string(s, j).unwrap().1;
            lemma_skip_ws_bounds(s, after_key);
            let colon = spec_skip_ws(s, after_key);
            if colon < s.len() && s[colon] == 0x3a {
                lemma_skip_ws_bounds(s, colon + 1);
                let v0 = spec_skip_ws(s, colon + 1);
                lemma_parse_scalar_bounds(s, v0);
                if spec_parse_scalar(s, v0) is Some {
                    let val = spec_parse_scalar(s, v0).unwrap().0;
                    let after_val = spec_parse_scalar(s, v0).unwrap().1;
                    lemma_skip_ws_bounds(s, after_val);
                    let m = spec_skip_ws(s, after_val);
                    if m < s.len() && s[m] == 0x2c {
                        lemma_flat_members_bounds(s, m + 1, false, acc.push((key, val)));
                    }
                }
            }
        }
    }
}

fn parse_flat_members(s: &Vec<u8>, i: usize, first: bool, acc: Vec<(String, JsonValue)>) -> (r:
    Result<(Vec<(String, JsonValue)>, usize), NrtmError>)
    requires
        i <= s@.len(),
    ensures
        r is Ok <==> spec_flat_members(s@, i as int, first, members_view(acc@)) is Some,
        r is Ok ==> spec_flat_members(s@, i as int, first, members_view(acc@)) == Some(
            (members_view(r.unwrap().0@), r.unwrap().1 as int),
        ),
        r is Ok ==> i < r.unwrap().1 <= s@.len(),
        r is Err ==> r->Err_0 == NrtmError::JsonSyntax,
    decreases s@.len() - i,
{
    let mut acc = acc;
    let j = skip_ws(s, i);
    if j >= s.len() {
        return Err(NrtmError::JsonSyntax);
    }
    if first && s[j] == 0x7d {
        return Ok((acc, j + 1));
    }
    match parse_string(s, j) {
        Err(e) => Err(e),
        Ok((key, after_key)) => {
            let colon = skip_ws(s, after_key);
            if colon >= s.len() || s[colon] != 0x3a {
                return Err(NrtmError::JsonSyntax);
            }
            let v0 = skip_ws(s, colon + 1);
            match parse_scalar(s, v0) {
                Err(e) => Err(e),
                Ok((val, after_val)) => {
                    let m = skip_ws(s, after_val);
                    if m >= s.len() {
                        return Err(NrtmError::JsonSyntax);
                    }
                    let sep = s[m];
                    let ghost old_acc_view = members_view(acc@);
                    let ghost key_view = key@;
                    let ghost val_view = jv_view(val);
                    acc.push((key, val));
                    proof {
                        assert(members_view(acc@) =~= old_acc_view.push((key_view, val_view)));
                    }
                    if sep == 0x2c {
                        parse_flat_members(s, m + 1, false, acc)
                    } else if sep == 0x7d {
                        Ok((acc, m + 1))
                    } else {
                        Err(NrtmError::JsonSyntax)
                    }
                },
            }
        },
    }
}

/// A flat object of scalars at position `i` (at the opening brace).
pub open spec fn spec_parse_flat_obj(s: Seq<u8>, i: int) -> Option<
    (Seq<(Seq<char>, JsonView)>, int),
>
    recommends
        0 <= i <= s.len(),
{
    if i >= s.len() || s[i] != 0x7b {
        None
    } else {
        spec_flat_members(s, i + 1, true, Seq::empty())
    }
}

pub proof fn lemma_parse_flat_obj_bounds(s: Seq<u8>, i: int)
    requires
        0 <= i <= s.len(),
    ensures
        spec_parse_flat_obj(s, i) is Some ==> i < spec_parse_flat_obj(s, i).unwrap().1 <= s.len(),
{
    if spec_parse_flat_obj(s, i) is Some {
        lemma_flat_members_bounds(s, i + 1, true, Seq::empty());
    }
}

fn parse_flat_obj(s: &Vec<u8>, i: usize) -> (r: Result<(Vec<(String, JsonValue)>, usize), NrtmError>)
    requires
        i <= s@.len(),
    ensures
        r is Ok <==> spec_parse_flat_obj(s@, i as int) is Some,
        r is Ok ==> spec_parse_flat_obj(s@, i as int) == Some(
            (members_view(r.unwrap().0@), r.unwrap().1 as int),
        ),
        r is Ok ==> i < r.unwrap().1 <= s@.len(),
        r is Err ==> r->Err_0 == NrtmError::JsonSyntax,
{
    if i >= s.len() || s[i] != 0x7b {
        return Err(NrtmError::JsonSyntax);
    }
    let empty_acc: Vec<(String, JsonValue)> = Vec::new();
    proof {
        assert(members_view(empty_acc@) =~= Seq::<(Seq<char>, JsonView)>::empty());
    }
    parse_flat_members(s, i + 1, true, empty_acc)
}

/// The elements of an array of flat objects, from position `i` (just after
/// the opening bracket, or after a comma when `first` is false).
pub open spec fn spec_array_items(
    s: Seq<u8>,
    i: int,
    first: bool,
    acc: Seq<Seq<(Seq<char>, JsonView)>>,
) -> Option<(Seq<Seq<(Seq<char>, JsonView)>>, int)>
    recommends
        0 <= i <= s.len(),
    decreases s.len() - i,
        when 0 <= i <= s.len()
        via spec_array_items_decreases
{
    let j = spec_skip_ws(s, i);
    if j >= s.len() {
        None
    } else if first && s[j] == 0x5d {
        Some((acc, j + 1))
    } else {
        match spec_parse_flat_obj(s, j) {
            None => None,
            Some((ms, after_obj)) => {
                let m = spec_skip_ws(s, after_obj);
                if m >= s.len() {
                    None
                } else if s[m] == 0x2c {
                    spec_array_items(s, m + 1, false, acc.push(ms))
                } else if s[m] == 0x5d {
                    Some((acc.push(ms), m + 1))
                } else {
                    None
                }
            },
        }
    }
}

#[via_fn]
proof fn spec_array_items_decreases(
    s: Seq<u8>,
    i: int,
    first: bool,
    acc: Seq<Seq<(Seq<char>, JsonView)>>,
) {
    lemma_skip_ws_bounds(s, i);
    let j = spec_skip_ws(s, i);
    if j < s.len() && !(first && s[j] == 0x5d) {
        lemma_parse_flat_obj_bounds(s, j);
        if spec_parse_flat_obj(s, j) is Some {
            let after_obj = spec_parse_flat_obj(s, j).unwrap().1;
            lemma_skip_ws_bounds(s, after_obj);
        }
    }
}

pub proof fn lemma_array_items_bounds(
    s: Seq<u8>,
    i: int,
    first: bool,
    acc: Seq<Seq<(Seq<char>, JsonView)>>,
)
    requires
        0 <= i <= s.len(),
    ensures
        spec_array_items(s, i, first, acc) is Some ==> i < spec_array_items(
            s,
            i,
            first,
            acc,
        ).unwrap().1 <= s.len(),
    decreases s.len() - i,
{
    lemma_skip_ws_bounds(s, i);
    let j = spec_skip_ws(s, i);
    if j < s.len() && !(first && s[j] == 0x5d) {
        lemma_parse_flat_obj_bounds(s, j);
        if spec_parse_flat_obj(s, j) is Some {
            let ms = spec_parse_flat_obj(s, j).unwrap().0;
            let after_obj = spec_parse_flat_obj(s, j).unwrap().1;
            lemma_skip_ws_bounds(s, after_obj);
            let m = spec_skip_ws(s, after_obj);
            if m < s.len() && s[m] == 0x2c {
                lemma_array_items_bounds(s, m + 1, false, acc.push(ms));
            }
        }
    }
}

fn parse_array_items(s: &Vec<u8>, i: usize, first: bool, acc: Vec<Vec<(String, JsonValue)>>) -> (r:
    Result<(Vec<Vec<(String, JsonValue)>>, usize), NrtmError>)
    requires
        i <= s@.len(),
    ensures
        r is Ok <==> spec_array_items(
            s@,
            i as int,
            first,
            acc@.map_values(|ms: Vec<(String, JsonValue)>| members_view(ms@)),
        ) is Some,
        r is Ok ==> spec_array_items(
            s@,
            i as int,
            first,
            acc@.map_values(|ms: Vec<(String, JsonValue)>| members_view(ms@)),
        ) == Some(
            (
                r.unwrap().0@.map_values(|ms: Vec<(String, JsonValue)>| members_view(ms@)),
                r.unwrap().1 as int,
            ),
        ),
        r is Ok ==> i < r.unwrap().1 <= s@.len(),
        r is Err ==> r->Err_0 == NrtmError::JsonSyntax,
    decreases s@.len() - i,
{
    let mut acc = acc;
    let j = skip_ws(s, i);
    if j >= s.len() {
        return Err(NrtmError::JsonSyntax);
    }
    if first && s[j] == 0x5d {
        return Ok((acc, j + 1));
    }
    match parse_flat_obj(s, j) {
        Err(e) => Err(e),
        Ok((ms, after_obj)) => {
            let m = skip_ws(s, after_obj);
            if m >= s.len() {
                return Err(NrtmError::JsonSyntax);
            }
            let sep = s[m];
            let ghost old_acc_view = acc@.map_values(
                |x: Vec<(String, JsonValue)>| members_view(x@),
            );
            let ghost ms_view = members_view(ms@);
            acc.push(ms);
            proof {
                assert(acc@.map_values(|x: Vec<(String, JsonValue)>| members_view(x@))
                    =~= old_acc_view.push(ms_view));
            }
            if sep == 0x2c {
                parse_array_items(s, m + 1, false, acc)
            } else if sep == 0x5d {
                Ok((acc, m + 1))
            } else {
                Err(NrtmError::JsonSyntax)
            }
        },
    }
}

/// A member value of a document: a scalar, a flat object, or an array of
/// flat objects.
pub open spec fn spec_parse_doc_value(s: Seq<u8>, i: int) -> Option<(DocValueView, int)>
    recommends
        0 <= i <= s.len(),
{
    if i >= s.len() {
        None
    } else if s[i] == 0x7b {
        match spec_parse_flat_obj(s, i) {
            None => None,
            Some((ms, j)) => Some((DocValueView::Object(ms), j)),
        }
    } else if s[i] == 0x5b {
        match spec_array_items(s, i + 1, true, Seq::empty()) {
            None => None,
            Some((items, j)) => Some((DocValueView::Array(items), j)),
        }
    } else {
        match spec_parse_scalar(s, i) {
            None => None,
            Some((v, j)) => Some((DocValueView::Scalar(v), j)),
        }
    }
}

pub proof fn lemma_parse_doc_value_bounds(s: Seq<u8>, i: int)
    requires
        0 <= i <= s.len(),
    ensures
        spec_parse_doc_value(s, i) is Some ==> i < spec_parse_doc_value(s, i).unwrap().1
            <= s.len(),
{
    if i < s.len() {
        lemma_parse_flat_obj_bounds(s, i);
        lemma_array_items_bounds(s, i + 1, true, Seq::empty());
        lemma_parse_scalar_bounds(s, i);
    }
}

fn parse_doc_value(s: &Vec<u8>, i: usize) -> (r: Result<(DocValue, usize), NrtmError>)
    requires
        i <= s@.len(),
    ensures
        r is Ok <==> spec_parse_doc_value(s@, i as int) is Some,
        r is Ok ==> spec_parse_doc_value(s@, i as int) == Some(
            (dv_view(r.unwrap().0), r.unwrap().1 as int),
        ),
        r is Ok ==> i < r.unwrap().1 <= s@.len(),
        r is Err ==> r->Err_0 == NrtmError::JsonSyntax,
{
    if i >= s.len() {
        return Err(NrtmError::JsonSyntax);
    }
    let b = s[i];
    if b == 0x7b {
        match parse_flat_obj(s, i) {
            Err(e) => Err(e),
            Ok((ms, j)) => Ok((DocValue::Object(ms), j)),
        }
    } else if b == 0x5b {
        let empty_acc: Vec<Vec<(String, JsonValue)>> = Vec::new();
        proof {
            assert(empty_acc@.map_values(|x: Vec<(String, JsonValue)>| members_view(x@))
                =~= Seq::<Seq<(Seq<char>, JsonView)>>::empty());
        }
        match parse_array_items(s, i + 1, true, empty_acc) {
            Err(e) => Err(e),
            Ok((items, j)) => Ok((DocValue::Array(items), j)),
        }
    } else {
        match parse_scalar(s, i) {
            Err(e) => Err(e),
            Ok((v, j)) => Ok((DocValue::Scalar(v), j)),
        }
    }
}

/// The members of a document object, from position `i` (just after the
/// opening brace, or after a comma when `first` is false).
pub open spec fn spec_doc_members(
    s: Seq<u8>,
    i: int,
    first: bool,
    acc: Seq<(Seq<char>, DocValueView)>,
) -> Option<(Seq<(Seq<char>, DocValueView)>, int)>
    recommends
        0 <= i <= s.len(),
    decreases s.len() - i,
        when 0 <= i <= s.len()
        via spec_doc_members_decreases
{
    let j = spec_skip_ws(s, i);
    if j >= s.len() {
        None
    } else if first && s[j] == 0x7d {
        Some((acc, j + 1))
    } else {
        match spec_parse_string(s, j) {
            None => None,
            Some((key, after_key)) => {
                let colon = spec_skip_ws(s, after_key);
                if colon >= s.len() || s[colon] != 0x3a {
                    None
                } else {
                    match spec_parse_doc_value(s, spec_skip_ws(s, colon + 1)) {
                        None => None,
                        Some((val, after_val)) => {
                            let m = spec_skip_ws(s, after_val);
                            if m >= s.len() {
                                None
                            } else if s[m] == 0x2c {
                                spec_doc_members(s, m + 1, false, acc.push((key, val)))
                            } else if s[m] == 0x7d {
                                Some((acc.push((key, val)), m + 1))
                            } else {
                                None
                            }
                        },
                    }
                }
            },
        }
    }
}

#[via_fn]
proof fn spec_doc_members_decreases(
    s: Seq<u8>,
    i: int,
    first: bool,
    acc: Seq<(Seq<char>, DocValueView)>,
) {
    lemma_skip_ws_bounds(s, i);
    let j = spec_skip_ws(s, i);
    if j < s.len() && !(first && s[j] == 0x7d) {
        lemma_parse_string_bounds(s, j);
        if spec_parse_string(s, j) is Some {
            let after_key = spec_parse_string(s, j).unwrap().1;
            lemma_skip_ws_bounds(s, after_key);
            let colon = spec_skip_ws(s, after_key);
            if colon < s.len() && s[colon] == 0x3a {
                lemma_skip_ws_bounds(s, colon + 1);
                let v0 = spec_skip_ws(s, colon + 1);
                lemma_parse_doc_value_bounds(s, v0);
                if spec_parse_doc_value(s, v0) is Some {
                    let after_val = spec_parse_doc_value(s, v0).unwrap().1;
                    lemma_skip_ws_bounds(s, after_val);
                }
            }
        }
    }
}

fn parse_doc_members(s: &Vec<u8>, i: usize, first: bool, acc: Vec<(String, DocValue)>) -> (r:
    Result<(Vec<(String, DocValue)>, usize), NrtmError>)
    requires
        i <= s@.len(),
    ensures
        r is Ok <==> spec_doc_members(s@, i as int, first, doc_view(acc@)) is Some,
        r is Ok ==> spec_doc_members(s@, i as int, first, doc_view(acc@)) == Some(
            (doc_view(r.unwrap().0@), r.unwrap().1 as int),
        ),
        r is Ok ==> i < r.unwrap().1 <= s@.len(),
        r is Err ==> r->Err_0 == NrtmError::JsonSyntax,
    decreases s@.len() - i,
{
    let mut acc = acc;
    let j = skip_ws(s, i);
    if j >= s.len() {
        return Err(NrtmError::JsonSyntax);
    }
    if first && s[j] == 0x7d {
        return Ok((acc, j + 1));
    }
    match parse_string(s, j) {
        Err(e) => Err(e),
        Ok((key, after_key)) => {
            let colon = skip_ws(s, after_key);
            if colon >= s.len() || s[colon] != 0x3a {
                return Err(NrtmError::JsonSyntax);
            }
            let v0 = skip_ws(s, colon + 1);
            match parse_doc_value(s, v0) {
                Err(e) => Err(e),
                Ok((val, after_val)) => {
                    let m = skip_ws(s, after_val);
                    if m >= s.len() {
                        return Err(NrtmError::JsonSyntax);
                    }
                    let sep = s[m];
                    let ghost old_acc_view = doc_view(acc@);
                    let ghost key_view = key@;
                    let ghost val_view = dv_view(val);
                    acc.push((key, val));
                    proof {
                        assert(doc_view(acc@) =~= old_acc_view.push((key_view, val_view)));
                    }
                    if sep == 0x2c {
                        parse_doc_members(s, m + 1, false, acc)
                    } else if sep == 0x7d {
                        Ok((acc, m + 1))
                    } else {
                        Err(NrtmError::JsonSyntax)
                    }
                },
            }
        },
    }
}

/// A whole document record: one object, surrounded only by whitespace.
pub open spec fn spec_parse_document(s: Seq<u8>) -> Option<Seq<(Seq<char>, DocValueView)>> {
    let j = spec_skip_ws(s, 0);
    if j >= s.len() || s[j] != 0x7b {
        None
    } else {
        match spec_doc_members(s, j + 1, true, Seq::empty()) {
            None => None,
            Some((ms, k)) => {
                if spec_skip_ws(s, k) == s.len() {
                    Some(ms)
                } else {
                    None
                }
            },
        }
    }
}

/// Parses one record into its member list. Succeeds exactly on the
/// documents of the wire format's shapes; the members come back in record
/// order, repeats included.
pub fn parse_document(s: &Vec<u8>) -> (r: Result<Vec<(String, DocValue)>, NrtmError>)
    ensures
        r is Ok <==> spec_parse_document(s@) is Some,
        r is Ok ==> spec_parse_document(s@) == Some(doc_view(r.unwrap()@)),
        r is Err ==> r->Err_0 == NrtmError::JsonSyntax,
{
    let j = skip_ws(s, 0);
    if j >= s.len() || s[j] != 0x7b {
        return Err(NrtmError::JsonSyntax);
    }
    let empty_acc: Vec<(String, DocValue)> = Vec::new();
    proof {
        assert(doc_view(empty_acc@) =~= Seq::<(Seq<char>, DocValueView)>::empty());
    }
    match parse_doc_members(s, j + 1, true, empty_acc) {
        Err(e) => Err(e),
        Ok((ms, k)) => {
            let e = skip_ws(s, k);
            if e == s.len() {
                Ok(ms)
            } else {
                Err(NrtmError::JsonSyntax)
            }
        },
    }
}

/// String equality by characters, decided on the UTF-8 encodings.
pub fn str_eq(a: &str, b: &str) -> (r: bool)
    ensures
        r == (a@ == b@),
{
    let av = a.as_bytes_vec();
    let bv = b.as_bytes_vec();
    proof {
        vstd::utf8::encode_utf8_decode_utf8(a@);
        vstd::utf8::encode_utf8_decode_utf8(b@);
    }
    if av.len() != bv.len() {
        return false;
    }
    let mut i: usize = 0;
    while i < av.len()
        invariant
            av@.len() == bv@.len(),
            i <= av@.len(),
            av@ == vstd::utf8::encode_utf8(a@),
            bv@ == vstd::utf8::encode_utf8(b@),
            decode_utf8(vstd::utf8::encode_utf8(a@)) == a@,
            decode_utf8(vstd::utf8::encode_utf8(b@)) == b@,
            forall|k: int| 0 <= k < i ==> av@[k] == bv@[k],
        decreases av@.len() - i,
    {
        if av[i] != bv[i] {
            return false;
        }
        i = i + 1;
    }
    proof {
        assert(av@ =~= bv@);
    }
    true
}

} // verus!
