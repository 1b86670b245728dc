//! Record framer for the delimited-record wire format: a byte stream holds
//! UTF-8 text records, each preceded by one fixed separator byte. The first
//! record is the header record; the rest are entry records.

use std::io::Read;
use vstd::prelude::*;
use vstd::utf8::valid_utf8;
use vstd::utf8::decode_utf8;
use vstd::utf8::encode_utf8;
use vstd::utf8::encode_scalar;
use crate::errors::NrtmError;

verus! {

/// The record separator: a single non-printable ASCII byte, written once
/// before each record and never embedded inside one.
pub const RECORD_SEPARATOR: u8 = 30;

/// Index of the first separator byte at or after `i`, or the length of
/// `data` when no separator remains.
pub open spec fn next_sep(data: Seq<u8>, i: int) -> int
    recommends
        0 <= i <= data.len(),
    decreases data.len() - i,
        when 0 <= i <= data.len()
{
    if i >= data.len() {
        data.len() as int
    } else if data[i] == RECORD_SEPARATOR {
        i
    } else {
        next_sep(data, i + 1)
    }
}

pub proof fn lemma_next_sep_bounds(data: Seq<u8>, i: int)
    requires
        0 <= i <= data.len(),
    ensures
        i <= next_sep(data, i) <= data.len(),
        forall|k: int| i <= k < next_sep(data, i) ==> data[k] != RECORD_SEPARATOR,
        next_sep(data, i) < data.len() ==> data[next_sep(data, i)] == RECORD_SEPARATOR,
    decreases data.len() - i,
{
    if i >= data.len() {
    } else if data[i] == RECORD_SEPARATOR {
    } else {
        lemma_next_sep_bounds(data, i + 1);
    }
}

/// A position bounded by separator-free bytes before it, and a separator or
/// the end of the buffer at it, is exactly where the scan stops.
pub proof fn lemma_next_sep_at(data: Seq<u8>, i: int, j: int)
    requires
        0 <= i <= j <= data.len(),
        forall|k: int| i <= k < j ==> data[k] != RECORD_SEPARATOR,
        j < data.len() ==> data[j] == RECORD_SEPARATOR,
    ensures
        next_sep(data, i) == j,
    decreases j - i,
{
    if i < j {
        lemma_next_sep_at(data, i + 1, j);
    }
}

proof fn lemma_next_sep_shift(p: Seq<u8>, d: Seq<u8>, i: int)
    requires
        0 <= i <= d.len(),
    ensures
        next_sep(p + d, p.len() + i) == p.len() + next_sep(d, i),
{
    let j = next_sep(d, i);
    lemma_next_sep_bounds(d, i);
    assert forall|k: int| p.len() + i <= k < p.len() + j implies (p + d)[k] != RECORD_SEPARATOR by {
        assert((p + d)[k] == d[k - p.len()]);
    }
    lemma_next_sep_at(p + d, p.len() + i, p.len() + j);
}

/// The records of a framed stream, read from position `i`: the runs of bytes
/// between separators; a trailing fragment with no terminating separator is
/// the final record only when it is non-empty.
pub open spec fn records_from(data: Seq<u8>, i: int) -> Seq<Seq<u8>>
    recommends
        0 <= i <= data.len(),
    decreases data.len() - i,
        when 0 <= i <= data.len()
        via records_from_decreases
{
    if i >= data.len() {
        Seq::empty()
    } else {
        let j = next_sep(data, i);
        if j < data.len() {
            seq![data.subrange(i, j)] + records_from(data, j + 1)
        } else {
            seq![data.subrange(i, j)]
        }
    }
}

#[via_fn]
proof fn records_from_decreases(data: Seq<u8>, i: int) {
    if 0 <= i && i < data.len() {
        lemma_next_sep_bounds(data, i);
    }
}

/// The records of a framed byte stream. The first byte of a non-empty stream
/// is the conventional separator before the header record and is skipped;
/// an empty stream holds no record at all.
pub open spec fn spec_records(data: Seq<u8>) -> Seq<Seq<u8>> {
    if data.len() == 0 {
        Seq::empty()
    } else {
        records_from(data, 1)
    }
}

/// The framed encoding of a list of records: one separator byte, then the
/// record's bytes, for each record in order.
pub open spec fn frame_records(recs: Seq<Seq<u8>>) -> Seq<u8>
    decreases recs.len(),
{
    if recs.len() == 0 {
        Seq::empty()
    } else {
        seq![RECORD_SEPARATOR] + recs.first() + frame_records(recs.drop_first())
    }
}

proof fn lemma_records_from_shift(p: Seq<u8>, d: Seq<u8>, i: int)
    requires
        0 <= i <= d.len(),
    ensures
        records_from(p + d, p.len() + i) =~~= records_from(d, i),
    decreases d.len() - i,
{
    lemma_next_sep_bounds(d, i);
    lemma_next_sep_shift(p, d, i);
    let j = next_sep(d, i);
    if i >= d.len() {
    } else {
        assert((p + d).subrange(p.len() + i, p.len() + j) =~= d.subrange(i, j));
        if j < d.len() {
            lemma_records_from_shift(p, d, j + 1);
        }
    }
}

/// Framing round trip (law): framing any list of records that contain no
/// separator byte, then splitting the framed stream, yields back exactly the
/// original records, for any number of records including none. The one list
/// this framing cannot carry is one whose final record is empty: its framed
/// form ends in a bare separator, and an empty trailing fragment is not a
/// record.
pub proof fn lemma_framing_round_trip(recs: Seq<Seq<u8>>)
    requires
        forall|i: int| 0 <= i < recs.len() ==> !(#[trigger] recs[i]).contains(RECORD_SEPARATOR),
        recs.len() > 0 ==> recs.last().len() > 0,
    ensures
        spec_records(frame_records(recs)) =~~= recs,
    decreases recs.len(),
{
    if recs.len() == 0 {
    } else {
        let r0 = recs.first();
        let rest = recs.drop_first();
        let tail = frame_records(rest);
        let f = frame_records(recs);
        assert(f == seq![RECORD_SEPARATOR] + r0 + tail);
        assert(!r0.contains(RECORD_SEPARATOR));
        assert forall|k: int| 1 <= k < 1 + r0.len() implies f[k] != RECORD_SEPARATOR by {
            assert(f[k] == r0[k - 1]);
            if f[k] == RECORD_SEPARATOR {
                assert(r0.contains(RECORD_SEPARATOR));
            }
        }
        if rest.len() == 0 {
            assert(tail =~= Seq::<u8>::empty());
            assert(f.len() == 1 + r0.len());
            assert(recs.last() == r0);
            assert(r0.len() > 0);
            lemma_next_sep_at(f, 1, 1 + r0.len() as int);
            assert(f.subrange(1, 1 + r0.len() as int) =~= r0);
            assert(records_from(f, 1) =~~= seq![r0]);
            assert(recs =~~= seq![r0]);
            assert(spec_records(f) =~~= recs);
        } else {
            assert(tail.len() >= 1);
            assert(tail[0] == RECORD_SEPARATOR);
            assert(f[1 + r0.len() as int] == RECORD_SEPARATOR);
            lemma_next_sep_at(f, 1, 1 + r0.len() as int);
            assert(f.subrange(1, 1 + r0.len() as int) =~= r0);
            let p = seq![RECORD_SEPARATOR] + r0;
            assert(f =~= p + tail);
            lemma_records_from_shift(p, tail, 1);
            assert(records_from(f, p.len() as int + 1) =~~= records_from(tail, 1));
            lemma_framing_round_trip(rest);
            assert(records_from(f, 1) =~~= seq![r0] + records_from(f, 1 + r0.len() as int + 1));
            assert(spec_records(f) =~~= recs);
        }
    }
}

/// A character other than the separator never encodes to the separator
/// byte: one-byte encodings carry the character's own value, and every
/// byte of a longer encoding is outside the ASCII range.
proof fn lemma_encode_scalar_no_separator(c: char)
    requires
        c != '\u{1e}',
    ensures
        !encode_scalar(c as u32).contains(RECORD_SEPARATOR),
{
    vstd::utf8::char_is_scalar(c);
    let scalar = c as u32;
    let enc = encode_scalar(scalar);
    if vstd::utf8::has_width_1_encoding(scalar) {
        assert((scalar & 0x7F) == scalar) by (bit_vector)
            requires
                scalar <= 0x7f,
        ;
        assert(enc[0] != RECORD_SEPARATOR);
    } else {
        assert((0xC0u8 | ((scalar >> 6) & 0x1F) as u8) >= 0x80) by (bit_vector);
        assert((0xE0u8 | ((scalar >> 12) & 0x0F) as u8) >= 0x80) by (bit_vector);
        assert((0xF0u8 | ((scalar >> 18) & 0x7) as u8) >= 0x80) by (bit_vector);
        assert((0x80u8 | (scalar & 0x3F) as u8) >= 0x80) by (bit_vector);
        assert((0x80u8 | ((scalar >> 6) & 0x3F) as u8) >= 0x80) by (bit_vector);
        assert((0x80u8 | ((scalar >> 12) & 0x3F) as u8) >= 0x80) by (bit_vector);
        assert(forall|k: int| 0 <= k < enc.len() ==> enc[k] >= 0x80);
    }
    if enc.contains(RECORD_SEPARATOR) {
        let k = choose|k: int| 0 <= k < enc.len() && enc[k] == RECORD_SEPARATOR;
        assert(false);
    }
}

/// Text without the separator character encodes to bytes without the
/// separator byte.
pub proof fn lemma_encoding_no_separator(text: Seq<char>)
    requires
        !text.contains('\u{1e}'),
    ensures
        !encode_utf8(text).contains(RECORD_SEPARATOR),
    decreases text.len(),
{
    if text.len() > 0 {
        assert(text[0] != '\u{1e}') by {
            if text[0] == '\u{1e}' {
                assert(text.contains('\u{1e}'));
            }
        }
        lemma_encode_scalar_no_separator(text[0]);
        assert(!text.drop_first().contains('\u{1e}')) by {
            if text.drop_first().contains('\u{1e}') {
                let k = choose|k: int|
                    0 <= k < text.drop_first().len() && text.drop_first()[k] == '\u{1e}';
                assert(text[k + 1] == '\u{1e}');
                assert(text.contains('\u{1e}'));
            }
        }
        lemma_encoding_no_separator(text.drop_first());
        let enc = encode_utf8(text);
        assert(enc == encode_scalar(text[0] as u32) + encode_utf8(text.drop_first()));
        if enc.contains(RECORD_SEPARATOR) {
            let k = choose|k: int| 0 <= k < enc.len() && enc[k] == RECORD_SEPARATOR;
            if k < encode_scalar(text[0] as u32).len() {
                assert(encode_scalar(text[0] as u32).contains(RECORD_SEPARATOR));
            } else {
                assert(encode_utf8(text.drop_first()).contains(RECORD_SEPARATOR));
            }
            assert(false);
        }
    }
}

/// The UTF-8 encodings of a list of text records.
pub open spec fn encodings_of(texts: Seq<Seq<char>>) -> Seq<Seq<u8>> {
    texts.map_values(|t: Seq<char>| encode_utf8(t))
}

/// Framing round trip over text records (law): for any text records not
/// containing the separator character, the final record non-empty, framing
/// their UTF-8 encodings and splitting the framed stream yields exactly as
/// many records, each decoding back to exactly the original text.
pub proof fn lemma_text_framing_round_trip(texts: Seq<Seq<char>>)
    requires
        forall|i: int| 0 <= i < texts.len() ==> !(#[trigger] texts[i]).contains('\u{1e}'),
        texts.len() > 0 ==> texts.last().len() > 0,
    ensures
        spec_records(frame_records(encodings_of(texts))).len() == texts.len(),
        forall|i: int|
            0 <= i < texts.len() ==> valid_utf8(
                #[trigger] spec_records(frame_records(encodings_of(texts)))[i],
            ) && decode_utf8(spec_records(frame_records(encodings_of(texts)))[i]) == texts[i],
{
    let encs = encodings_of(texts);
    assert forall|i: int| 0 <= i < encs.len() implies !(#[trigger] encs[i]).contains(
        RECORD_SEPARATOR,
    ) by {
        assert(encs[i] == encode_utf8(texts[i]));
        lemma_encoding_no_separator(texts[i]);
    }
    if texts.len() > 0 {
        let lt = texts.last();
        assert(encs.last() == encode_utf8(lt));
        assert(encode_utf8(lt).len() > 0) by {
            assert(encode_utf8(lt) == encode_scalar(lt[0] as u32) + encode_utf8(lt.drop_first()));
            assert(encode_scalar(lt[0] as u32).len() >= 1);
        }
    }
    lemma_framing_round_trip(encs);
    assert forall|i: int| 0 <= i < texts.len() implies valid_utf8(
        #[trigger] spec_records(frame_records(encodings_of(texts)))[i],
    ) && decode_utf8(spec_records(frame_records(encodings_of(texts)))[i]) == texts[i] by {
        assert(spec_records(frame_records(encs))[i] == encode_utf8(texts[i]));
        vstd::utf8::encode_utf8_valid_utf8(texts[i]);
        vstd::utf8::encode_utf8_decode_utf8(texts[i]);
    }
}

/// Relies on String::from_utf8 (std): it succeeds exactly on valid UTF-8
/// input, and then returns the string whose characters are the UTF-8
/// decoding of those bytes, as specified by vstd's UTF-8 model.
#[verifier::external_body]
pub(crate) fn bytes_to_string(bytes: Vec<u8>) -> (r: Option<String>)
    ensures
        r is Some <==> valid_utf8(bytes@),
        r is Some ==> r.unwrap()@ == decode_utf8(bytes@),
{
    match String::from_utf8(bytes) {
        Ok(s) => Some(s),
        Err(_) => None,
    }
}

/// What flate2's gzip decoder yields for a byte buffer: the inflated bytes,
/// or nothing when the buffer is not a well-formed gzip stream. The result
/// is a function of the input bytes alone.
pub uninterp spec fn gunzip_of(data: Seq<u8>) -> Option<Seq<u8>>;

/// Relies on flate2's GzDecoder, read to its end through std::io::Read:
/// it fully inflates a gzip stream or fails, deterministically in the input.
#[verifier::external_body]
pub fn gunzip(input: Vec<u8>) -> (r: Result<Vec<u8>, NrtmError>)
    ensures
        r is Ok <==> gunzip_of(input@) is Some,
        r is Ok ==> r.unwrap()@ == gunzip_of(input@).unwrap(),
        r is Err ==> r->Err_0 == NrtmError::Decompression,
{
    let mut decoder = flate2::read::GzDecoder::new(&input[..]);
    let mut decompressed_data = Vec::new();
    match decoder.read_to_end(&mut decompressed_data) {
        Ok(_) => Ok(decompressed_data),
        Err(_) => Err(NrtmError::Decompression),
    }
}

/// A single forward pass over a framed byte stream, yielding each record in
/// order, decoded strictly as UTF-8. Not restartable: re-parsing requires a
/// fresh instance over the same buffer.
#[derive(Debug)]
pub struct JSONSequenceIterator {
    data: Vec<u8>,
    index: usize,
}

impl JSONSequenceIterator {
    /// The full framed byte stream held by the iterator.
    pub closed spec fn bytes(&self) -> Seq<u8> {
        self.data@
    }

    /// The cursor sits after the conventional leading separator and never
    /// runs past the buffer, except over the missing first byte of an empty
    /// buffer.
    pub closed spec fn wf(&self) -> bool {
        1 <= self.index && (self.index <= self.data@.len() || self.index == 1)
    }

    /// The records this iterator has not yet produced.
    pub closed spec fn remaining(&self) -> Seq<Seq<u8>> {
        if self.index > self.data@.len() {
            Seq::empty()
        } else {
            records_from(self.data@, self.index as int)
        }
    }

    /// Starts a fresh pass over `data`, positioned to yield every record.
    pub fn new(data: Vec<u8>) -> (r: JSONSequenceIterator)
        ensures
            r.wf(),
            r.bytes() == data@,
            r.remaining() == spec_records(data@),
    {
        JSONSequenceIterator { data, index: 1 }
    }

    /// Yields the next record, or None when the stream is exhausted. A record
    /// holding invalid UTF-8 yields a decode failure for that record only;
    /// the cursor still moves past it.
    pub fn next(&mut self) -> (r: Option<Result<String, NrtmError>>)
        requires
            old(self).wf(),
        ensures
            final(self).wf(),
            final(self).bytes() == old(self).bytes(),
            old(self).remaining().len() == 0 ==> r is None && final(self).remaining().len() == 0,
            old(self).remaining().len() > 0 ==> {
                &&& final(self).remaining() =~~= old(self).remaining().drop_first()
                &&& r is Some
                &&& (valid_utf8(old(self).remaining()[0]) ==> r.unwrap() is Ok
                    && r.unwrap().unwrap()@ == decode_utf8(old(self).remaining()[0]))
                &&& (!valid_utf8(old(self).remaining()[0]) ==> r.unwrap() == Err::<
                    String,
                    NrtmError,
                >(NrtmError::InvalidUtf8))
            },
    {
        let len = self.data.len();
        if self.index >= len {
            return None;
        }
        let start = self.index;
        let mut j = start;
        while j < len && self.data[j] != RECORD_SEPARATOR
            invariant
                start <= j <= len,
                len == self.data@.len(),
                forall|k: int| start <= k < j ==> self.data@[k] != RECORD_SEPARATOR,
            decreases len - j,
        {
            j = j + 1;
        }
        proof {
            lemma_next_sep_at(self.data@, start as int, j as int);
        }
        let mut rec: Vec<u8> = Vec::new();
        let mut k = start;
        while k < j
            invariant
                start <= k <= j <= len,
                len == self.data@.len(),
                rec@ =~= self.data@.subrange(start as int, k as int),
            decreases j - k,
        {
            rec.push(self.data[k]);
            k = k + 1;
        }
        assert(rec@ =~= self.data@.subrange(start as int, j as int));
        if j < len {
            self.index = j + 1;
        } else {
            self.index = j;
        }
        proof {
            if j < len {
                assert(old(self).remaining() =~~= seq![rec@] + records_from(
                    self.data@,
                    j + 1 as int,
                ));
            } else {
                assert(old(self).remaining() =~~= seq![rec@]);
                assert(self.remaining() =~~= Seq::<Seq<u8>>::empty());
            }
        }
        match bytes_to_string(rec) {
            Some(s) => Some(Ok(s)),
            None => Some(Err(NrtmError::InvalidUtf8)),
        }
    }
}

/// Frames records for transport: one separator byte before each record's
/// UTF-8 encoding. Fails exactly when some record's encoding contains the
/// separator byte, which the wire format cannot carry.
pub fn encode_records(records: &Vec<String>) -> (r: Option<Vec<u8>>)
    ensures
        r is Some <==> (forall|i: int|
            0 <= i < records@.len() ==> !(#[trigger] encode_utf8(records@[i]@)).contains(
                RECORD_SEPARATOR,
            )),
        r is Some ==> r.unwrap()@ =~~= frame_records(
            records@.map_values(|s: String| encode_utf8(s@)),
        ),
{
    let mut out: Vec<u8> = Vec::new();
    let mut ri: usize = 0;
    while ri < records.len()
        invariant
            ri <= records@.len(),
            out@ =~~= frame_records(records@.take(ri as int).map_values(|s: String| encode_utf8(s@))),
            forall|i: int|
                0 <= i < ri ==> !(#[trigger] encode_utf8(records@[i]@)).contains(RECORD_SEPARATOR),
        decreases records@.len() - ri,
    {
        out.push(RECORD_SEPARATOR);
        let bs = records[ri].as_str().as_bytes();
        let ghost enc = encode_utf8(records@[ri as int]@);
        assert(bs@ == enc);
        let mut bi: usize = 0;
        while bi < bs.len()
            invariant
                ri < records@.len(),
                enc == encode_utf8(records@[ri as int]@),
                bi <= bs@.len(),
                bs@ == enc,
                out@ =~~= frame_records(
                    records@.take(ri as int).map_values(|s: String| encode_utf8(s@)),
                ) + seq![RECORD_SEPARATOR] + enc.take(bi as int),
                forall|k: int| 0 <= k < bi ==> enc[k] != RECORD_SEPARATOR,
            decreases bs@.len() - bi,
        {
            let b = bs[bi];
            if b == RECORD_SEPARATOR {
                proof {
                    assert(enc[bi as int] == RECORD_SEPARATOR);
                    assert(enc.contains(RECORD_SEPARATOR));
                    assert(ri < records@.len());
                    assert(encode_utf8(records@[ri as int]@).contains(RECORD_SEPARATOR));
                }
                return None;
            }
            out.push(b);
            bi = bi + 1;
        }
        proof {
            if enc.contains(RECORD_SEPARATOR) {
                let witness = choose|k: int| 0 <= k < enc.len() && enc[k] == RECORD_SEPARATOR;
                assert(false);
            }
            lemma_frame_snoc(
                records@.take(ri as int).map_values(|s: String| encode_utf8(s@)),
                enc,
            );
            assert(records@.take(ri + 1 as int).map_values(|s: String| encode_utf8(s@)) =~~=
                records@.take(ri as int).map_values(|s: String| encode_utf8(s@)).push(enc));
        }
        ri = ri + 1;
    }
    proof {
        assert(records@.take(records@.len() as int) =~= records@);
    }
    Some(out)
}

proof fn lemma_frame_snoc(recs: Seq<Seq<u8>>, r: Seq<u8>)
    ensures
        frame_records(recs.push(r)) =~= frame_records(recs) + seq![RECORD_SEPARATOR] + r,
    decreases recs.len(),
{
    if recs.len() == 0 {
        assert(recs.push(r).first() == r);
        assert(recs.push(r).drop_first() =~= Seq::<Seq<u8>>::empty());
        assert(frame_records(Seq::<Seq<u8>>::empty()) =~= Seq::<u8>::empty());
        assert(frame_records(recs.push(r)) =~= seq![RECORD_SEPARATOR] + r + frame_records(
            Seq::<Seq<u8>>::empty(),
        ));
        assert(frame_records(recs) =~= Seq::<u8>::empty());
    } else {
        assert(recs.push(r).first() == recs.first());
        assert(recs.push(r).drop_first() =~= recs.drop_first().push(r));
        lemma_frame_snoc(recs.drop_first(), r);
        assert(frame_records(recs.push(r)) =~= seq![RECORD_SEPARATOR] + recs.first()
            + frame_records(recs.drop_first().push(r)));
        assert(frame_records(recs) =~= seq![RECORD_SEPARATOR] + recs.first() + frame_records(
            recs.drop_first(),
        ));
    }
}

/// Splits a framed buffer and hands back the header record together with an
/// iterator positioned at the first entry record. A stream without a header
/// record, or whose header is not valid UTF-8, is rejected.
pub fn jsonseq_from_bytes(data: Vec<u8>) -> (r: Result<(String, JSONSequenceIterator), NrtmError>)
    ensures
        spec_records(data@).len() == 0 ==> r == Err::<(String, JSONSequenceIterator), NrtmError>(
            NrtmError::NoHeader,
        ),
        spec_records(data@).len() > 0 && !valid_utf8(spec_records(data@)[0]) ==> r == Err::<
            (String, JSONSequenceIterator),
            NrtmError,
        >(NrtmError::InvalidUtf8),
        spec_records(data@).len() > 0 && valid_utf8(spec_records(data@)[0]) ==> {
            &&& r is Ok
            &&& r.unwrap().0@ == decode_utf8(spec_records(data@)[0])
            &&& r.unwrap().1.wf()
            &&& r.unwrap().1.bytes() == data@
            &&& r.unwrap().1.remaining() =~~= spec_records(data@).drop_first()
        },
{
    let mut iter = JSONSequenceIterator::new(data);
    match iter.next() {
        None => Err(NrtmError::NoHeader),
        Some(Err(e)) => Err(e),
        Some(Ok(header)) => Ok((header, iter)),
    }
}

} // verus!
