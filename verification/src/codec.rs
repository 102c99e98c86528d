//! The wire codec. The decoder turns one `\r\n`-terminated line into a
//! [`RespValue`]; the encoder turns any value back into its exact wire
//! bytes.
//!
//! The decoder is deliberately line-oriented: a `$` frame's first line is
//! taken as the whole bulk payload (no declared-length second line), and no
//! multi-line array framing is read. Tags other than `+`, `-` and `$` fall
//! back to `SimpleString("PONG")`.

use crate::model::{models_of_prefix, RespValue, ValueModel};
use crate::text::utf8_to_string;
use vstd::prelude::*;
use vstd::utf8::{decode_utf8, encode_utf8, valid_utf8};

verus! {

/// Carriage return.
pub const CR: u8 = 13;

/// Line feed: the byte the decoder reads up to.
pub const LF: u8 = 10;

/// Wire tag of a simple string: `+`.
pub const TAG_SIMPLE: u8 = 43;

/// Wire tag of an error: `-`.
pub const TAG_ERROR: u8 = 45;

/// Wire tag of an integer: `:`.
pub const TAG_INTEGER: u8 = 58;

/// Wire tag of a bulk string: `$`.
pub const TAG_BULK: u8 = 36;

/// Wire tag of an array: `*`.
pub const TAG_ARRAY: u8 = 42;

/// The byte `1`, used by the canonical null forms `$-1\r\n` and `*-1\r\n`.
pub const DIGIT_ONE: u8 = 49;

/// The largest payload a single frame may carry: 512 MiB.
pub const RESP_MAX_SIZE: usize = 512 * 1024 * 1024;

/// How decoding one frame can fail. The end of the stream is kept apart
/// from malformed input: it is the normal way a connection terminates.
#[derive(PartialEq, Eq, Structural, Clone, Copy, Debug)]
pub enum DecodeError {
    /// The stream ended before a full frame was read: nothing at all, or a
    /// lone carriage return.
    UnexpectedEof,
    /// A malformed line: too short, not `\r\n`-terminated, oversized, or a
    /// payload that is not valid text where text is required.
    InvalidInput,
}

/// What decoding the line `line` (the bytes read up to and including a line
/// feed, or up to the end of the stream) yields.
pub open spec fn decode_frame_model(line: Seq<u8>) -> Result<ValueModel, DecodeError> {
    if line.len() == 0 || (line.len() == 1 && line[0] == CR) {
        Err(DecodeError::UnexpectedEof)
    } else if line.len() < 3 {
        Err(DecodeError::InvalidInput)
    } else if line[line.len() - 2] != CR || line[line.len() - 1] != LF {
        Err(DecodeError::InvalidInput)
    } else {
        let payload = line.subrange(1, line.len() - 2);
        if payload.len() > RESP_MAX_SIZE {
            Err(DecodeError::InvalidInput)
        } else if line[0] == TAG_SIMPLE {
            if valid_utf8(payload) {
                Ok(ValueModel::SimpleString(decode_utf8(payload)))
            } else {
                Err(DecodeError::InvalidInput)
            }
        } else if line[0] == TAG_ERROR {
            if valid_utf8(payload) {
                Ok(ValueModel::Error(decode_utf8(payload)))
            } else {
                Err(DecodeError::InvalidInput)
            }
        } else if line[0] == TAG_BULK {
            if valid_utf8(payload) {
                Ok(ValueModel::BulkString(decode_utf8(payload)))
            } else {
                Err(DecodeError::InvalidInput)
            }
        } else {
            Ok(ValueModel::SimpleString("PONG"@))
        }
    }
}

/// The model of a decoding result.
pub open spec fn result_model(r: Result<RespValue, DecodeError>) -> Result<
    ValueModel,
    DecodeError,
> {
    match r {
        Ok(v) => Ok(v@),
        Err(e) => Err(e),
    }
}

/// Decodes one line, the bytes read up to and including a line feed (or up
/// to the end of the stream), into a value.
pub fn decode_frame(line: &Vec<u8>) -> (r: Result<RespValue, DecodeError>)
    ensures
        result_model(r) == decode_frame_model(line@),
{
    let len = line.len();
    if len == 0 || (len == 1 && line[0] == CR) {
        return Err(DecodeError::UnexpectedEof);
    }
    if len < 3 {
        return Err(DecodeError::InvalidInput);
    }
    if line[len - 2] != CR || line[len - 1] != LF {
        return Err(DecodeError::InvalidInput);
    }
    let mut payload: Vec<u8> = Vec::new();
    let mut i: usize = 1;
    while i < len - 2
        invariant
            1 <= i <= len - 2,
            len == line@.len(),
            3 <= len,
            payload@ == line@.subrange(1, i as int),
        decreases len - 2 - i,
    {
        let b = line[i];
        payload.push(b);
        proof {
            assert(payload@ =~= line@.subrange(1, i + 1 as int));
        }
        i = i + 1;
    }
    proof {
        assert(payload@ =~= line@.subrange(1, len - 2));
    }
    if payload.len() > RESP_MAX_SIZE {
        return Err(DecodeError::InvalidInput);
    }
    let tag = line[0];
    if tag == TAG_SIMPLE {
        match utf8_to_string(&payload) {
            Some(s) => Ok(RespValue::SimpleString(s)),
            None => Err(DecodeError::InvalidInput),
        }
    } else if tag == TAG_ERROR {
        match utf8_to_string(&payload) {
            Some(s) => Ok(RespValue::Error(s)),
            None => Err(DecodeError::InvalidInput),
        }
    } else if tag == TAG_BULK {
        match utf8_to_string(&payload) {
            Some(s) => Ok(RespValue::BulkString(s)),
            None => Err(DecodeError::InvalidInput),
        }
    } else {
        Ok(RespValue::SimpleString("PONG".to_owned()))
    }
}

/// How many bytes one read of a line takes from the stream `s`: everything
/// up to and including the first line feed, or all of `s` when it holds
/// none.
pub open spec fn line_len(s: Seq<u8>) -> int
    decreases s.len(),
{
    if s.len() == 0 {
        0
    } else if s[0] == LF {
        1
    } else {
        1 + line_len(s.drop_first())
    }
}

proof fn lemma_line_len_no_lf(s: Seq<u8>)
    requires
        forall|i: int| 0 <= i < s.len() ==> s[i] != LF,
    ensures
        line_len(s) == s.len(),
    decreases s.len(),
{
    if s.len() > 0 {
        lemma_line_len_no_lf(s.drop_first());
    }
}

proof fn lemma_line_len_lf_at(s: Seq<u8>, k: int)
    requires
        0 <= k < s.len(),
        s[k] == LF,
        forall|i: int| 0 <= i < k ==> s[i] != LF,
    ensures
        line_len(s) == k + 1,
    decreases s.len(),
{
    if k > 0 {
        lemma_line_len_lf_at(s.drop_first(), k - 1);
    }
}

/// A decoder over a buffered stream of bytes: each call of [`Decoder::decode`]
/// consumes one line and yields one value. Its model is the sequence of
/// bytes not yet consumed.
pub struct Decoder {
    input: Vec<u8>,
    pos: usize,
}

impl View for Decoder {
    type V = Seq<u8>;

    closed spec fn view(&self) -> Seq<u8> {
        self.input@.skip(self.pos as int)
    }
}

impl Decoder {
    /// The read position lies within the buffer.
    pub closed spec fn wf(&self) -> bool {
        self.pos <= self.input@.len()
    }

    /// A decoder over the given bytes.
    pub fn new(input: Vec<u8>) -> (r: Decoder)
        ensures
            r.wf(),
            r@ == input@,
    {
        let r = Decoder { input, pos: 0 };
        proof {
            assert(r@ =~= r.input@);
        }
        r
    }

    /// Reads bytes up to and including the next line feed (or to the end of
    /// the stream) and decodes them as one frame. An empty read, or a lone
    /// carriage return, is the end of the stream.
    pub fn decode(&mut self) -> (r: Result<RespValue, DecodeError>)
        requires
            old(self).wf(),
        ensures
            final(self).wf(),
            final(self)@ == old(self)@.skip(line_len(old(self)@)),
            result_model(r) == decode_frame_model(old(self)@.take(line_len(old(self)@))),
    {
        let ghost rem0 = self@;
        let ghost p0 = self.pos as int;
        let mut j: usize = self.pos;
        while j < self.input.len() && self.input[j] != LF
            invariant
                self.pos <= j <= self.input@.len(),
                forall|k: int| self.pos as int <= k < j as int ==> self.input@[k] != LF,
            decreases self.input@.len() - j,
        {
            j = j + 1;
        }
        let end: usize = if j < self.input.len() {
            j + 1
        } else {
            j
        };
        proof {
            if j < self.input@.len() {
                lemma_line_len_lf_at(rem0, j - p0);
            } else {
                lemma_line_len_no_lf(rem0);
            }
            assert(line_len(rem0) == end - p0);
        }
        let mut buf: Vec<u8> = Vec::new();
        let mut i: usize = self.pos;
        while i < end
            invariant
                self.pos <= i <= end <= self.input@.len(),
                buf@ == self.input@.subrange(self.pos as int, i as int),
            decreases end - i,
        {
            let b = self.input[i];
            buf.push(b);
            proof {
                assert(buf@ =~= self.input@.subrange(self.pos as int, i + 1 as int));
            }
            i = i + 1;
        }
        proof {
            assert(buf@ =~= rem0.take(line_len(rem0)));
        }
        self.pos = end;
        proof {
            assert(self@ =~= rem0.skip(line_len(rem0)));
        }
        decode_frame(&buf)
    }
}

/// The two-byte line terminator `\r\n`.
pub open spec fn crlf() -> Seq<u8> {
    seq![CR, LF]
}

/// The decimal digits of `n`, most significant first.
pub open spec fn dec_rep(n: nat) -> Seq<u8>
    decreases n,
{
    if n < 10 {
        seq![(48 + n) as u8]
    } else {
        dec_rep(n / 10).push((48 + n % 10) as u8)
    }
}

/// The decimal digits of `n`, with a leading `-` when `n` is negative.
pub open spec fn int_rep(n: int) -> Seq<u8> {
    if n >= 0 {
        dec_rep(n as nat)
    } else {
        seq![TAG_ERROR] + dec_rep((-n) as nat)
    }
}

/// The exact wire bytes of a value.
pub open spec fn encoded(v: ValueModel) -> Seq<u8>
    decreases v,
{
    match v {
        ValueModel::SimpleString(s) => seq![TAG_SIMPLE] + encode_utf8(s) + crlf(),
        ValueModel::Error(s) => seq![TAG_ERROR] + encode_utf8(s) + crlf(),
        ValueModel::Integer(n) => seq![TAG_INTEGER] + int_rep(n) + crlf(),
        ValueModel::BulkString(s) => seq![TAG_BULK] + dec_rep(encode_utf8(s).len()) + crlf()
            + encode_utf8(s) + crlf(),
        ValueModel::BinaryBulkString(b) => seq![TAG_BULK] + dec_rep(b.len()) + crlf() + b + crlf(),
        ValueModel::Null => seq![TAG_BULK, TAG_ERROR, DIGIT_ONE, CR, LF],
        ValueModel::NullArray => seq![TAG_ARRAY, TAG_ERROR, DIGIT_ONE, CR, LF],
        ValueModel::Array(items) => seq![TAG_ARRAY] + dec_rep(items.len()) + crlf()
            + encoded_items(items),
    }
}

/// The wire bytes of a sequence of values, concatenated in order.
pub open spec fn encoded_items(items: Seq<ValueModel>) -> Seq<u8>
    decreases items,
{
    if items.len() == 0 {
        Seq::empty()
    } else {
        encoded(items[0]) + encoded_items(items.drop_first())
    }
}

proof fn lemma_encoded_items_push(items: Seq<ValueModel>, v: ValueModel)
    ensures
        encoded_items(items.push(v)) == encoded_items(items) + encoded(v),
    decreases items.len(),
{
    let p = items.push(v);
    if items.len() == 0 {
        assert(p[0] == v);
        assert(p.drop_first() =~= Seq::<ValueModel>::empty());
        assert(encoded_items(p) == encoded(v) + encoded_items(Seq::<ValueModel>::empty()));
        assert(encoded(v) + Seq::<u8>::empty() =~= encoded(v));
        assert(Seq::<u8>::empty() + encoded(v) =~= encoded(v));
    } else {
        assert(p[0] == items[0]);
        assert(p.drop_first() =~= items.drop_first().push(v));
        lemma_encoded_items_push(items.drop_first(), v);
        assert(encoded_items(p) == encoded(items[0]) + (encoded_items(items.drop_first())
            + encoded(v)));
        assert(encoded(items[0]) + (encoded_items(items.drop_first()) + encoded(v)) =~= (encoded(
            items[0],
        ) + encoded_items(items.drop_first())) + encoded(v));
    }
}

/// Appends the decimal digits of `n`.
fn push_u64_dec(out: &mut Vec<u8>, n: u64)
    ensures
        final(out)@ == old(out)@ + dec_rep(n as nat),
    decreases n,
{
    if n >= 10 {
        proof {
            assert((n / 10) < n) by (nonlinear_arith)
                requires
                    n >= 10,
            ;
        }
        push_u64_dec(out, n / 10);
    }
    out.push(48 + (n % 10) as u8);
    proof {
        assert(final(out)@ =~= old(out)@ + dec_rep(n as nat));
    }
}

/// Appends the decimal digits of `n`, with a leading `-` when negative.
fn push_i64_dec(out: &mut Vec<u8>, n: i64)
    ensures
        final(out)@ == old(out)@ + int_rep(n as int),
{
    if n < 0 {
        out.push(TAG_ERROR);
        let mag: u64 = (-(n as i128)) as u64;
        push_u64_dec(out, mag);
        proof {
            assert(final(out)@ =~= old(out)@ + int_rep(n as int));
        }
    } else {
        push_u64_dec(out, n as u64);
    }
}

/// Appends the UTF-8 bytes of `s`.
fn push_str_bytes(out: &mut Vec<u8>, s: &str)
    ensures
        final(out)@ == old(out)@ + encode_utf8(s@),
{
    let bs = s.as_bytes();
    let mut i: usize = 0;
    while i < bs.len()
        invariant
            i <= bs@.len(),
            out@ == old(out)@ + bs@.subrange(0, i as int),
        decreases bs@.len() - i,
    {
        let b = bs[i];
        out.push(b);
        proof {
            assert(out@ =~= old(out)@ + bs@.subrange(0, i + 1 as int));
        }
        i = i + 1;
    }
    proof {
        assert(out@ =~= old(out)@ + encode_utf8(s@));
    }
}

/// Appends the given bytes.
fn push_bytes(out: &mut Vec<u8>, bs: &Vec<u8>)
    ensures
        final(out)@ == old(out)@ + bs@,
{
    let mut i: usize = 0;
    while i < bs.len()
        invariant
            i <= bs@.len(),
            out@ == old(out)@ + bs@.subrange(0, i as int),
        decreases bs@.len() - i,
    {
        let b = bs[i];
        out.push(b);
        proof {
            assert(out@ =~= old(out)@ + bs@.subrange(0, i + 1 as int));
        }
        i = i + 1;
    }
    proof {
        assert(out@ =~= old(out)@ + bs@);
    }
}

/// Appends `\r\n`.
fn push_crlf(out: &mut Vec<u8>)
    ensures
        final(out)@ == old(out)@ + crlf(),
{
    out.push(CR);
    out.push(LF);
    proof {
        assert(final(out)@ =~= old(out)@ + crlf());
    }
}

/// Appends the exact wire bytes of `v`.
fn encode_into(out: &mut Vec<u8>, v: &RespValue)
    ensures
        final(out)@ == old(out)@ + encoded(v@),
    decreases v,
{
    match v {
        RespValue::SimpleString(s) => {
            out.push(TAG_SIMPLE);
            push_str_bytes(out, s.as_str());
            push_crlf(out);
            proof {
                assert(final(out)@ =~= old(out)@ + encoded(v@));
            }
        },
        RespValue::Error(s) => {
            out.push(TAG_ERROR);
            push_str_bytes(out, s.as_str());
            push_crlf(out);
            proof {
                assert(final(out)@ =~= old(out)@ + encoded(v@));
            }
        },
        RespValue::Integer(n) => {
            out.push(TAG_INTEGER);
            push_i64_dec(out, *n);
            push_crlf(out);
            proof {
                assert(final(out)@ =~= old(out)@ + encoded(v@));
            }
        },
        RespValue::BulkString(s) => {
            out.push(TAG_BULK);
            push_u64_dec(out, s.as_str().as_bytes().len() as u64);
            push_crlf(out);
            push_str_bytes(out, s.as_str());
            push_crlf(out);
            proof {
                assert(final(out)@ =~= old(out)@ + encoded(v@));
            }
        },
        RespValue::BinaryBulkString(b) => {
            out.push(TAG_BULK);
            push_u64_dec(out, b.len() as u64);
            push_crlf(out);
            push_bytes(out, b);
            push_crlf(out);
            proof {
                assert(final(out)@ =~= old(out)@ + encoded(v@));
            }
        },
        RespValue::Null => {
            out.push(TAG_BULK);
            out.push(TAG_ERROR);
            out.push(DIGIT_ONE);
            push_crlf(out);
            proof {
                assert(final(out)@ =~= old(out)@ + encoded(v@));
            }
        },
        RespValue::NullArray => {
            out.push(TAG_ARRAY);
            out.push(TAG_ERROR);
            out.push(DIGIT_ONE);
            push_crlf(out);
            proof {
                assert(final(out)@ =~= old(out)@ + encoded(v@));
            }
        },
        RespValue::Array(vs) => {
            proof {
                assert(decreases_to!(*v => *vs));
                crate::model::lemma_models_of_prefix(*vs, vs@.len() as int);
            }
            let ghost items = models_of_prefix(*vs, vs@.len() as int);
            out.push(TAG_ARRAY);
            push_u64_dec(out, vs.len() as u64);
            push_crlf(out);
            proof {
                assert(out@ =~= old(out)@ + seq![TAG_ARRAY] + dec_rep(vs@.len()) + crlf());
            }
            let ghost mid = out@;
            let mut i: usize = 0;
            while i < vs.len()
                invariant
                    i <= vs@.len(),
                    items == models_of_prefix(*vs, vs@.len() as int),
                    items.len() == vs@.len(),
                    forall|k: int| 0 <= k < vs@.len() ==> items[k] == vs@[k]@,
                    out@ == mid + encoded_items(items.take(i as int)),
                    (decreases_to!(*v => *vs)),
                decreases vs@.len() - i,
            {
                proof {
                    assert(decreases_to!(*vs => vs@[i as int]));
                }
                encode_into(out, &vs[i]);
                proof {
                    assert(items.take(i + 1 as int) =~= items.take(i as int).push(
                        items[i as int],
                    ));
                    lemma_encoded_items_push(items.take(i as int), items[i as int]);
                }
                i = i + 1;
            }
            proof {
                assert(items.take(vs@.len() as int) =~= items);
                assert(v@ == ValueModel::Array(items));
                assert((vs@.len() as u64) as nat == vs@.len());
                assert(encoded(v@) == seq![TAG_ARRAY] + dec_rep(vs@.len()) + crlf()
                    + encoded_items(items));
                assert(out@ == mid + encoded_items(items));
                assert(mid == old(out)@ + seq![TAG_ARRAY] + dec_rep(vs@.len()) + crlf());
                assert(out@ =~= old(out)@ + encoded(v@));
            }
        },
    }
}

/// The exact wire bytes of `v`: `+s\r\n`, `-s\r\n`, `:n\r\n`,
/// `$len\r\npayload\r\n`, `$-1\r\n`, `*-1\r\n`, or `*len\r\n` followed by
/// each element's own encoding in order. Total: it never fails.
pub fn encode(v: &RespValue) -> (r: Vec<u8>)
    ensures
        r@ == encoded(v@),
{
    let mut out: Vec<u8> = Vec::new();
    encode_into(&mut out, v);
    out
}

/// Law: decoding a correctly framed simple-string or error line and encoding
/// the result reproduces the line byte for byte. A correctly framed line
/// carries its tag, a text payload within the size limit, and a final
/// `\r\n`, with no line feed before the last byte, so that one read takes
/// exactly the whole line. (The line-oriented `$` frames and the `PONG`
/// fallback for other tags do not round-trip: the encoder writes the
/// length-prefixed form for bulk strings.)
pub proof fn lemma_decode_then_encode(line: Seq<u8>)
    requires
        line.len() >= 3,
        line[0] == TAG_SIMPLE || line[0] == TAG_ERROR,
        line[line.len() - 2] == CR,
        line[line.len() - 1] == LF,
        forall|i: int| 0 <= i < line.len() - 1 ==> line[i] != LF,
        line.subrange(1, line.len() - 2).len() <= RESP_MAX_SIZE,
        valid_utf8(line.subrange(1, line.len() - 2)),
    ensures
        line_len(line) == line.len(),
        decode_frame_model(line) matches Ok(v) && encoded(v) == line,
{
    lemma_line_len_lf_at(line, line.len() - 1);
    let payload = line.subrange(1, line.len() - 2);
    vstd::utf8::decode_utf8_encode_utf8(payload);
    let v = decode_frame_model(line)->Ok_0;
    assert(encoded(v) =~= line);
}

} // verus!
