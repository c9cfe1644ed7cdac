//! The compact binary at-rest format.
//!
//! A journaled record is stored as one byte string: the UTF-8 bytes of the
//! entity id with a length prefix, the sequence number and timestamp as
//! big-endian 64-bit words, the optional type tag behind a presence byte,
//! and the length-prefixed payload encoding.  Decoding an encoding yields
//! the original record; [`lemma_record_round_trip`] proves it.

use crate::record::{Meta, Record};
use vstd::prelude::*;
use vstd::slice::slice_to_vec;
use vstd::utf8::{decode_utf8, encode_utf8, encode_utf8_decode_utf8, valid_utf8};

verus! {

/// A payload that can travel through the journal: it knows its own byte
/// encoding, and decoding an encoding yields the value back.
pub trait Codec: Sized {
    /// The byte encoding of this value.
    spec fn enc_spec(self) -> Seq<u8>;

    /// The value a byte string decodes to, if any.
    spec fn dec_spec(bytes: Seq<u8>) -> Option<Self>;

    /// Law: decoding an encoding yields the original value.
    proof fn lemma_round_trip(self)
        ensures
            Self::dec_spec(self.enc_spec()) == Some(self),
    ;

    /// Law: an encoding fits in a byte vector.
    proof fn lemma_enc_len(self)
        ensures
            self.enc_spec().len() < 0x1_0000_0000_0000_0000,
    ;

    /// Encodes the value.
    fn encode(&self) -> (r: Vec<u8>)
        ensures
            r@ == self.enc_spec(),
    ;

    /// Decodes a byte string, if it is a valid encoding.
    fn decode(bytes: &[u8]) -> (r: Option<Self>)
        ensures
            r == Self::dec_spec(bytes@),
    ;
}

/// The big-endian bytes of a 64-bit word, most significant first.
pub open spec fn be64(n: u64) -> Seq<u8> {
    Seq::new(8, |i: int| (n >> (((7 - i) * 8) as u64)) as u8)
}

/// The 64-bit word read from eight big-endian bytes.
pub open spec fn from_be64(b: Seq<u8>) -> u64
    recommends
        b.len() == 8,
{
    ((b[0] as u64) << 56) | ((b[1] as u64) << 48) | ((b[2] as u64) << 40) | ((b[3] as u64) << 32)
        | ((b[4] as u64) << 24) | ((b[5] as u64) << 16) | ((b[6] as u64) << 8) | (b[7] as u64)
}

/// Reading back the big-endian bytes of a word yields the word.
pub proof fn lemma_be64_round_trip(n: u64)
    ensures
        be64(n).len() == 8,
        from_be64(be64(n)) == n,
{
    let b = be64(n);
    assert(n >> 0u64 == n) by (bit_vector);
    assert(b[0] == (n >> 56) as u8);
    assert(b[1] == (n >> 48) as u8);
    assert(b[2] == (n >> 40) as u8);
    assert(b[3] == (n >> 32) as u8);
    assert(b[4] == (n >> 24) as u8);
    assert(b[5] == (n >> 16) as u8);
    assert(b[6] == (n >> 8) as u8);
    assert(b[7] == n as u8);
    assert((((n >> 56) as u8) as u64) << 56 | (((n >> 48) as u8) as u64) << 48 | (((n >> 40) as u8)
        as u64) << 40 | (((n >> 32) as u8) as u64) << 32 | (((n >> 24) as u8) as u64) << 24 | (((n
        >> 16) as u8) as u64) << 16 | (((n >> 8) as u8) as u64) << 8 | ((n as u8) as u64) == n)
        by (bit_vector);
}

/// Casting a signed word to unsigned and back yields the word.
pub proof fn lemma_i64_cast_round_trip(n: i64)
    ensures
        ((n as u64) as i64) == n,
{
    assert(((n as u64) as i64) == n) by (bit_vector);
}

/// Writes the big-endian bytes of `n` onto the end of `out`.
pub fn push_be64(out: &mut Vec<u8>, n: u64)
    ensures
        final(out)@ == old(out)@ + be64(n),
{
    out.push((n >> 56) as u8);
    out.push((n >> 48) as u8);
    out.push((n >> 40) as u8);
    out.push((n >> 32) as u8);
    out.push((n >> 24) as u8);
    out.push((n >> 16) as u8);
    out.push((n >> 8) as u8);
    out.push(n as u8);
    proof {
        assert(n >> 0u64 == n) by (bit_vector);
        assert(out@ =~= old(out)@ + be64(n));
    }
}

/// Reads the big-endian word at offset `off` of `b`.
pub fn read_be64(b: &[u8], off: usize) -> (r: u64)
    requires
        off + 8 <= b@.len(),
    ensures
        r == from_be64(b@.subrange(off as int, off + 8)),
{
    let r = ((b[off] as u64) << 56) | ((b[off + 1] as u64) << 48) | ((b[off + 2] as u64) << 40) | ((
    b[off + 3] as u64) << 32) | ((b[off + 4] as u64) << 24) | ((b[off + 5] as u64) << 16) | ((b[off
        + 6] as u64) << 8) | (b[off + 7] as u64);
    proof {
        let s = b@.subrange(off as int, off + 8);
        assert(s[0] == b@[off as int]);
        assert(s[1] == b@[off + 1]);
        assert(s[2] == b@[off + 2]);
        assert(s[3] == b@[off + 3]);
        assert(s[4] == b@[off + 4]);
        assert(s[5] == b@[off + 5]);
        assert(s[6] == b@[off + 6]);
        assert(s[7] == b@[off + 7]);
    }
    r
}

/// A byte string with its length as a big-endian prefix.
pub open spec fn length_prefixed(s: Seq<u8>) -> Seq<u8> {
    be64(s.len() as u64) + s
}

/// Parses a length-prefixed byte string at offset `off`; yields the string
/// and the offset just past it.
pub open spec fn parse_prefixed(b: Seq<u8>, off: int) -> Option<(Seq<u8>, int)> {
    if off + 8 > b.len() {
        None
    } else {
        let l = from_be64(b.subrange(off, off + 8)) as int;
        if off + 8 + l > b.len() {
            None
        } else {
            Some((b.subrange(off + 8, off + 8 + l), off + 8 + l))
        }
    }
}

/// Parses a big-endian word at offset `off`; yields it and the offset just
/// past it.
pub open spec fn parse_word(b: Seq<u8>, off: int) -> Option<(u64, int)> {
    if off + 8 > b.len() {
        None
    } else {
        Some((from_be64(b.subrange(off, off + 8)), off + 8))
    }
}

/// The encoding of a whole record, from its parts: entity id, sequence
/// number, timestamp, optional tag, and the payload's own encoding.
#[verifier::opaque]
pub open spec fn record_enc_parts(
    entity: Seq<char>,
    seq_nr: i64,
    timestamp: i64,
    tag: Option<Seq<char>>,
    payload: Seq<u8>,
) -> Seq<u8> {
    length_prefixed(encode_utf8(entity)) + (be64(seq_nr as u64) + (be64(timestamp as u64) + ((match
        tag {
        None => seq![0u8],
        Some(t) => seq![1u8] + length_prefixed(encode_utf8(t)),
    }) + length_prefixed(payload))))
}

/// The encoding of a record.
#[verifier::opaque]
pub open spec fn record_enc<T: Codec>(r: Record<T>) -> Seq<u8> {
    record_enc_parts(
        r.entity_spec(),
        r.seq_nr_spec(),
        r.timestamp_spec(),
        r.tag_spec(),
        r.message_spec().enc_spec(),
    )
}

/// The parts a byte string decodes to, if it is a valid record encoding:
/// entity id, sequence number, timestamp, optional tag, and payload.
#[verifier::opaque]
pub open spec fn record_dec<T: Codec>(b: Seq<u8>) -> Option<
    (Seq<char>, i64, i64, Option<Seq<char>>, T),
> {
    match parse_prefixed(b, 0) {
        None => None,
        Some((eb, o1)) => if !valid_utf8(eb) {
            None
        } else {
            match parse_word(b, o1) {
                None => None,
                Some((squ, o2)) => match parse_word(b, o2) {
                    None => None,
                    Some((tsu, o3)) => if o3 >= b.len() {
                        None
                    } else if b[o3] == 0u8 {
                        record_dec_tail(b, o3 + 1, decode_utf8(eb), squ as i64, tsu as i64, None)
                    } else if b[o3] == 1u8 {
                        match parse_prefixed(b, o3 + 1) {
                            None => None,
                            Some((tb, o4)) => if !valid_utf8(tb) {
                                None
                            } else {
                                record_dec_tail(
                                    b,
                                    o4,
                                    decode_utf8(eb),
                                    squ as i64,
                                    tsu as i64,
                                    Some(decode_utf8(tb)),
                                )
                            },
                        }
                    } else {
                        None
                    },
                },
            }
        },
    }
}

/// The payload step of [`record_dec`]: parses the length-prefixed payload
/// at `off`, demands that it ends the byte string, and decodes it.
#[verifier::opaque]
pub open spec fn record_dec_tail<T: Codec>(
    b: Seq<u8>,
    off: int,
    entity: Seq<char>,
    seq_nr: i64,
    timestamp: i64,
    tag: Option<Seq<char>>,
) -> Option<(Seq<char>, i64, i64, Option<Seq<char>>, T)> {
    match parse_prefixed(b, off) {
        None => None,
        Some((pb, o5)) => if o5 != b.len() {
            None
        } else {
            match T::dec_spec(pb) {
                None => None,
                Some(p) => Some((entity, seq_nr, timestamp, tag, p)),
            }
        },
    }
}

/// Concatenation of byte strings associates.
proof fn lemma_assoc(a: Seq<u8>, b: Seq<u8>, c: Seq<u8>)
    ensures
        (a + b) + c == a + (b + c),
{
    assert((a + b) + c =~= a + (b + c));
}

/// The empty byte string is a right identity of concatenation.
proof fn lemma_add_empty(a: Seq<u8>)
    ensures
        a + Seq::<u8>::empty() == a,
{
    assert(a + Seq::<u8>::empty() =~= a);
}

/// The empty byte string is a left identity of concatenation.
proof fn lemma_empty_add(a: Seq<u8>)
    ensures
        Seq::<u8>::empty() + a == a,
{
    assert(Seq::<u8>::empty() + a =~= a);
}

/// Parsing a length-prefixed string embedded in a larger byte string finds
/// exactly the embedded string.
proof fn lemma_parse_prefixed_of_concat(pre: Seq<u8>, s: Seq<u8>, rest: Seq<u8>)
    requires
        s.len() < 0x1_0000_0000_0000_0000,
    ensures
        parse_prefixed(pre + (length_prefixed(s) + rest), pre.len() as int) matches Some(p) && p.0
            == s && p.1 == pre.len() + 8 + s.len(),
{
    let whole = pre + (length_prefixed(s) + rest);
    let off = pre.len() as int;
    lemma_be64_round_trip(s.len() as u64);
    assert(whole.subrange(off, off + 8) =~= be64(s.len() as u64));
    assert(whole.subrange(off + 8, off + 8 + s.len()) =~= s);
}

/// Parsing a big-endian word embedded in a larger byte string finds the word.
proof fn lemma_parse_word_of_concat(pre: Seq<u8>, n: u64, rest: Seq<u8>)
    ensures
        parse_word(pre + (be64(n) + rest), pre.len() as int) matches Some(p) && p.0 == n && p.1
            == pre.len() + 8,
{
    let whole = pre + (be64(n) + rest);
    let off = pre.len() as int;
    lemma_be64_round_trip(n);
    assert(whole.subrange(off, off + 8) =~= be64(n));
}

/// Parsing the header of an encoded record — entity bytes, sequence word,
/// timestamp word — finds exactly the encoded parts.
proof fn lemma_record_header(eb: Seq<u8>, s: u64, t: u64, rest: Seq<u8>)
    requires
        eb.len() < 0x1_0000_0000_0000_0000,
    ensures
        ({
            let b = length_prefixed(eb) + (be64(s) + (be64(t) + rest));
            &&& parse_prefixed(b, 0) == Some((eb, 8 + eb.len() as int))
            &&& parse_word(b, 8 + eb.len() as int) == Some((s, 16 + eb.len() as int))
            &&& parse_word(b, 16 + eb.len() as int) == Some((t, 24 + eb.len() as int))
            &&& b == ((length_prefixed(eb) + be64(s)) + be64(t)) + rest
            &&& b.len() == 24 + eb.len() + rest.len()
        }),
{
    let b = length_prefixed(eb) + (be64(s) + (be64(t) + rest));
    let pre1 = length_prefixed(eb);
    let pre2 = pre1 + be64(s);
    let rest1 = be64(t) + rest;
    lemma_empty_add(b);
    lemma_parse_prefixed_of_concat(Seq::<u8>::empty(), eb, be64(s) + rest1);
    lemma_parse_word_of_concat(pre1, s, rest1);
    lemma_assoc(pre1, be64(s), rest1);
    lemma_parse_word_of_concat(pre2, t, rest);
    lemma_assoc(pre2, be64(t), rest);
}

/// Parsing the tail of an encoded record without a tag — the presence byte
/// and the length-prefixed payload — finds the payload bytes.
proof fn lemma_record_tail_none(pre: Seq<u8>, pb: Seq<u8>)
    requires
        pb.len() < 0x1_0000_0000_0000_0000,
    ensures
        ({
            let b = pre + (seq![0u8] + length_prefixed(pb));
            &&& pre.len() < b.len()
            &&& b[pre.len() as int] == 0u8
            &&& parse_prefixed(b, pre.len() as int + 1) == Some((pb, b.len() as int))
        }),
{
    let b = pre + (seq![0u8] + length_prefixed(pb));
    lemma_assoc(pre, seq![0u8], length_prefixed(pb));
    lemma_add_empty(length_prefixed(pb));
    lemma_parse_prefixed_of_concat(pre + seq![0u8], pb, Seq::<u8>::empty());
    assert(b[pre.len() as int] == (seq![0u8] + length_prefixed(pb))[0]);
}

/// Parsing the tail of an encoded record with a tag — the presence byte,
/// the length-prefixed tag bytes, and the length-prefixed payload — finds
/// the tag and payload bytes.
proof fn lemma_record_tail_some(pre: Seq<u8>, tb: Seq<u8>, pb: Seq<u8>)
    requires
        tb.len() < 0x1_0000_0000_0000_0000,
        pb.len() < 0x1_0000_0000_0000_0000,
    ensures
        ({
            let b = pre + ((seq![1u8] + length_prefixed(tb)) + length_prefixed(pb));
            &&& pre.len() < b.len()
            &&& b[pre.len() as int] == 1u8
            &&& parse_prefixed(b, pre.len() as int + 1) == Some((tb, pre.len() as int + 9 + tb.len() as int))
            &&& parse_prefixed(b, pre.len() as int + 9 + tb.len() as int) == Some((pb, b.len() as int))
        }),
{
    let b = pre + ((seq![1u8] + length_prefixed(tb)) + length_prefixed(pb));
    let pre4 = pre + seq![1u8];
    let pre5 = pre4 + length_prefixed(tb);
    lemma_assoc(seq![1u8], length_prefixed(tb), length_prefixed(pb));
    lemma_assoc(pre, seq![1u8], length_prefixed(tb) + length_prefixed(pb));
    lemma_parse_prefixed_of_concat(pre4, tb, length_prefixed(pb));
    lemma_assoc(pre4, length_prefixed(tb), length_prefixed(pb));
    lemma_add_empty(length_prefixed(pb));
    lemma_parse_prefixed_of_concat(pre5, pb, Seq::<u8>::empty());
    assert(b[pre.len() as int] == ((seq![1u8] + length_prefixed(tb)) + length_prefixed(pb))[0]);
}

/// Law: decoding the encoding of a record yields the original parts.
///
/// The length bounds only say that each piece fits in a byte vector, which
/// holds of every record that exists at run time.
#[verifier::rlimit(100)]
pub proof fn lemma_record_round_trip_parts<T: Codec>(
    entity: Seq<char>,
    seq_nr: i64,
    timestamp: i64,
    tag: Option<Seq<char>>,
    payload: T,
)
    requires
        encode_utf8(entity).len() < 0x1_0000_0000_0000_0000,
        tag matches Some(t) ==> encode_utf8(t).len() < 0x1_0000_0000_0000_0000,
        payload.enc_spec().len() < 0x1_0000_0000_0000_0000,
    ensures
        record_dec::<T>(record_enc_parts(entity, seq_nr, timestamp, tag, payload.enc_spec()))
            == Some((entity, seq_nr, timestamp, tag, payload)),
{
    reveal(record_enc_parts);
    reveal(record_dec);
    reveal(record_dec_tail);
    let eb = encode_utf8(entity);
    let pb = payload.enc_spec();
    let tag_part = match tag {
        None => seq![0u8],
        Some(t) => seq![1u8] + length_prefixed(encode_utf8(t)),
    };
    let b = record_enc_parts(entity, seq_nr, timestamp, tag, pb);
    let o3 = 24 + eb.len() as int;
    let pre3 = (length_prefixed(eb) + be64(seq_nr as u64)) + be64(timestamp as u64);
    lemma_record_header(eb, seq_nr as u64, timestamp as u64, tag_part + length_prefixed(pb));
    lemma_i64_cast_round_trip(seq_nr);
    lemma_i64_cast_round_trip(timestamp);
    vstd::utf8::encode_utf8_valid_utf8(entity);
    encode_utf8_decode_utf8(entity);
    payload.lemma_round_trip();
    match tag {
        None => {
            lemma_record_tail_none(pre3, pb);
            assert(record_dec::<T>(b) == Some((entity, seq_nr, timestamp, tag, payload)));
        },
        Some(t) => {
            let tb = encode_utf8(t);
            vstd::utf8::encode_utf8_valid_utf8(t);
            encode_utf8_decode_utf8(t);
            lemma_record_tail_some(pre3, tb, pb);
            assert(record_dec::<T>(b) == Some((entity, seq_nr, timestamp, tag, payload)));
        },
    }
}

/// Law: decoding the encoding of a record yields the original record.
pub proof fn lemma_record_round_trip<T: Codec>(r: Record<T>)
    requires
        encode_utf8(r.entity_spec()).len() < 0x1_0000_0000_0000_0000,
        r.tag_spec() matches Some(t) ==> encode_utf8(t).len() < 0x1_0000_0000_0000_0000,
        r.message_spec().enc_spec().len() < 0x1_0000_0000_0000_0000,
    ensures
        record_dec::<T>(record_enc(r)) == Some(
            (r.entity_spec(), r.seq_nr_spec(), r.timestamp_spec(), r.tag_spec(), r.message_spec()),
        ),
{
    reveal(record_enc);
    lemma_record_round_trip_parts(
        r.entity_spec(),
        r.seq_nr_spec(),
        r.timestamp_spec(),
        r.tag_spec(),
        r.message_spec(),
    );
}

/// Relies on `String::from_utf8`: it succeeds exactly on valid UTF-8 input,
/// and the string it returns holds exactly the given bytes.
#[verifier::external_body]
pub fn bytes_to_string(bytes: Vec<u8>) -> (r: Option<String>)
    ensures
        r is Some <==> valid_utf8(bytes@),
        r matches Some(s) ==> encode_utf8(s@) == bytes@,
{
    String::from_utf8(bytes).ok()
}

/// Reads the length-prefixed byte string at offset `off`, as
/// [`parse_prefixed`] describes it.
fn read_prefixed(b: &[u8], off: usize) -> (r: Option<(Vec<u8>, usize)>)
    requires
        off <= b@.len(),
    ensures
        match r {
            Some(p) => parse_prefixed(b@, off as int) == Some((p.0@, p.1 as int)) && p.1
                <= b@.len(),
            None => parse_prefixed(b@, off as int) is None,
        },
{
    let n = b.len();
    if n - off < 8 {
        return None;
    }
    let l = read_be64(b, off);
    let rem = (n - off - 8) as u64;
    if l > rem {
        return None;
    }
    let lu = l as usize;
    let piece = slice_to_vec(&b[off + 8..off + 8 + lu]);
    Some((piece, off + 8 + lu))
}

/// Reads the big-endian word at offset `off`, as [`parse_word`] describes it.
fn read_word(b: &[u8], off: usize) -> (r: Option<(u64, usize)>)
    requires
        off <= b@.len(),
    ensures
        match r {
            Some(p) => parse_word(b@, off as int) == Some((p.0, p.1 as int)) && p.1 <= b@.len(),
            None => parse_word(b@, off as int) is None,
        },
{
    let n = b.len();
    if n - off < 8 {
        return None;
    }
    Some((read_be64(b, off), off + 8))
}

impl<T: Codec> Record<T> {
    /// Encodes this record in the at-rest binary format.
    pub fn encode(&self) -> (r: Vec<u8>)
        ensures
            r@ == record_enc(*self),
    {
        let mut out: Vec<u8> = Vec::new();
        let eb = self.entity_id().as_bytes_vec();
        push_be64(&mut out, eb.len() as u64);
        out.extend_from_slice(eb.as_slice());
        push_be64(&mut out, #[verifier::truncate] (self.seq_nr() as u64));
        push_be64(&mut out, #[verifier::truncate] (self.timestamp() as u64));
        match self.type_tag() {
            None => {
                out.push(0u8);
            },
            Some(t) => {
                out.push(1u8);
                let tb = t.as_bytes_vec();
                push_be64(&mut out, tb.len() as u64);
                out.extend_from_slice(tb.as_slice());
            },
        }
        let pb = self.message().encode();
        push_be64(&mut out, pb.len() as u64);
        out.extend_from_slice(pb.as_slice());
        proof {
            reveal(record_enc);
            reveal(record_enc_parts);
            assert(out@ =~= record_enc(*self));
        }
        out
    }

    /// Decodes a byte string in the at-rest binary format, as
    /// [`record_dec`] describes it.
    pub fn decode(bytes: &[u8]) -> (r: Option<Record<T>>)
        ensures
            match r {
                Some(rec) => record_dec::<T>(bytes@) == Some(
                    (
                        rec.entity_spec(),
                        rec.seq_nr_spec(),
                        rec.timestamp_spec(),
                        rec.tag_spec(),
                        rec.message_spec(),
                    ),
                ),
                None => record_dec::<T>(bytes@) is None,
            },
    {
        proof {
            reveal(record_dec);
            reveal(record_dec_tail);
        }
        let (eb, o1) = match read_prefixed(bytes, 0) {
            None => {
                return None;
            },
            Some(p) => p,
        };
        let entity = match bytes_to_string(eb) {
            None => {
                return None;
            },
            Some(s) => s,
        };
        proof {
            encode_utf8_decode_utf8(entity@);
        }
        let (squ, o2) = match read_word(bytes, o1) {
            None => {
                return None;
            },
            Some(p) => p,
        };
        let (tsu, o3) = match read_word(bytes, o2) {
            None => {
                return None;
            },
            Some(p) => p,
        };
        if o3 >= bytes.len() {
            return None;
        }
        let flag = bytes[o3];
        let (tag, o4) = if flag == 0u8 {
            (None, o3 + 1)
        } else if flag == 1u8 {
            let (tb, o4t) = match read_prefixed(bytes, o3 + 1) {
                None => {
                    return None;
                },
                Some(p) => p,
            };
            let tag = match bytes_to_string(tb) {
                None => {
                    return None;
                },
                Some(s) => s,
            };
            proof {
                encode_utf8_decode_utf8(tag@);
            }
            (Some(tag), o4t)
        } else {
            return None;
        };
        let (pb, o5) = match read_prefixed(bytes, o4) {
            None => {
                return None;
            },
            Some(p) => p,
        };
        if o5 != bytes.len() {
            return None;
        }
        let payload = match T::decode(pb.as_slice()) {
            None => {
                return None;
            },
            Some(p) => p,
        };
        let seq_nr = #[verifier::truncate] (squ as i64);
        let timestamp = #[verifier::truncate] (tsu as i64);
        let rec = match tag {
            None => Record::event(entity, seq_nr, payload, timestamp),
            Some(t) => Record::command(entity.as_str(), payload, timestamp, t, seq_nr),
        };
        Some(rec)
    }
}

} // verus!
