//! The compact binary record form of an event.
//!
//! A record is a fixed, self-describing encoding of the four fields:
//! the name as a length-prefixed UTF-8 section, the optional
//! description as one tag byte followed (when present) by the same
//! kind of section, then the timestamp (eight bytes of seconds and
//! four of nanoseconds) and the 128-bit id, all little-endian.
//! Encoding is total and deterministic; decoding rejects everything
//! that is not the encoding of a record, and decoding an encoded
//! record yields the original event in every field.

use vstd::prelude::*;

verus! {

use crate::event::EventV;
use crate::time::Timestamp;
use vstd::bytes::*;
use vstd::slice::{slice_subrange, slice_to_vec};
use vstd::string::StrSliceExecFns;
use vstd::utf8::{decode_utf8, encode_utf8, encode_utf8_decode_utf8, encode_utf8_valid_utf8,
    valid_utf8};

/// The 64-bit pattern that stands for a signed seconds value in a
/// record.
pub open spec fn secs_bits(s: i64) -> u64 {
    if s >= 0 {
        s as u64
    } else {
        (s + 0x1_0000_0000_0000_0000) as u64
    }
}

/// The signed seconds value that a 64-bit pattern stands for.
pub open spec fn bits_secs(b: u64) -> i64 {
    if b <= i64::MAX as u64 {
        b as i64
    } else {
        (b - 0x1_0000_0000_0000_0000) as i64
    }
}

/// One length-prefixed text section: eight little-endian length
/// bytes, then the UTF-8 bytes of the text.
pub open spec fn enc_chunk(s: Seq<char>) -> Seq<u8> {
    spec_u64_to_le_bytes(encode_utf8(s).len() as u64) + encode_utf8(s)
}

/// The whole record: name section, description tag byte and section,
/// seconds, nanoseconds, id.
pub open spec fn spec_encode_event(v: EventV) -> Seq<u8> {
    enc_chunk(v.name) + (match v.description {
        Some(d) => seq![1u8] + enc_chunk(d),
        None => seq![0u8],
    }) + spec_u64_to_le_bytes(secs_bits(v.date_time.secs)) + spec_u32_to_le_bytes(
        v.date_time.nanos,
    ) + spec_u128_to_le_bytes(v.id)
}

/// Reads one text section off the front of `b`: the text and the
/// remaining bytes, or nothing when the section is malformed.
pub open spec fn dec_chunk(b: Seq<u8>) -> Option<(Seq<char>, Seq<u8>)> {
    if b.len() < 8 {
        None
    } else {
        let n = spec_u64_from_le_bytes(b.take(8)) as int;
        let rest = b.skip(8);
        if rest.len() < n {
            None
        } else if valid_utf8(rest.take(n)) {
            Some((decode_utf8(rest.take(n)), rest.skip(n)))
        } else {
            None
        }
    }
}

/// Reads the optional description off the front of `b`: a zero tag
/// byte means absent, a one tag byte is followed by a text section.
pub open spec fn dec_opt_chunk(b: Seq<u8>) -> Option<(Option<Seq<char>>, Seq<u8>)> {
    if b.len() < 1 {
        None
    } else if b[0] == 0 {
        Some((None, b.skip(1)))
    } else if b[0] == 1 {
        match dec_chunk(b.skip(1)) {
            Some(p) => Some((Some(p.0), p.1)),
            None => None,
        }
    } else {
        None
    }
}

/// What a byte string decodes to: the event value it encodes, or
/// nothing when it is not the well-formed encoding of one.
pub open spec fn spec_decode_event(b: Seq<u8>) -> Option<EventV> {
    match dec_chunk(b) {
        None => None,
        Some(name_rest) => match dec_opt_chunk(name_rest.1) {
            None => None,
            Some(desc_rest) => {
                let b2 = desc_rest.1;
                if b2.len() == 28 {
                    Some(
                        (EventV {
                            name: name_rest.0,
                            description: desc_rest.0,
                            date_time: Timestamp {
                                secs: bits_secs(spec_u64_from_le_bytes(b2.take(8))),
                                nanos: spec_u32_from_le_bytes(b2.skip(8).take(4)),
                            },
                            id: spec_u128_from_le_bytes(b2.skip(12)),
                        }),
                    )
                } else {
                    None
                }
            },
        },
    }
}

/// Relies on `String::from_utf8`: builds the string made of the
/// given UTF-8 bytes, and rejects byte strings that are not valid
/// UTF-8.
#[verifier::external_body]
pub(crate) fn string_from_utf8(v: Vec<u8>) -> (r: Option<String>)
    ensures
        r is Some <==> valid_utf8(v@),
        r matches Some(s) ==> s@ == decode_utf8(v@),
{
    match String::from_utf8(v) {
        Ok(s) => Some(s),
        Err(_) => None,
    }
}

/// Appends one length-prefixed text section to `out`.
pub(crate) fn append_chunk(out: &mut Vec<u8>, s: &str)
    ensures
        final(out)@ == old(out)@ + enc_chunk(s@),
{
    let mut data = s.as_bytes_vec();
    let len = data.len();
    let mut len_bytes = u64_to_le_bytes(len as u64);
    out.append(&mut len_bytes);
    out.append(&mut data);
    proof {
        assert(out@ =~= old(out)@ + enc_chunk(s@));
    }
}

/// Reads one text section of `bytes` starting at `pos`: the text and
/// the position just past the section.
pub(crate) fn read_chunk(bytes: &[u8], pos: usize) -> (r: Option<(String, usize)>)
    requires
        pos <= bytes@.len(),
    ensures
        match r {
            Some(p) => {
                &&& pos + 8 <= p.1 <= bytes@.len()
                &&& dec_chunk(bytes@.skip(pos as int)) == Some((p.0@, bytes@.skip(p.1 as int)))
            },
            None => dec_chunk(bytes@.skip(pos as int)) is None,
        },
{
    let ghost b = bytes@.skip(pos as int);
    let n = bytes.len();
    if n - pos < 8 {
        return None;
    }
    let len64 = u64_from_le_bytes(slice_subrange(bytes, pos, pos + 8));
    proof {
        assert(bytes@.subrange(pos as int, pos as int + 8) =~= b.take(8));
    }
    if len64 > (n - pos - 8) as u64 {
        return None;
    }
    let len = len64 as usize;
    let end = pos + 8 + len;
    let data = slice_to_vec(slice_subrange(bytes, pos + 8, end));
    proof {
        assert(bytes@.subrange(pos as int + 8, end as int) =~= b.skip(8).take(len as int));
    }
    match string_from_utf8(data) {
        Some(s) => {
            proof {
                assert(bytes@.skip(end as int) =~= b.skip(8).skip(len as int));
            }
            Some((s, end))
        },
        None => None,
    }
}

/// The two 64-bit views of a seconds value agree with each other.
proof fn lemma_secs_bits_round_trip(s: i64)
    ensures
        bits_secs(secs_bits(s)) == s,
{
}

/// Reading a text section off an encoded one yields the text back,
/// whatever follows it.
proof fn lemma_chunk_round_trip(s: Seq<char>, tail: Seq<u8>)
    requires
        encode_utf8(s).len() <= u64::MAX,
    ensures
        dec_chunk(enc_chunk(s) + tail) == Some((s, tail)),
{
    lemma_auto_spec_u64_to_from_le_bytes();
    let lb = spec_u64_to_le_bytes(encode_utf8(s).len() as u64);
    let b = enc_chunk(s) + tail;
    assert(b.take(8) =~= lb);
    let rest = b.skip(8);
    assert(rest =~= encode_utf8(s) + tail);
    let n = encode_utf8(s).len() as int;
    assert(spec_u64_from_le_bytes(b.take(8)) as int == n);
    assert(rest.take(n) =~= encode_utf8(s));
    assert(rest.skip(n) =~= tail);
    encode_utf8_valid_utf8(s);
    encode_utf8_decode_utf8(s);
}

/// Encode-then-decode is lossless: the record of any event decodes
/// to a value equal to the original in every field, including the
/// id.
pub proof fn lemma_event_round_trip(v: EventV)
    requires
        encode_utf8(v.name).len() <= u64::MAX,
        v.description matches Some(d) ==> encode_utf8(d).len() <= u64::MAX,
    ensures
        spec_decode_event(spec_encode_event(v)) == Some(v),
{
    lemma_auto_spec_u64_to_from_le_bytes();
    lemma_auto_spec_u32_to_from_le_bytes();
    lemma_auto_spec_u128_to_from_le_bytes();
    let mid = (match v.description {
        Some(d) => seq![1u8] + enc_chunk(d),
        None => seq![0u8],
    });
    let tail2 = spec_u64_to_le_bytes(secs_bits(v.date_time.secs)) + spec_u32_to_le_bytes(
        v.date_time.nanos,
    ) + spec_u128_to_le_bytes(v.id);
    let b = spec_encode_event(v);
    assert(b =~= enc_chunk(v.name) + (mid + tail2));
    lemma_chunk_round_trip(v.name, mid + tail2);
    let b1 = mid + tail2;
    match v.description {
        None => {
            assert(b1[0] == 0);
            assert(b1.skip(1) =~= tail2);
        },
        Some(d) => {
            assert(b1[0] == 1);
            assert(b1.skip(1) =~= enc_chunk(d) + tail2);
            lemma_chunk_round_trip(d, tail2);
        },
    }
    assert(tail2.len() == 28);
    assert(tail2.take(8) =~= spec_u64_to_le_bytes(secs_bits(v.date_time.secs)));
    assert(tail2.skip(8).take(4) =~= spec_u32_to_le_bytes(v.date_time.nanos));
    assert(tail2.skip(12) =~= spec_u128_to_le_bytes(v.id));
    lemma_secs_bits_round_trip(v.date_time.secs);
    assert(spec_decode_event(b) == Some(v));
}

} // verus!
