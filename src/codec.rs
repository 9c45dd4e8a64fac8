//! The log's record format: each record is a MessagePack array holding the key
//! and, for a write, the value (`nil` for a removal). Records follow one
//! another with no framing of their own, so a log is replayed by decoding
//! records one after another from offset zero.

use vstd::prelude::*;
use vstd::utf8::encode_utf8;

verus! {

/// What `rmp_serde::to_vec` gives for the pair `(key, value)`: `None` where it fails.
pub uninterp spec fn msgpack_record(key: Seq<char>, value: Option<Seq<char>>) -> Option<Seq<u8>>;

/// What `rmp_serde::from_read` gives when it decodes a `(String, Option<String>)`
/// from the front of `b`: the key, the value and the number of bytes it read;
/// `None` where it fails.
pub uninterp spec fn msgpack_record_at(b: Seq<u8>) -> Option<(Seq<char>, Option<Seq<char>>, nat)>;

#[verifier::external_type_specification]
#[verifier::external_body]
pub struct ExEncodeError(rmp_serde::encode::Error);

#[verifier::external_type_specification]
#[verifier::external_body]
pub struct ExDecodeError(rmp_serde::decode::Error);

/// The value of an optional string, as characters.
pub open spec fn text_opt(v: Option<String>) -> Option<Seq<char>> {
    match v {
        Some(s) => Some(s@),
        None => None,
    }
}

/// The bytes `b` are one whole record for `key` and `value`: the decoder reads
/// exactly them and gives that pair, whatever follows them.
pub open spec fn framed(b: Seq<u8>, key: Seq<char>, value: Option<Seq<char>>) -> bool {
    &&& b.len() > 0
    &&& forall|rest: Seq<u8>| #[trigger] msgpack_record_at(b + rest) == Some((key, value, b.len()))
}

/// The largest length, in bytes, of a string in the format: MessagePack
/// writes a string's length in at most 32 bits.
pub const MAX_STR_BYTES: usize = 0xFFFF_FFFF;

/// The key and value fit the format: their UTF-8 encodings are no longer than
/// a string of the format can be.
pub open spec fn fits_format(key: Seq<char>, value: Option<Seq<char>>) -> bool {
    &&& encode_utf8(key).len() <= MAX_STR_BYTES
    &&& match value {
        Some(v) => encode_utf8(v).len() <= MAX_STR_BYTES,
        None => true,
    }
}

/// Whether the key and value fit the format.
pub fn fits(key: &String, value: &Option<String>) -> (r: bool)
    ensures
        r == fits_format(key@, text_opt(*value)),
{
    let key_fits = key.as_str().as_bytes().len() <= MAX_STR_BYTES;
    match value {
        Some(v) => key_fits && v.as_str().as_bytes().len() <= MAX_STR_BYTES,
        None => key_fits,
    }
}

/// Relies on `rmp_serde::to_vec` to encode the pair `(key, value)` as a
/// MessagePack array, and on `rmp_serde::from_read` to give that pair back
/// from those bytes, reading them and nothing after them (MessagePack values
/// carry their own lengths, and `from_read` pulls bytes from its reader only
/// as the value asks for them). The round trip is stated for strings whose
/// UTF-8 length fits in the 32 bits that `rmp::encode::write_str` writes it
/// in: it casts a longer length to `u32`.
#[verifier::external_body]
pub(crate) fn encode_record(key: &String, value: &Option<String>) -> (r: Result<
    Vec<u8>,
    rmp_serde::encode::Error,
>)
    ensures
        match r {
            Ok(b) => msgpack_record(key@, text_opt(*value)) == Some(b@) && (fits_format(
                key@,
                text_opt(*value),
            ) ==> framed(b@, key@, text_opt(*value))),
            Err(_) => msgpack_record(key@, text_opt(*value)) is None,
        },
{
    rmp_serde::to_vec(&(key, value))
}

/// Relies on `rmp_serde::from_read` to decode one `(String, Option<String>)`
/// from the bytes of `log` that start at `pos`. It reads from the slice as the
/// value asks, so what it gives depends on the bytes it read alone; the slice
/// left unread is handed back by its length.
#[verifier::external_body]
pub(crate) fn decode_record(log: &Vec<u8>, pos: usize) -> (r: Result<
    (String, Option<String>, usize),
    rmp_serde::decode::Error,
>)
    requires
        pos <= log@.len(),
    ensures
        match r {
            Ok((k, v, left)) => {
                let n = (log@.len() - pos - left) as nat;
                &&& left <= log@.len() - pos
                &&& msgpack_record_at(log@.subrange(pos as int, log@.len() as int)) == Some(
                    (k@, text_opt(v), n),
                )
                &&& forall|rest: Seq<u8>| #[trigger]
                    msgpack_record_at(log@.subrange(pos as int, pos + n) + rest) == Some(
                        (k@, text_opt(v), n),
                    )
            },
            Err(_) => msgpack_record_at(log@.subrange(pos as int, log@.len() as int)) is None,
        },
{
    let mut rd: &[u8] = &log[pos..];
    match rmp_serde::from_read::<_, (String, Option<String>)>(&mut rd) {
        Ok((k, v)) => Ok((k, v, rd.len())),
        Err(e) => Err(e),
    }
}

} // verus!
