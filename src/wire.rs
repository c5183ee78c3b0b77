use vstd::prelude::*;

use crate::message::MessageMetadata;
use bytes::BytesMut;

verus! {

#[verifier::external_type_specification]
#[verifier::external_body]
pub struct ExBytesMut(BytesMut);

#[verifier::external_type_specification]
#[verifier::external_body]
pub struct ExBincodeErrorKind(bincode::ErrorKind);

/// The bytes that a buffer holds, in order.
pub uninterp spec fn bytes_view(b: BytesMut) -> Seq<u8>;

/// The bytes that bincode writes for metadata with this stream id and target.
pub uninterp spec fn metadata_encoding(stream_id: u64, target: Seq<char>) -> Seq<u8>;

/// The stream id and target that bincode reads from these bytes, if it reads any.
pub uninterp spec fn metadata_decoding(bytes: Seq<u8>) -> Option<(u64, Seq<char>)>;

/// Relies on `BytesMut::len`: the number of bytes held.
#[verifier::external_body]
pub(crate) fn buf_len(b: &BytesMut) -> (r: usize)
    ensures
        r == bytes_view(*b).len(),
{
    b.len()
}

/// Relies on `BytesMut::split_to`: the first `at` bytes move out, the rest stay.
/// It panics when `at` exceeds the length.
#[verifier::external_body]
pub(crate) fn buf_split_to(b: &mut BytesMut, at: usize) -> (r: BytesMut)
    requires
        at <= bytes_view(*old(b)).len(),
    ensures
        bytes_view(r) == bytes_view(*old(b)).subrange(0, at as int),
        bytes_view(*final(b)) == bytes_view(*old(b)).subrange(at as int, bytes_view(*old(b)).len() as int),
{
    b.split_to(at)
}

/// Relies on `<[u8]>::to_vec` through `BytesMut`'s `Deref`: a copy of the bytes held.
#[verifier::external_body]
pub(crate) fn buf_to_vec(b: &BytesMut) -> (r: Vec<u8>)
    ensures
        r@ == bytes_view(*b),
{
    b.to_vec()
}

/// Relies on `BytesMut::put_slice` (`BufMut`): the bytes are appended.
#[verifier::external_body]
pub(crate) fn buf_put_slice(b: &mut BytesMut, s: &[u8])
    ensures
        bytes_view(*final(b)) == bytes_view(*old(b)) + s@,
{
    bytes::BufMut::put_slice(b, s)
}

/// Relies on `bincode::serialize` of the pair (stream id, target), which is how bincode
/// writes the metadata record. With bincode's default options there is no size limit and
/// the pair holds nothing that bincode refuses, so it succeeds; what it writes, bincode
/// reads back as the same pair.
#[verifier::external_body]
pub(crate) fn serialize_metadata(m: &MessageMetadata) -> (r: Result<Vec<u8>, Box<bincode::ErrorKind>>)
    ensures
        r is Ok,
        r matches Ok(b) ==> b@ == metadata_encoding(m.stream_id.0, m.target@)
            && metadata_decoding(b@) == Some((m.stream_id.0, m.target@)),
{
    bincode::serialize(&(m.stream_id.0, &m.target))
}

/// Relies on `bincode::deserialize` of a (stream id, target) pair from the buffer's bytes.
#[verifier::external_body]
pub(crate) fn deserialize_metadata(b: &BytesMut) -> (r: Result<(u64, String), Box<bincode::ErrorKind>>)
    ensures
        r is Ok <==> metadata_decoding(bytes_view(*b)) is Some,
        r matches Ok(p) ==> metadata_decoding(bytes_view(*b)) == Some((p.0, p.1@)),
{
    bincode::deserialize(&b[..])
}

} // verus!
