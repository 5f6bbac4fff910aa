use std::io::Read;
use vstd::prelude::*;

verus! {

/// What the LZ4 frame decoder makes of `src`: the bytes up to the end mark of its first
/// frame, or `None` where the decoder reports an error.
pub uninterp spec fn lz4_frame_result(src: Seq<u8>) -> Option<Seq<u8>>;

/// What the LZO1X safe decompressor makes of the block `src` into `len` bytes, or `None`
/// where it reports an error.
pub uninterp spec fn lzo_block_result(src: Seq<u8>, len: nat) -> Option<Seq<u8>>;

#[verifier::external_type_specification]
#[verifier::external_body]
pub struct ExLzo(minilzo_rs::LZO);

/// Relies on `lz4_flex::frame::FrameDecoder` read to its end: the decoded bytes of `src`
/// up to the end mark of its first frame; `None` where the decoder reports an error. The
/// outcome depends on `src` alone.
#[verifier::external_body]
pub(crate) fn lz4_frame_decode(src: &[u8]) -> (r: Option<Vec<u8>>)
    ensures
        r is Some <==> lz4_frame_result(src@) is Some,
        r matches Some(v) ==> lz4_frame_result(src@) == Some(v@),
{
    let mut dst = Vec::new();
    match lz4_flex::frame::FrameDecoder::new(src).read_to_end(&mut dst) {
        Ok(_) => Some(dst),
        Err(_) => None,
    }
}

/// Relies on `minilzo_rs::LZO::decompress_safe`: it decodes `src` into a buffer of exactly
/// `len` bytes without writing past it; `None` where it reports an error. A block that
/// decodes to fewer bytes is padded with zeros and still succeeds, so a short block cannot
/// be told apart here. The outcome depends on `src` and `len` alone.
#[verifier::external_body]
pub(crate) fn lzo_decompress(ctx: &minilzo_rs::LZO, src: &[u8], len: usize) -> (r: Option<Vec<u8>>)
    ensures
        r is Some <==> lzo_block_result(src@, len as nat) is Some,
        r matches Some(v) ==> lzo_block_result(src@, len as nat) == Some(v@) && v@.len() == len,
{
    ctx.decompress_safe(src, len).ok()
}

} // verus!
