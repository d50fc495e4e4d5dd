//! Minimal PSD export: the 26-byte header and empty section lengths, followed by the raw
//! RGBA bytes of the bottom layer.

use vstd::prelude::*;
use crate::document::Document;

verus! {

/// The big-endian bytes of `n`.
pub open spec fn be32(n: u32) -> Seq<u8> {
    seq![((n >> 24u32) & 0xff) as u8, ((n >> 16u32) & 0xff) as u8, ((n >> 8u32) & 0xff) as u8, (n & 0xff) as u8]
}

/// The 26-byte header: signature `8BPS`, version 1, six reserved zero bytes, the channel count
/// (the layer count capped at one) as a 2-byte big-endian word, height, width, depth 16 and RGB
/// colour mode; then zero lengths for colour data, image resources and layer info, and raw
/// compression.
pub open spec fn psd_header(channels: u8, width: u32, height: u32) -> Seq<u8> {
    seq![56u8, 66u8, 80u8, 83u8, 0u8, 1u8, 0u8, 0u8, 0u8, 0u8, 0u8, 0u8]
        + seq![0u8, channels]
        + be32(height) + be32(width)
        + seq![0u8, 16u8, 0u8, 3u8]
        + seq![0u8, 0u8, 0u8, 0u8, 0u8, 0u8, 0u8, 0u8, 0u8, 0u8, 0u8, 0u8, 0u8, 0u8]
}

fn push_be32(out: &mut Vec<u8>, n: u32)
    ensures
        final(out)@ == old(out)@ + be32(n),
{
    out.push(((n >> 24) & 0xff) as u8);
    out.push(((n >> 16) & 0xff) as u8);
    out.push(((n >> 8) & 0xff) as u8);
    out.push((n & 0xff) as u8);
    assert(out@ =~= old(out)@ + be32(n));
}

fn push_zeros(out: &mut Vec<u8>, n: usize)
    ensures
        final(out)@ == old(out)@ + Seq::new(n as nat, |i: int| 0u8),
{
    let mut i: usize = 0;
    while i < n
        invariant
            i <= n,
            out@ == old(out)@ + Seq::new(i as nat, |j: int| 0u8),
        decreases n - i,
    {
        out.push(0u8);
        assert(out@ =~= old(out)@ + Seq::new((i + 1) as nat, |j: int| 0u8));
        i = i + 1;
    }
}

fn push_all(out: &mut Vec<u8>, s: &[u8])
    ensures
        final(out)@ == old(out)@ + s@,
{
    let mut i: usize = 0;
    while i < s.len()
        invariant
            i <= s@.len(),
            out@ == old(out)@ + s@.subrange(0, i as int),
        decreases s@.len() - i,
    {
        out.push(s[i]);
        assert(out@ =~= old(out)@ + s@.subrange(0, i + 1));
        i = i + 1;
    }
    assert(s@.subrange(0, s@.len() as int) =~= s@);
}

/// The PSD file bytes of `doc`: the header, then the bottom layer's RGBA bytes (none without layers).
pub fn psd_bytes(doc: &Document) -> (out: Vec<u8>)
    ensures
        doc.layers@.len() == 0 ==> out@ == psd_header(0, doc.width, doc.height),
        doc.layers@.len() > 0 ==> out@ == psd_header(1, doc.width, doc.height) + doc.lv()[0].pixels.bytes,
{
    let mut out: Vec<u8> = Vec::new();
    let channels: u8 = if doc.layers.len() > 0 { 1 } else { 0 };
    out.push(56u8);
    out.push(66u8);
    out.push(80u8);
    out.push(83u8);
    out.push(0u8);
    out.push(1u8);
    push_zeros(&mut out, 7);
    out.push(channels);
    push_be32(&mut out, doc.height);
    push_be32(&mut out, doc.width);
    out.push(0u8);
    out.push(16u8);
    out.push(0u8);
    out.push(3u8);
    push_zeros(&mut out, 14);
    assert(out@ =~= psd_header(channels, doc.width, doc.height));
    if doc.layers.len() > 0 {
        match doc.layers[0].as_pixel() {
            Some(pix) => push_all(&mut out, pix.as_slice()),
            None => {},
        }
    }
    out
}


} // verus!
