//! The packed pixel format: one 32-bit word per pixel, red in bits 16..24,
//! green in bits 8..16, blue in bits 0..8 and the top byte zero.

use crate::escape::EscapeResult;
use vstd::prelude::*;

verus! {

/// The word that holds the three colour bytes `r`, `g`, `b`.
pub open spec fn spec_pack_rgb(r: u8, g: u8, b: u8) -> u32 {
    (r as int * 0x1_0000 + g as int * 0x100 + b as int) as u32
}

/// The word of a grey pixel: `level` in each of the three channels.
pub open spec fn spec_pack_gray(level: u8) -> u32 {
    spec_pack_rgb(level, level, level)
}

/// The red channel of a packed pixel.
pub open spec fn spec_red(pixel: u32) -> u8 {
    ((pixel >> 16) & 0xff) as u8
}

/// The green channel of a packed pixel.
pub open spec fn spec_green(pixel: u32) -> u8 {
    ((pixel >> 8) & 0xff) as u8
}

/// The blue channel of a packed pixel.
pub open spec fn spec_blue(pixel: u32) -> u8 {
    (pixel & 0xff) as u8
}

/// Shifting and or-ing three bytes into place is the same as weighting them
/// by powers of 256.
pub proof fn lemma_shift_or_is_sum(r: u8, g: u8, b: u8)
    ensures
        ((r as u32) << 16) | ((g as u32) << 8) | (b as u32) == spec_pack_rgb(r, g, b),
{
    assert((((r as u32) << 16) | ((g as u32) << 8) | (b as u32)) == (r as u32) * 0x1_0000 + (g as u32)
        * 0x100 + (b as u32)) by (bit_vector);
}

/// Packs three colour bytes into one pixel word by explicit shifts, so that
/// the result does not depend on the byte order of the machine.
pub fn pack_rgb(r: u8, g: u8, b: u8) -> (packed: u32)
    ensures
        packed == spec_pack_rgb(r, g, b),
        packed == ((r as u32) << 16) | ((g as u32) << 8) | (b as u32),
        packed >> 24 == 0,
        packed <= 0x00ff_ffff,
{
    proof {
        lemma_pack_rgb_channels(r, g, b);
        lemma_shift_or_is_sum(r, g, b);
    }
    ((r as u32) << 16) | ((g as u32) << 8) | (b as u32)
}

/// Packs one intensity into all three channels.
pub fn pack_gray(level: u8) -> (packed: u32)
    ensures
        packed == spec_pack_gray(level),
        packed == ((level as u32) << 16) | ((level as u32) << 8) | (level as u32),
        packed == level as int * 0x01_0101,
{
    pack_rgb(level, level, level)
}

/// The top byte of every packed pixel is zero, and each channel reads back
/// the byte that was packed into it.
pub proof fn lemma_pack_rgb_channels(r: u8, g: u8, b: u8)
    ensures
        spec_pack_rgb(r, g, b) >> 24 == 0,
        spec_red(spec_pack_rgb(r, g, b)) == r,
        spec_green(spec_pack_rgb(r, g, b)) == g,
        spec_blue(spec_pack_rgb(r, g, b)) == b,
{
    lemma_shift_or_is_sum(r, g, b);
    let p = ((r as u32) << 16) | ((g as u32) << 8) | (b as u32);
    assert(p >> 24 == 0 && (p >> 16) & 0xff == r as u32 && (p >> 8) & 0xff == g as u32 && p & 0xff
        == b as u32) by (bit_vector)
        requires
            p == ((r as u32) << 16) | ((g as u32) << 8) | (b as u32),
    ;
}

/// Two packed pixels are equal only if their colour bytes are.
pub proof fn lemma_pack_rgb_injective(r1: u8, g1: u8, b1: u8, r2: u8, g2: u8, b2: u8)
    requires
        spec_pack_rgb(r1, g1, b1) == spec_pack_rgb(r2, g2, b2),
    ensures
        r1 == r2,
        g1 == g2,
        b1 == b2,
{
    lemma_pack_rgb_channels(r1, g1, b1);
    lemma_pack_rgb_channels(r2, g2, b2);
}

/// The pixel of an escape result: a bounded point is black, and a point that
/// diverged at index `i` is the grey of intensity `i`.
pub open spec fn spec_pack_escape(result: EscapeResult) -> u32 {
    match result {
        EscapeResult::Diverged(i) => spec_pack_gray(i),
        EscapeResult::Bounded => 0,
    }
}

/// Packs an escape result into a pixel word.
pub fn pack_escape(result: EscapeResult) -> (packed: u32)
    ensures
        packed == spec_pack_escape(result),
        packed <= 0x00ff_ffff,
{
    match result {
        EscapeResult::Diverged(i) => pack_gray(i),
        EscapeResult::Bounded => 0,
    }
}

/// The pixels that `count` texels of four bytes each repack to: of each texel
/// the first three bytes are red, green and blue, and the fourth is dropped.
pub open spec fn spec_repack_rgba(texels: Seq<u8>, count: nat) -> Seq<u32> {
    Seq::new(count, |i: int| spec_pack_rgb(texels[4 * i], texels[4 * i + 1], texels[4 * i + 2]))
}

/// Fills `buffer` with the pixels of the texels in `texels`, which lie in
/// red-green-blue-alpha byte order, four bytes to a pixel, in the order of the
/// buffer. Each word is built byte by byte; no byte sequence is read as a
/// wider integer.
pub fn repack_rgba(texels: &[u8], buffer: &mut [u32])
    requires
        texels@.len() >= 4 * old(buffer)@.len(),
    ensures
        final(buffer)@ == spec_repack_rgba(texels@, old(buffer)@.len()),
{
    let count: usize = buffer.len();
    let supplied: usize = texels.len();
    let mut i: usize = 0;
    while i < count
        invariant
            i <= count,
            buffer@.len() == count,
            supplied == texels@.len(),
            supplied >= 4 * count,
            forall|j: int| 0 <= j < i ==> #[trigger] buffer@[j] == spec_repack_rgba(texels@, count as nat)[j],
        decreases count - i,
    {
        let at: usize = 4 * i;
        buffer[i] = pack_rgb(texels[at], texels[at + 1], texels[at + 2]);
        i += 1;
    }
    assert(buffer@ =~= spec_repack_rgba(texels@, count as nat));
}

} // verus!
