//! The host side of one frame on the compute device: the sizes of the
//! per-frame resources, the completion signal of the staging buffer's mapping,
//! and the step from mapped texels to the pixel buffer.
//!
//! Nothing here talks to a device. The caller creates the resources with the
//! sizes given here, submits the work, waits for the signal and hands the
//! mapped bytes over.

use crate::pixel::{repack_rgba, spec_repack_rgba};
use crate::resolution::{lemma_product_fits, Resolution};
use vstd::prelude::*;

verus! {

/// Bytes of one texel of the output image: red, green, blue, alpha.
pub const TEXEL_BYTES: u32 = 4;

/// Words of 32 bits in the uniform record: the upper-left point's two
/// coordinates, the view's two extents and the resolution's two counts.
pub const UNIFORM_WORDS: u64 = 6;

/// Bytes of the uniform record.
pub const UNIFORM_BYTES: u64 = 24;

/// The sizes of the resources of one frame.
#[derive(Clone, Copy, Debug, PartialEq, Eq, Structural)]
pub struct FrameLayout {
    /// Width of the output image and of the dispatch grid.
    pub width: u32,
    /// Height of the output image and of the dispatch grid.
    pub height: u32,
    /// Depth of the output image and of the dispatch grid.
    pub layers: u32,
    /// Bytes from one row of texels to the next in the staging buffer.
    pub bytes_per_row: u32,
    /// Rows of texels in the staging buffer.
    pub rows_per_image: u32,
    /// Bytes of the staging buffer.
    pub staging_size: u64,
    /// Bytes of the uniform buffer.
    pub uniform_size: u64,
}

/// Whether a row of texels of this resolution can be addressed in 32 bits.
pub open spec fn spec_layout_exists(resolution: Resolution) -> bool {
    TEXEL_BYTES * resolution.width <= u32::MAX
}

/// The layout of a frame of `resolution`: one texel and one invocation per
/// pixel, rows packed without padding.
pub open spec fn spec_frame_layout(resolution: Resolution) -> FrameLayout {
    FrameLayout {
        width: resolution.width,
        height: resolution.height,
        layers: 1,
        bytes_per_row: (TEXEL_BYTES * resolution.width) as u32,
        rows_per_image: resolution.height,
        staging_size: (TEXEL_BYTES * resolution.spec_pixel_count()) as u64,
        uniform_size: UNIFORM_BYTES,
    }
}

/// Computes the sizes of the resources of a frame of `resolution`, or `None`
/// where a row of texels is too long to be addressed.
pub fn frame_layout(resolution: &Resolution) -> (layout: Option<FrameLayout>)
    requires
        resolution.valid(),
    ensures
        layout == if spec_layout_exists(*resolution) {
            Some(spec_frame_layout(*resolution))
        } else {
            None
        },
{
    match resolution.width.checked_mul(TEXEL_BYTES) {
        Some(bytes_per_row) => {
            proof {
                lemma_product_fits(bytes_per_row, resolution.height);
                assert(TEXEL_BYTES * resolution.spec_pixel_count() == bytes_per_row as int
                    * resolution.height as int) by (nonlinear_arith)
                    requires
                        bytes_per_row == TEXEL_BYTES * resolution.width,
                        resolution.spec_pixel_count() == resolution.width as int
                            * resolution.height as int,
                ;
            }
            Some(
                FrameLayout {
                    width: resolution.width,
                    height: resolution.height,
                    layers: 1,
                    bytes_per_row,
                    rows_per_image: resolution.height,
                    staging_size: bytes_per_row as u64 * resolution.height as u64,
                    uniform_size: UNIFORM_BYTES,
                },
            )
        },
        None => None,
    }
}

/// The staging buffer of a frame holds exactly the texels of a pixel buffer
/// of its resolution, and the uniform buffer exactly the uniform record.
pub proof fn lemma_layout_sizes(resolution: Resolution)
    requires
        resolution.valid(),
        spec_layout_exists(resolution),
    ensures
        spec_frame_layout(resolution).staging_size == 4 * resolution.spec_pixel_count(),
        spec_frame_layout(resolution).staging_size == spec_frame_layout(resolution).bytes_per_row
            * spec_frame_layout(resolution).rows_per_image,
        spec_frame_layout(resolution).uniform_size == 4 * UNIFORM_WORDS,
{
    let bytes_per_row = (TEXEL_BYTES * resolution.width) as u32;
    lemma_product_fits(bytes_per_row, resolution.height);
    assert(TEXEL_BYTES * resolution.spec_pixel_count() == bytes_per_row as int
        * resolution.height as int) by (nonlinear_arith)
        requires
            bytes_per_row == TEXEL_BYTES * resolution.width,
            resolution.spec_pixel_count() == resolution.width as int * resolution.height as int,
    ;
}

/// What the device has said so far about the mapping of the staging buffer.
/// The mapping callback writes it once; the render call reads it.
#[derive(Clone, Copy, Debug, PartialEq, Eq, Structural)]
pub enum MapSignal {
    /// The callback has not run yet.
    Pending,
    /// The copy is done and the staging buffer is mapped.
    Mapped,
    /// The device could not map the staging buffer.
    Failed,
}

impl MapSignal {
    /// The signal that the callback leaves for a mapping that went well
    /// (`ok`) or failed.
    pub fn signaled(ok: bool) -> (signal: MapSignal)
        ensures
            signal == if ok {
                MapSignal::Mapped
            } else {
                MapSignal::Failed
            },
    {
        if ok {
            MapSignal::Mapped
        } else {
            MapSignal::Failed
        }
    }

    /// Whether the render call has to go on waiting. Having polled the device
    /// is no reason to stop: only a written signal is.
    pub fn must_wait(&self) -> (wait: bool)
        ensures
            wait == (*self == MapSignal::Pending),
    {
        match self {
            MapSignal::Pending => true,
            MapSignal::Mapped => false,
            MapSignal::Failed => false,
        }
    }
}

/// Why a frame could not be rendered.
#[derive(Clone, Copy, Debug, PartialEq, Eq, Structural)]
pub enum RenderFault {
    /// The device could not map the staging buffer; the frame is to be skipped.
    Readback,
}

/// Ends a frame whose mapping has been signaled. After `Mapped`, `texels` are
/// the mapped bytes of the staging buffer and `buffer` receives their pixels.
/// After `Failed`, `buffer` is left as it was and the fault is returned.
pub fn finish_readback(signal: MapSignal, texels: &[u8], buffer: &mut [u32]) -> (outcome: Result<
    (),
    RenderFault,
>)
    requires
        signal != MapSignal::Pending,
        signal == MapSignal::Mapped ==> texels@.len() >= 4 * old(buffer)@.len(),
    ensures
        signal == MapSignal::Mapped ==> outcome == Ok::<(), RenderFault>(()) && final(buffer)@
            == spec_repack_rgba(texels@, old(buffer)@.len()),
        signal == MapSignal::Failed ==> outcome == Err::<(), RenderFault>(RenderFault::Readback)
            && final(buffer)@ == old(buffer)@,
{
    match signal {
        MapSignal::Mapped => {
            repack_rgba(texels, buffer);
            Ok(())
        },
        _ => Err(RenderFault::Readback),
    }
}

} // verus!
