use vstd::prelude::*;
use crate::rgb_pixel_info::RgbPixelInfo;

verus! {

/// What the boot loader reports about a linear frame buffer: its size in
/// pixels, the length of one row in bytes (`pitch`), the bits per pixel and
/// where the colour channels sit in a pixel.
#[derive(Debug, Clone, Copy)]
#[non_exhaustive]
pub struct FrameBufferInfo {
    pub width: u64,
    pub height: u64,
    pub pitch: u64,
    pub bits_per_pixel: u16,
    pub pixel_info: RgbPixelInfo,
}

impl FrameBufferInfo {
    /// Gathers the values read from the boot loader's frame-buffer record.
    pub fn new(
        width: u64,
        height: u64,
        pitch: u64,
        bits_per_pixel: u16,
        pixel_info: RgbPixelInfo,
    ) -> (info: FrameBufferInfo)
        ensures
            info.width == width,
            info.height == height,
            info.pitch == pitch,
            info.bits_per_pixel == bits_per_pixel,
            info.pixel_info == pixel_info,
    {
        FrameBufferInfo { width, height, pitch, bits_per_pixel, pixel_info }
    }
}

} // verus!
