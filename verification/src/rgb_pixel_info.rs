use vstd::prelude::*;

verus! {

/// A 24-bit colour with one byte per channel.
#[derive(Debug, Clone, Copy, PartialEq, Eq, Structural)]
pub struct Rgb {
    pub r: u8,
    pub g: u8,
    pub b: u8,
}

impl Rgb {
    /// Builds a colour from its three channels.
    pub fn new(r: u8, g: u8, b: u8) -> (c: Rgb)
        ensures
            c == (Rgb { r, g, b }),
    {
        Rgb { r, g, b }
    }
}

/// Where each colour channel sits inside a 32-bit frame-buffer pixel: the
/// number of bits of the channel (`*_mask_size`) and the position of its
/// lowest bit (`*_mask_shift`).
#[derive(Debug, Clone, Copy)]
pub struct RgbPixelInfo {
    pub red_mask_size: u8,
    pub red_mask_shift: u8,
    pub green_mask_size: u8,
    pub green_mask_shift: u8,
    pub blue_mask_size: u8,
    pub blue_mask_shift: u8,
}

/// The low `size` bits set, as a 32-bit value.
pub open spec fn low_mask(size: u32) -> u32 {
    ((1u32 << size) - 1) as u32
}

/// One channel value placed in its field: its low `size` bits moved up by `shift`.
pub open spec fn channel_bits(value: u8, size: u32, shift: u32) -> u32 {
    ((value as u32) & low_mask(size)) << shift
}

/// A left shift of one by less than 32 is at least one.
proof fn lemma_one_shl_positive(size: u32)
    requires
        size < 32,
    ensures
        (1u32 << size) >= 1,
{
    assert((1u32 << size) >= 1) by (bit_vector)
        requires
            size < 32,
    ;
}

/// The bit field of `size` bits starting at bit `shift`.
pub open spec fn field_mask(size: u32, shift: u32) -> u32 {
    low_mask(size) << shift
}

/// Reads back the field of `size` bits at `shift` from a pixel.
pub open spec fn read_field(pixel: u32, size: u32, shift: u32) -> u32 {
    (pixel >> shift) & low_mask(size)
}

/// The field of `size` bits at `shift` lies inside the 32 bits of a pixel.
pub open spec fn field_fits(size: u32, shift: u32) -> bool {
    size < 32 && shift < 32 && size + shift <= 32
}

/// Two fields share no bit.
pub open spec fn fields_apart(size1: u32, shift1: u32, size2: u32, shift2: u32) -> bool {
    shift1 + size1 <= shift2 || shift2 + size2 <= shift1
}

/// A channel placed in a field has no bit outside that field.
proof fn lemma_channel_inside_field(v: u32, size: u32, shift: u32)
    requires
        field_fits(size, shift),
    ensures
        ((v & low_mask(size)) << shift) & !field_mask(size, shift) == 0,
{
    assert(((v & low_mask(size)) << shift) & !(low_mask(size) << shift) == 0) by (bit_vector)
        requires
            size < 32,
            shift < 32,
            size + shift <= 32,
    ;
}

/// A channel placed in one field has no bit inside a field apart from it.
proof fn lemma_channel_outside_other_field(
    v: u32,
    size: u32,
    shift: u32,
    other_size: u32,
    other_shift: u32,
)
    requires
        field_fits(size, shift),
        field_fits(other_size, other_shift),
        fields_apart(size, shift, other_size, other_shift),
    ensures
        ((v & low_mask(size)) << shift) & field_mask(other_size, other_shift) == 0,
{
    assert(((v & low_mask(size)) << shift) & (low_mask(other_size) << other_shift) == 0)
        by (bit_vector)
        requires
            size < 32,
            shift < 32,
            size + shift <= 32,
            other_size < 32,
            other_shift < 32,
            other_size + other_shift <= 32,
            shift + size <= other_shift || other_shift + other_size <= shift,
    ;
}

/// Reading a field back from the or of a channel placed there and bits that
/// miss the field gives the channel's low bits.
proof fn lemma_read_back(v: u32, size: u32, shift: u32, rest: u32)
    requires
        field_fits(size, shift),
        rest & field_mask(size, shift) == 0,
    ensures
        read_field(((v & low_mask(size)) << shift) | rest, size, shift) == v & low_mask(size),
{
    assert(((((v & low_mask(size)) << shift) | rest) >> shift) & low_mask(size) == v & low_mask(size))
        by (bit_vector)
        requires
            size < 32,
            shift < 32,
            size + shift <= 32,
            rest & (low_mask(size) << shift) == 0,
    ;
}

impl RgbPixelInfo {
    /// Every mask size and shift is below 32, so that building a pixel
    /// never shifts a 32-bit value by 32 or more.
    pub open spec fn shifts_in_range(self) -> bool {
        &&& self.red_mask_size < 32
        &&& self.red_mask_shift < 32
        &&& self.green_mask_size < 32
        &&& self.green_mask_shift < 32
        &&& self.blue_mask_size < 32
        &&& self.blue_mask_shift < 32
    }

    /// Each channel field lies inside the 32 bits of a pixel, and no two
    /// channel fields share a bit.
    pub open spec fn fields_disjoint(self) -> bool {
        let (rs, rsh) = (self.red_mask_size as u32, self.red_mask_shift as u32);
        let (gs, gsh) = (self.green_mask_size as u32, self.green_mask_shift as u32);
        let (bs, bsh) = (self.blue_mask_size as u32, self.blue_mask_shift as u32);
        &&& field_fits(rs, rsh)
        &&& field_fits(gs, gsh)
        &&& field_fits(bs, bsh)
        &&& fields_apart(rs, rsh, gs, gsh)
        &&& fields_apart(rs, rsh, bs, bsh)
        &&& fields_apart(gs, gsh, bs, bsh)
    }

    /// The pixel value for a colour: the three channel fields or-ed together.
    pub open spec fn pixel_of(self, color: Rgb) -> u32 {
        channel_bits(color.r, self.red_mask_size as u32, self.red_mask_shift as u32)
            | channel_bits(color.g, self.green_mask_size as u32, self.green_mask_shift as u32)
            | channel_bits(color.b, self.blue_mask_size as u32, self.blue_mask_shift as u32)
    }

    /// Encodes a colour as a 32-bit frame-buffer pixel: each channel keeps
    /// its low `*_mask_size` bits and is shifted to `*_mask_shift`.
    pub fn build_pixel(&self, color: &Rgb) -> (n: u32)
        requires
            self.shifts_in_range(),
        ensures
            n == self.pixel_of(*color),
    {
        proof {
            lemma_one_shl_positive(self.red_mask_size as u32);
            lemma_one_shl_positive(self.green_mask_size as u32);
            lemma_one_shl_positive(self.blue_mask_size as u32);
            assert(forall|x: u32| #[trigger] (0u32 | x) == x) by (bit_vector);
        }
        let mut n: u32 = 0;
        n |= ((color.r as u32) & ((1u32 << self.red_mask_size) - 1)) << self.red_mask_shift;
        n |= ((color.g as u32) & ((1u32 << self.green_mask_size) - 1)) << self.green_mask_shift;
        n |= ((color.b as u32) & ((1u32 << self.blue_mask_size) - 1)) << self.blue_mask_shift;
        n
    }
}

/// Decoding a pixel built with a layout whose channel fields are apart
/// gives back each channel's low `*_mask_size` bits: no channel spills into
/// another one's field.
pub proof fn law_build_pixel_read_back(info: RgbPixelInfo, color: Rgb)
    requires
        info.fields_disjoint(),
    ensures
        read_field(info.pixel_of(color), info.red_mask_size as u32, info.red_mask_shift as u32)
            == (color.r as u32) & low_mask(info.red_mask_size as u32),
        read_field(info.pixel_of(color), info.green_mask_size as u32, info.green_mask_shift as u32)
            == (color.g as u32) & low_mask(info.green_mask_size as u32),
        read_field(info.pixel_of(color), info.blue_mask_size as u32, info.blue_mask_shift as u32)
            == (color.b as u32) & low_mask(info.blue_mask_size as u32),
{
    let (rs, rsh) = (info.red_mask_size as u32, info.red_mask_shift as u32);
    let (gs, gsh) = (info.green_mask_size as u32, info.green_mask_shift as u32);
    let (bs, bsh) = (info.blue_mask_size as u32, info.blue_mask_shift as u32);
    let r = channel_bits(color.r, rs, rsh);
    let g = channel_bits(color.g, gs, gsh);
    let b = channel_bits(color.b, bs, bsh);
    lemma_channel_outside_other_field(color.r as u32, rs, rsh, gs, gsh);
    lemma_channel_outside_other_field(color.r as u32, rs, rsh, bs, bsh);
    lemma_channel_outside_other_field(color.g as u32, gs, gsh, rs, rsh);
    lemma_channel_outside_other_field(color.g as u32, gs, gsh, bs, bsh);
    lemma_channel_outside_other_field(color.b as u32, bs, bsh, rs, rsh);
    lemma_channel_outside_other_field(color.b as u32, bs, bsh, gs, gsh);
    let mr = field_mask(rs, rsh);
    let mg = field_mask(gs, gsh);
    let mb = field_mask(bs, bsh);
    assert(forall|x: u32, y: u32, m: u32| x & m == 0 && y & m == 0 ==> #[trigger] ((x | y) & m) == 0)
        by (bit_vector);
    assert(forall|x: u32, y: u32, z: u32| #[trigger] ((x | y) | z) == x | (y | z)) by (bit_vector);
    assert(forall|x: u32, y: u32| #[trigger] (x | y) == y | x) by (bit_vector);
    assert((g | b) & mr == 0);
    lemma_read_back(color.r as u32, rs, rsh, g | b);
    assert((r | b) & mg == 0);
    assert((r | g) | b == g | (r | b));
    lemma_read_back(color.g as u32, gs, gsh, r | b);
    assert((r | g) & mb == 0);
    assert((r | g) | b == b | (r | g));
    lemma_read_back(color.b as u32, bs, bsh, r | g);
}

/// A pixel built with a layout whose fields fit in 32 bits has no bit set
/// outside the three channel fields.
pub proof fn law_build_pixel_stays_in_fields(info: RgbPixelInfo, color: Rgb)
    requires
        info.fields_disjoint(),
    ensures
        info.pixel_of(color) & !(field_mask(info.red_mask_size as u32, info.red_mask_shift as u32)
            | field_mask(info.green_mask_size as u32, info.green_mask_shift as u32)
            | field_mask(info.blue_mask_size as u32, info.blue_mask_shift as u32)) == 0,
{
    let (rs, rsh) = (info.red_mask_size as u32, info.red_mask_shift as u32);
    let (gs, gsh) = (info.green_mask_size as u32, info.green_mask_shift as u32);
    let (bs, bsh) = (info.blue_mask_size as u32, info.blue_mask_shift as u32);
    lemma_channel_inside_field(color.r as u32, rs, rsh);
    lemma_channel_inside_field(color.g as u32, gs, gsh);
    lemma_channel_inside_field(color.b as u32, bs, bsh);
    let r = channel_bits(color.r, rs, rsh);
    let g = channel_bits(color.g, gs, gsh);
    let b = channel_bits(color.b, bs, bsh);
    let mr = field_mask(rs, rsh);
    let mg = field_mask(gs, gsh);
    let mb = field_mask(bs, bsh);
    assert(((r | g) | b) & !((mr | mg) | mb) == 0) by (bit_vector)
        requires
            r & !mr == 0,
            g & !mg == 0,
            b & !mb == 0,
    ;
}

/// The mask of `size` bits keeps exactly the bits below bit `size`: what it
/// keeps is below `2^size`, and a value below `2^size` is kept whole.
pub proof fn law_low_mask_keeps_low_bits(v: u32, size: u32)
    requires
        size < 32,
    ensures
        (v & low_mask(size)) < (1u32 << size),
        v < (1u32 << size) ==> (v & low_mask(size)) == v,
        v & low_mask(size) <= v,
{
    assert((v & (((1u32 << size) - 1) as u32)) < (1u32 << size)) by (bit_vector)
        requires
            size < 32,
    ;
    assert(v < (1u32 << size) ==> (v & (((1u32 << size) - 1) as u32)) == v) by (bit_vector)
        requires
            size < 32,
    ;
    assert((v & (((1u32 << size) - 1) as u32)) <= v) by (bit_vector);
}

} // verus!
