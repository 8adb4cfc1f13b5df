use vstd::prelude::*;
use crate::frame_buffer_info::FrameBufferInfo;
use crate::geometry::{Point, Rectangle, Size, rectangle_contains, rectangle_intersection};
use crate::rgb_pixel_info::{Rgb, RgbPixelInfo};

verus! {

/// One pixel to draw: where, and in which colour.
#[derive(Debug, Clone, Copy, PartialEq, Eq, Structural)]
pub struct Pixel {
    pub point: Point,
    pub color: Rgb,
}

/// A linear 32-bit-per-pixel frame buffer: pixel `(x, y)` of the screen is
/// word `y * pitch + x` of the buffer, where the pitch is the length of a
/// row in words.
pub struct FrameBufferEmbeddedGraphics<'a> {
    buffer: &'a mut [u32],
    info: FrameBufferInfo,
    pixel_pitch: usize,
    bounding_box: Rectangle,
}

/// What contracts see of a frame buffer: its words, the length of a row in
/// words, the screen rectangle and the pixel layout.
pub ghost struct FrameModel {
    pub contents: Seq<u32>,
    pub pitch: nat,
    pub screen: Rectangle,
    pub layout: RgbPixelInfo,
}

/// One drawing operation on a frame buffer.
pub ghost enum DrawStep {
    /// `draw_iter` with these pixels.
    Pixels(Seq<Pixel>),
    /// `fill_solid` of this area with this colour.
    Fill(Rectangle, Rgb),
    /// `shift_up` by this many rows.
    ShiftUp(nat),
}

/// The frame buffer after one drawing operation.
pub open spec fn step_result(m: FrameModel, step: DrawStep) -> FrameModel {
    match step {
        DrawStep::Pixels(pixels) => FrameModel {
            contents: painted(m.contents, m.pitch, m.screen, m.layout, pixels),
            ..m
        },
        DrawStep::Fill(area, color) => FrameModel {
            contents: filled(m.contents, m.screen, m.pitch, area, m.layout.pixel_of(color)),
            ..m
        },
        DrawStep::ShiftUp(rows) => FrameModel { contents: shifted_up(m.contents, (rows * m.pitch) as int), ..m },
    }
}

/// The frame buffer after the operations, in order.
pub open spec fn run_steps(m: FrameModel, steps: Seq<DrawStep>) -> FrameModel
    decreases steps.len(),
{
    if steps.len() == 0 {
        m
    } else {
        step_result(run_steps(m, steps.drop_last()), steps.last())
    }
}

/// Every pixel of the screen has its word, and the screen starts at the
/// origin with a size that fits in an `i32`.
pub open spec fn model_wf(m: FrameModel) -> bool {
    &&& m.screen.top_left == Point { x: 0, y: 0 }
    &&& m.screen.size.width <= i32::MAX
    &&& m.screen.size.height <= i32::MAX
    &&& m.screen.size.width <= m.pitch
    &&& m.screen.size.height * m.pitch <= m.contents.len()
}

/// The word of the buffer that holds a point of the screen.
pub open spec fn index_of(pitch: nat, p: Point) -> int {
    p.y * pitch + p.x
}

/// A word of the buffer that holds a pixel of the screen (and not the
/// padding at the end of a row or below the last row).
pub open spec fn on_screen_index(screen: Rectangle, pitch: nat, i: int) -> bool {
    &&& pitch > 0
    &&& 0 <= i < screen.size.height * pitch
    &&& i % (pitch as int) < screen.size.width
}

/// The point of the screen whose pixel word `i` holds.
pub open spec fn point_of(pitch: nat, i: int) -> Point {
    Point { x: (i % (pitch as int)) as i32, y: (i / (pitch as int)) as i32 }
}

/// The buffer after filling the part of `area` on the screen with `value`.
pub open spec fn filled(buf: Seq<u32>, screen: Rectangle, pitch: nat, area: Rectangle, value: u32) -> Seq<u32> {
    Seq::new(
        buf.len(),
        |i: int|
            if on_screen_index(screen, pitch, i) && area.contains(point_of(pitch, i)) {
                value
            } else {
                buf[i]
            },
    )
}

/// The buffer after drawing the pixels in order: each pixel that lies on
/// the screen overwrites its word with its encoded colour, and the others
/// are skipped.
pub open spec fn painted(
    buf: Seq<u32>,
    pitch: nat,
    screen: Rectangle,
    layout: RgbPixelInfo,
    pixels: Seq<Pixel>,
) -> Seq<u32>
    decreases pixels.len(),
{
    if pixels.len() == 0 {
        buf
    } else {
        let before = painted(buf, pitch, screen, layout, pixels.drop_last());
        let p = pixels.last();
        if screen.contains(p.point) {
            before.update(index_of(pitch, p.point), layout.pixel_of(p.color))
        } else {
            before
        }
    }
}

/// The buffer after moving its contents up by `shift` words: word `i` takes
/// the value of word `i + shift` where that word exists, and keeps its own
/// value otherwise.
pub open spec fn shifted_up(buf: Seq<u32>, shift: int) -> Seq<u32> {
    Seq::new(buf.len(), |i: int| if i + shift < buf.len() { buf[i + shift] } else { buf[i] })
}

/// Word `i` lies in a column `x0 <= column < x0 + width` of a row
/// `y0 <= row < y1`, or in a column `x0 <= column < x1` of row `y1`.
spec fn in_rows(pitch: nat, i: int, x0: int, width: int, y0: int, y1: int, x1: int) -> bool {
    let row = i / (pitch as int);
    let column = i % (pitch as int);
    ||| (y0 <= row < y1 && x0 <= column < x0 + width)
    ||| (row == y1 && x0 <= column < x1)
}

/// Word `i` holds a pixel of the rectangle `r`.
spec fn covers_index(r: Rectangle, pitch: nat, i: int) -> bool {
    &&& pitch > 0
    &&& r.top_left.x <= i % (pitch as int) < r.top_left.x + r.size.width
    &&& r.top_left.y <= i / (pitch as int) < r.top_left.y + r.size.height
}

/// For `0 <= x < pitch`, word `y * pitch + x` lies in row `y`, column `x`.
proof fn lemma_index_row_column(y: int, x: int, pitch: int)
    requires
        pitch > 0,
        0 <= x < pitch,
    ensures
        (y * pitch + x) / pitch == y,
        (y * pitch + x) % pitch == x,
{
    vstd::arithmetic::div_mod::lemma_fundamental_div_mod_converse(y * pitch + x, pitch, y, x);
}

/// A point of a `width` x `height` screen lies inside the first
/// `height * pitch` words when `width <= pitch`.
proof fn lemma_index_in_screen(y: int, x: int, width: int, height: int, pitch: int)
    requires
        0 <= y < height,
        0 <= x < width,
        width <= pitch,
    ensures
        0 <= y * pitch + x < height * pitch,
{
    assert(0 <= y * pitch + x < height * pitch) by (nonlinear_arith)
        requires
            0 <= y < height,
            0 <= x < width,
            width <= pitch,
    ;
}

impl<'a> FrameBufferEmbeddedGraphics<'a> {
    /// The words of the frame buffer.
    pub closed spec fn contents(&self) -> Seq<u32> {
        self.buffer@
    }

    /// The length of a row, in words.
    pub closed spec fn pitch(&self) -> nat {
        self.pixel_pitch as nat
    }

    /// The screen: the rectangle at the origin with the frame buffer's size.
    pub closed spec fn screen(&self) -> Rectangle {
        self.bounding_box
    }

    /// The reported layout of the frame buffer.
    pub closed spec fn frame_info(&self) -> FrameBufferInfo {
        self.info
    }

    /// The channel layout of a pixel.
    pub open spec fn layout(&self) -> RgbPixelInfo {
        self.frame_info().pixel_info
    }

    /// The frame buffer as contracts see it.
    pub open spec fn model(&self) -> FrameModel {
        FrameModel { contents: self.contents(), pitch: self.pitch(), screen: self.screen(), layout: self.layout() }
    }

    /// Every pixel of the screen has its word in the buffer, the screen
    /// starts at the origin and its size fits in an `i32`.
    pub open spec fn wf(&self) -> bool {
        &&& self.screen().top_left == Point { x: 0, y: 0 }
        &&& self.screen().size.width <= i32::MAX
        &&& self.screen().size.height <= i32::MAX
        &&& self.screen().size.width <= self.pitch()
        &&& self.screen().size.height * self.pitch() <= self.contents().len()
    }

    /// Takes the mapped frame buffer, `pitch * height / 4` words long, and
    /// the layout the boot loader reported for it.
    ///
    /// The frame buffer must hold 32 bits per pixel. Its width and height
    /// must fit in an `i32`, and a row of pixels must fit in the pitch:
    /// drawing at the screen's far corner reads past the buffer otherwise.
    pub fn new(buffer: &'a mut [u32], info: FrameBufferInfo) -> (fb: Self)
        requires
            info.bits_per_pixel == 32,
            info.pitch * info.height <= u64::MAX,
            info.pitch <= usize::MAX,
            buffer@.len() == (info.pitch * info.height) / 4,
            info.width <= i32::MAX,
            info.height <= i32::MAX,
            info.width <= info.pitch / 4,
        ensures
            fb.wf(),
            fb.contents() == old(buffer)@,
            fb.frame_info() == info,
            fb.pitch() == info.pitch / 4,
            fb.screen() == (Rectangle {
                top_left: Point { x: 0, y: 0 },
                size: Size { width: info.width as u32, height: info.height as u32 },
            }),
    {
        let pixel_pitch = info.pitch as usize / 4;
        proof {
            let p = info.pitch as int;
            let h = info.height as int;
            let q = p / 4;
            vstd::arithmetic::div_mod::lemma_fundamental_div_mod(p, 4);
            assert(4 * (q * h) <= p * h) by (nonlinear_arith)
                requires
                    p == 4 * q + p % 4,
                    p % 4 >= 0,
                    h >= 0,
            ;
            vstd::arithmetic::div_mod::lemma_div_is_ordered(4 * (q * h), p * h, 4);
            vstd::arithmetic::div_mod::lemma_div_multiples_vanish(q * h, 4);
            assert(h * q == q * h) by (nonlinear_arith);
        }
        FrameBufferEmbeddedGraphics {
            buffer,
            info,
            pixel_pitch,
            bounding_box: Rectangle {
                top_left: Point { x: 0, y: 0 },
                size: Size { width: info.width as u32, height: info.height as u32 },
            },
        }
    }

    /// The screen rectangle.
    pub fn bounding_box(&self) -> (r: Rectangle)
        ensures
            r == self.screen(),
    {
        self.bounding_box
    }

    /// The reported layout of the frame buffer.
    pub fn info(&self) -> (info: FrameBufferInfo)
        ensures
            info == self.frame_info(),
    {
        self.info
    }

    /// Draws the pixels in order: each one that lies on the screen sets its
    /// word to its encoded colour; the others are skipped.
    pub fn draw_iter(&mut self, pixels: &[Pixel])
        requires
            old(self).wf(),
            (exists|k: int| 0 <= k < pixels@.len() && old(self).screen().contains(#[trigger] pixels@[k].point))
                ==> old(self).layout().shifts_in_range(),
        ensures
            final(self).wf(),
            final(self).model() == step_result(old(self).model(), DrawStep::Pixels(pixels@)),
            final(self).contents() == painted(
                old(self).contents(),
                old(self).pitch(),
                old(self).screen(),
                old(self).layout(),
                pixels@,
            ),
            final(self).pitch() == old(self).pitch(),
            final(self).screen() == old(self).screen(),
            final(self).frame_info() == old(self).frame_info(),
    {
        let bounding_box = self.bounding_box;
        let ghost start = self.contents();
        let n = pixels.len();
        let mut k: usize = 0;
        while k < n
            invariant
                n == pixels@.len(),
                0 <= k <= n,
                self.wf(),
                (exists|j: int| 0 <= j < pixels@.len() && self.screen().contains(#[trigger] pixels@[j].point))
                    ==> self.layout().shifts_in_range(),
                bounding_box == self.screen(),
                self.pitch() == old(self).pitch(),
                self.screen() == old(self).screen(),
                self.frame_info() == old(self).frame_info(),
                start == old(self).contents(),
                self.contents() == painted(start, self.pitch(), self.screen(), self.layout(), pixels@.take(k as int)),
            decreases n - k,
        {
            let pixel = pixels[k];
            assert(pixels@.take(k + 1).drop_last() == pixels@.take(k as int));
            if rectangle_contains(&bounding_box, pixel.point) {
                let x = pixel.point.x as usize;
                let y = pixel.point.y as usize;
                assert(x as int == pixel.point.x && y as int == pixel.point.y);
                let len = self.buffer.len();
                proof {
                    lemma_index_in_screen(
                        y as int,
                        x as int,
                        bounding_box.size.width as int,
                        bounding_box.size.height as int,
                        self.pitch() as int,
                    );
                }
                assert(y * self.pixel_pitch + x < len);
                let pixel_index = y * self.pixel_pitch + x;
                assert(self.screen().contains(pixels@[k as int].point));
                let value = self.info.pixel_info.build_pixel(&pixel.color);
                self.buffer[pixel_index] = value;
            }
            k = k + 1;
        }
        assert(pixels@.take(n as int) == pixels@);
    }

    /// Filling `area` would index the buffer beyond its end only for an area
    /// of width zero whose corner lies on the screen while its rows reach
    /// past the buffer; this rules that out.
    pub open spec fn fill_rows_fit(&self, area: Rectangle) -> bool {
        (area.size.width == 0 && area.size.height > 0 && self.screen().contains(area.top_left))
            ==> (area.top_left.y + area.size.height - 1) * self.pitch() + area.top_left.x
            <= self.contents().len()
    }

    /// Fills the part of `area` that lies on the screen with one colour;
    /// every other word of the buffer keeps its value.
    pub fn fill_solid(&mut self, area: &Rectangle, color: Rgb)
        requires
            old(self).wf(),
            old(self).layout().shifts_in_range(),
            area.corners_in_range(),
            old(self).fill_rows_fit(*area),
        ensures
            final(self).wf(),
            final(self).pitch() == old(self).pitch(),
            final(self).screen() == old(self).screen(),
            final(self).frame_info() == old(self).frame_info(),
            final(self).contents().len() == old(self).contents().len(),
            final(self).model() == step_result(old(self).model(), DrawStep::Fill(*area, color)),
            final(self).contents() == filled(
                old(self).contents(),
                old(self).screen(),
                old(self).pitch(),
                *area,
                old(self).layout().pixel_of(color),
            ),
            forall|p: Point|
                #![trigger final(self).contents()[index_of(old(self).pitch(), p)]]
                old(self).screen().contains(p) ==> final(self).contents()[index_of(old(self).pitch(), p)]
                    == if area.contains(p) {
                    old(self).layout().pixel_of(color)
                } else {
                    old(self).contents()[index_of(old(self).pitch(), p)]
                },
            forall|i: int|
                0 <= i < old(self).contents().len() && !on_screen_index(old(self).screen(), old(self).pitch(), i)
                    ==> #[trigger] final(self).contents()[i] == old(self).contents()[i],
    {
        let screen = self.bounding_box;
        let r = rectangle_intersection(area, &screen);
        let pixel = self.info.pixel_info.build_pixel(&color);
        let ghost start = self.contents();
        let ghost pitch = self.pitch() as int;
        let ghost len = start.len() as int;
        let buffer_len = self.buffer.len();
        proof {
            if r.size.width > 0 && r.size.height > 0 {
                let tl = r.top_left;
                let br = Point { x: (tl.x + r.size.width - 1) as i32, y: (tl.y + r.size.height - 1) as i32 };
                crate::geometry::law_intersection_contains(*area, screen, tl);
                crate::geometry::law_intersection_contains(*area, screen, br);
                assert(r.contains(tl));
                assert(r.contains(br));
            }
        }
        if r.size.width > 0 && r.size.height > 0 {
            let x0 = r.top_left.x as usize;
            let y0 = r.top_left.y as usize;
            let width = r.size.width as usize;
            let height = r.size.height as usize;
            let y_end = y0 + height;
            let mut y = y0;
            while y < y_end
                invariant
                    self.wf(),
                    self.pitch() == old(self).pitch(),
                    self.screen() == old(self).screen(),
                    self.frame_info() == old(self).frame_info(),
                    screen == self.screen(),
                    start == old(self).contents(),
                    pitch == self.pitch(),
                    len == start.len(),
                    buffer_len == len,
                    self.contents().len() == len,
                    x0 as int == r.top_left.x,
                    y0 as int == r.top_left.y,
                    width as int == r.size.width,
                    y_end == y0 + height,
                    height as int == r.size.height,
                    width > 0,
                    x0 + width <= screen.size.width,
                    y_end <= screen.size.height,
                    y0 <= y <= y_end,
                    forall|i: int|
                        0 <= i < len ==> #[trigger] self.contents()[i] == if in_rows(
                            pitch as nat,
                            i,
                            x0 as int,
                            width as int,
                            y0 as int,
                            y as int,
                            x0 as int,
                        ) {
                            pixel
                        } else {
                            start[i]
                        },
                decreases y_end - y,
            {
                proof {
                    lemma_index_in_screen(
                        y as int,
                        x0 as int,
                        screen.size.width as int,
                        screen.size.height as int,
                        pitch,
                    );
                }
                let row = y * self.pixel_pitch + x0;
                let mut x: usize = 0;
                while x < width
                    invariant
                        self.wf(),
                        self.pitch() == old(self).pitch(),
                        self.screen() == old(self).screen(),
                        self.frame_info() == old(self).frame_info(),
                        screen == self.screen(),
                        pitch == self.pitch(),
                        len == start.len(),
                        buffer_len == len,
                        self.contents().len() == len,
                        x0 + width <= screen.size.width,
                        y0 <= y < y_end,
                        y_end <= screen.size.height,
                        row == y * pitch + x0,
                        0 <= x <= width,
                        forall|i: int|
                            0 <= i < len ==> #[trigger] self.contents()[i] == if in_rows(
                                pitch as nat,
                                i,
                                x0 as int,
                                width as int,
                                y0 as int,
                                y as int,
                                x0 + x,
                            ) {
                                pixel
                            } else {
                                start[i]
                            },
                    decreases width - x,
                {
                    proof {
                        lemma_index_in_screen(
                            y as int,
                            (x0 + x) as int,
                            screen.size.width as int,
                            screen.size.height as int,
                            pitch,
                        );
                        lemma_index_row_column(y as int, (x0 + x) as int, pitch);
                    }
                    let j = row + x;
                    self.buffer[j] = pixel;
                    proof {
                        assert forall|i: int| 0 <= i < len implies #[trigger] self.contents()[i] == if in_rows(
                            pitch as nat,
                            i,
                            x0 as int,
                            width as int,
                            y0 as int,
                            y as int,
                            x0 + x + 1,
                        ) {
                            pixel
                        } else {
                            start[i]
                        } by {
                            vstd::arithmetic::div_mod::lemma_fundamental_div_mod(i, pitch);
                            vstd::arithmetic::div_mod::lemma_fundamental_div_mod(j as int, pitch);
                        }
                    }
                    x = x + 1;
                }
                proof {
                    assert forall|i: int| 0 <= i < len implies #[trigger] self.contents()[i] == if in_rows(
                        pitch as nat,
                        i,
                        x0 as int,
                        width as int,
                        y0 as int,
                        y + 1,
                        x0 as int,
                    ) {
                        pixel
                    } else {
                        start[i]
                    } by {
                    }
                }
                y = y + 1;
            }
        }
        assert forall|i: int| 0 <= i < len implies #[trigger] self.contents()[i]
            == if covers_index(r, pitch as nat, i) { pixel } else { start[i] } by {
        }
        proof {
            assert forall|p: Point| #![trigger self.contents()[index_of(pitch as nat, p)]]
                screen.contains(p) implies self.contents()[index_of(pitch as nat, p)]
                    == if area.contains(p) { pixel } else { start[index_of(pitch as nat, p)] } by {
                crate::geometry::law_intersection_contains(*area, screen, p);
                lemma_index_in_screen(p.y as int, p.x as int, screen.size.width as int, screen.size.height as int, pitch);
                lemma_index_row_column(p.y as int, p.x as int, pitch);
            }
            assert forall|i: int| 0 <= i < len && on_screen_index(screen, pitch as nat, i)
                implies #[trigger] self.contents()[i] == if area.contains(point_of(pitch as nat, i)) { pixel } else { start[i] } by {
                vstd::arithmetic::div_mod::lemma_fundamental_div_mod(i, pitch);
                let q = point_of(pitch as nat, i);
                let qy = i / pitch;
                let qx = i % pitch;
                assert(0 <= qy) by {
                    vstd::arithmetic::div_mod::lemma_div_pos_is_pos(i, pitch);
                }
                assert(qy < screen.size.height) by {
                    if qy >= screen.size.height {
                        assert(pitch * qy >= pitch * screen.size.height) by (nonlinear_arith)
                            requires qy >= screen.size.height, pitch > 0;
                        assert(pitch * screen.size.height == screen.size.height * pitch) by (nonlinear_arith);
                    }
                }
                assert(q.x == qx && q.y == qy);
                assert(i == index_of(pitch as nat, q)) by {
                    assert(pitch * qy == qy * pitch) by (nonlinear_arith);
                }
                assert(screen.contains(q));
                crate::geometry::law_intersection_contains(*area, screen, q);
            }
            assert forall|i: int| 0 <= i < len && !on_screen_index(screen, pitch as nat, i)
                implies #[trigger] self.contents()[i] == start[i] by {
                if covers_index(r, pitch as nat, i) {
                    vstd::arithmetic::div_mod::lemma_fundamental_div_mod(i, pitch);
                    let qy = i / pitch;
                    let qx = i % pitch;
                    assert(pitch * qy == qy * pitch) by (nonlinear_arith);
                    lemma_index_in_screen(qy, qx, screen.size.width as int, screen.size.height as int, pitch);
                }
            }
            assert(self.contents() =~= filled(start, screen, pitch as nat, *area, pixel));
        }
    }

    /// Moves the contents of the buffer up by `rows` rows: each word takes
    /// the value of the word `rows * pitch` words further on, where that
    /// word exists; the last `rows` rows keep what they held.
    pub fn shift_up(&mut self, rows: usize)
        requires
            old(self).wf(),
        ensures
            final(self).wf(),
            final(self).model() == step_result(old(self).model(), DrawStep::ShiftUp(rows as nat)),
            final(self).contents() == shifted_up(old(self).contents(), rows * old(self).pitch()),
            final(self).pitch() == old(self).pitch(),
            final(self).screen() == old(self).screen(),
            final(self).frame_info() == old(self).frame_info(),
    {
        let len = self.buffer.len();
        let shift = match rows.checked_mul(self.pixel_pitch) {
            Some(shift) => shift,
            None => {
                assert(self.contents() == shifted_up(self.contents(), rows * self.pitch()));
                return;
            },
        };
        if shift >= len {
            assert(self.contents() == shifted_up(self.contents(), rows * self.pitch()));
            return;
        }
        let ghost start = self.contents();
        let count = len - shift;
        let mut i: usize = 0;
        while i < count
            invariant
                count == len - shift,
                shift == rows * self.pitch(),
                len == start.len(),
                0 <= i <= count,
                self.wf(),
                self.contents().len() == len,
                self.pitch() == old(self).pitch(),
                self.screen() == old(self).screen(),
                self.frame_info() == old(self).frame_info(),
                start == old(self).contents(),
                forall|j: int| 0 <= j < i ==> #[trigger] self.contents()[j] == start[j + shift],
                forall|j: int| i <= j < len ==> #[trigger] self.contents()[j] == start[j],
            decreases count - i,
        {
            let value = self.buffer[i + shift];
            self.buffer[i] = value;
            i = i + 1;
        }
        assert(self.contents() == shifted_up(start, rows * self.pitch()));
    }
}

/// The colour of the last pixel of the sequence drawn at `q`, if any.
pub open spec fn last_color_at(pixels: Seq<Pixel>, q: Point) -> Option<Rgb>
    decreases pixels.len(),
{
    if pixels.len() == 0 {
        None
    } else if pixels.last().point == q {
        Some(pixels.last().color)
    } else {
        last_color_at(pixels.drop_last(), q)
    }
}

/// Two different points of a screen no wider than the pitch have different words.
proof fn lemma_index_injective(pitch: nat, screen: Rectangle, p: Point, q: Point)
    requires
        screen.top_left == (Point { x: 0, y: 0 }),
        screen.size.width <= pitch,
        screen.contains(p),
        screen.contains(q),
        p != q,
    ensures
        index_of(pitch, p) != index_of(pitch, q),
{
    lemma_index_row_column(p.y as int, p.x as int, pitch as int);
    lemma_index_row_column(q.y as int, q.x as int, pitch as int);
}

/// Reading a pixel of the screen after drawing a sequence of pixels gives
/// the colour of the last one drawn there, or what the word held before when
/// none was; the buffer keeps its length.
pub proof fn law_draw_read_back(
    buf: Seq<u32>,
    pitch: nat,
    screen: Rectangle,
    layout: RgbPixelInfo,
    pixels: Seq<Pixel>,
    q: Point,
)
    requires
        screen.top_left == (Point { x: 0, y: 0 }),
        screen.size.width <= pitch,
        screen.size.height * pitch <= buf.len(),
        screen.contains(q),
    ensures
        painted(buf, pitch, screen, layout, pixels).len() == buf.len(),
        painted(buf, pitch, screen, layout, pixels)[index_of(pitch, q)] == match last_color_at(pixels, q) {
            Some(c) => layout.pixel_of(c),
            None => buf[index_of(pitch, q)],
        },
    decreases pixels.len(),
{
    lemma_index_in_screen(q.y as int, q.x as int, screen.size.width as int, screen.size.height as int, pitch as int);
    if pixels.len() > 0 {
        let p = pixels.last();
        law_draw_read_back(buf, pitch, screen, layout, pixels.drop_last(), q);
        if screen.contains(p.point) {
            lemma_index_in_screen(p.point.y as int, p.point.x as int, screen.size.width as int, screen.size.height as int, pitch as int);
            if p.point != q {
                lemma_index_injective(pitch, screen, p.point, q);
            }
        }
    }
}

/// Drawing pixels never changes a word that holds no pixel of the screen.
pub proof fn law_draw_keeps_padding(
    buf: Seq<u32>,
    pitch: nat,
    screen: Rectangle,
    layout: RgbPixelInfo,
    pixels: Seq<Pixel>,
    i: int,
)
    requires
        screen.top_left == (Point { x: 0, y: 0 }),
        screen.size.width <= pitch,
        screen.size.height * pitch <= buf.len(),
        0 <= i < buf.len(),
        !on_screen_index(screen, pitch, i),
    ensures
        painted(buf, pitch, screen, layout, pixels)[i] == buf[i],
    decreases pixels.len(),
{
    if pixels.len() > 0 {
        let p = pixels.last();
        law_draw_keeps_padding(buf, pitch, screen, layout, pixels.drop_last(), i);
        if screen.contains(p.point) {
            law_draw_read_back(buf, pitch, screen, layout, pixels.drop_last(), p.point);
            lemma_index_in_screen(p.point.y as int, p.point.x as int, screen.size.width as int, screen.size.height as int, pitch as int);
            lemma_index_row_column(p.point.y as int, p.point.x as int, pitch as int);
        }
    }
}

/// Scrolling up by `rows` rows shows at each point of the screen the pixel
/// that was `rows` rows below it, while that row is still on the screen.
pub proof fn law_shift_up_moves_pixels(buf: Seq<u32>, pitch: nat, screen: Rectangle, rows: nat, p: Point)
    requires
        screen.top_left == (Point { x: 0, y: 0 }),
        screen.size.width <= pitch,
        screen.size.height * pitch <= buf.len(),
        screen.size.height <= i32::MAX,
        screen.contains(p),
        p.y + rows < screen.size.height,
    ensures
        shifted_up(buf, (rows * pitch) as int)[index_of(pitch, p)]
            == buf[index_of(pitch, Point { x: p.x, y: (p.y + rows) as i32 })],
{
    let below = Point { x: p.x, y: (p.y + rows) as i32 };
    lemma_index_in_screen(below.y as int, below.x as int, screen.size.width as int, screen.size.height as int, pitch as int);
    lemma_index_in_screen(p.y as int, p.x as int, screen.size.width as int, screen.size.height as int, pitch as int);
    assert(index_of(pitch, p) + rows * pitch == index_of(pitch, below)) by (nonlinear_arith)
        requires
            below.y == p.y + rows,
            below.x == p.x,
    ;
}

/// Drawing two sequences one after the other is drawing their concatenation.
pub proof fn law_draw_concatenation(
    buf: Seq<u32>,
    pitch: nat,
    screen: Rectangle,
    layout: RgbPixelInfo,
    first: Seq<Pixel>,
    second: Seq<Pixel>,
)
    ensures
        painted(buf, pitch, screen, layout, first + second) == painted(
            painted(buf, pitch, screen, layout, first),
            pitch,
            screen,
            layout,
            second,
        ),
    decreases second.len(),
{
    if second.len() == 0 {
        assert(first + second == first);
    } else {
        law_draw_concatenation(buf, pitch, screen, layout, first, second.drop_last());
        assert((first + second).drop_last() == first + second.drop_last());
        assert((first + second).last() == second.last());
    }
}

/// The last colour drawn at `q` by pixels that all have one colour is that
/// colour exactly when some pixel lies at `q`.
proof fn lemma_last_color_of_one_color(pixels: Seq<Pixel>, color: Rgb, q: Point)
    requires
        forall|k: int| 0 <= k < pixels.len() ==> (#[trigger] pixels[k]).color == color,
    ensures
        last_color_at(pixels, q) == if exists|k: int| 0 <= k < pixels.len() && (#[trigger] pixels[k]).point == q {
            Some(color)
        } else {
            None::<Rgb>
        },
    decreases pixels.len(),
{
    if pixels.len() > 0 {
        let rest = pixels.drop_last();
        assert forall|k: int| 0 <= k < rest.len() implies (#[trigger] rest[k]).color == color by {
            assert(rest[k] == pixels[k]);
        }
        lemma_last_color_of_one_color(rest, color, q);
        if pixels.last().point != q {
            if exists|k: int| 0 <= k < pixels.len() && (#[trigger] pixels[k]).point == q {
                let k = choose|k: int| 0 <= k < pixels.len() && (#[trigger] pixels[k]).point == q;
                assert(k < pixels.len() - 1);
                assert(rest[k] == pixels[k]);
            }
            if exists|k: int| 0 <= k < rest.len() && (#[trigger] rest[k]).point == q {
                let k = choose|k: int| 0 <= k < rest.len() && (#[trigger] rest[k]).point == q;
                assert(rest[k] == pixels[k]);
            }
        } else {
            assert(pixels[pixels.len() - 1].point == q);
        }
    }
}

/// Filling an area with a colour gives the same buffer as drawing, in any
/// order, pixels of that colour at the points of the area (each point of the
/// area at least once, and no point outside it).
pub proof fn law_fill_is_drawing_the_area(
    buf: Seq<u32>,
    pitch: nat,
    screen: Rectangle,
    layout: RgbPixelInfo,
    area: Rectangle,
    color: Rgb,
    pixels: Seq<Pixel>,
)
    requires
        screen.top_left == (Point { x: 0, y: 0 }),
        screen.size.width <= pitch,
        screen.size.width <= i32::MAX,
        screen.size.height <= i32::MAX,
        screen.size.height * pitch <= buf.len(),
        forall|k: int| 0 <= k < pixels.len() ==> (#[trigger] pixels[k]).color == color,
        forall|k: int| 0 <= k < pixels.len() ==> area.contains((#[trigger] pixels[k]).point),
        forall|p: Point| #[trigger] area.contains(p) ==> exists|k: int| 0 <= k < pixels.len() && pixels[k].point == p,
    ensures
        filled(buf, screen, pitch, area, layout.pixel_of(color)) == painted(buf, pitch, screen, layout, pixels),
{
    let f = filled(buf, screen, pitch, area, layout.pixel_of(color));
    let d = painted(buf, pitch, screen, layout, pixels);
    assert forall|i: int| 0 <= i < buf.len() implies #[trigger] f[i] == d[i] by {
        if on_screen_index(screen, pitch, i) {
            let q = point_of(pitch, i);
            let qy = i / (pitch as int);
            let qx = i % (pitch as int);
            vstd::arithmetic::div_mod::lemma_fundamental_div_mod(i, pitch as int);
            assert(0 <= qy) by {
                vstd::arithmetic::div_mod::lemma_div_pos_is_pos(i, pitch as int);
            }
            assert(qy < screen.size.height) by {
                if qy >= screen.size.height {
                    assert(pitch * qy >= pitch * screen.size.height) by (nonlinear_arith)
                        requires qy >= screen.size.height, pitch > 0;
                    assert(pitch * screen.size.height == screen.size.height * pitch) by (nonlinear_arith);
                }
            }
            assert(q.x == qx && q.y == qy);
            assert(i == index_of(pitch, q)) by {
                assert(pitch * qy == qy * pitch) by (nonlinear_arith);
            }
            assert(screen.contains(q));
            law_draw_read_back(buf, pitch, screen, layout, pixels, q);
            lemma_last_color_of_one_color(pixels, color, q);
            if area.contains(q) {
                assert(exists|k: int| 0 <= k < pixels.len() && pixels[k].point == q);
            } else {
                assert(!exists|k: int| 0 <= k < pixels.len() && (#[trigger] pixels[k]).point == q) by {
                    if exists|k: int| 0 <= k < pixels.len() && (#[trigger] pixels[k]).point == q {
                        let k = choose|k: int| 0 <= k < pixels.len() && (#[trigger] pixels[k]).point == q;
                        assert(area.contains(pixels[k].point));
                    }
                }
            }
        } else {
            law_draw_keeps_padding(buf, pitch, screen, layout, pixels, i);
        }
    }
    if screen.size.height > 0 && screen.size.width > 0 {
        let corner = Point { x: 0, y: 0 };
        law_draw_read_back(buf, pitch, screen, layout, pixels, corner);
    } else {
        lemma_painted_len(buf, pitch, screen, layout, pixels);
    }
    assert(f =~= d);
}

/// Drawing keeps the buffer's length, for any pixels on any screen.
proof fn lemma_painted_len(buf: Seq<u32>, pitch: nat, screen: Rectangle, layout: RgbPixelInfo, pixels: Seq<Pixel>)
    requires
        forall|k: int| 0 <= k < pixels.len() ==> !screen.contains((#[trigger] pixels[k]).point)
            || 0 <= index_of(pitch, pixels[k].point) < buf.len(),
    ensures
        painted(buf, pitch, screen, layout, pixels).len() == buf.len(),
    decreases pixels.len(),
{
    if pixels.len() > 0 {
        let rest = pixels.drop_last();
        assert forall|k: int| 0 <= k < rest.len() implies !screen.contains((#[trigger] rest[k]).point)
            || 0 <= index_of(pitch, rest[k].point) < buf.len() by {
            assert(rest[k] == pixels[k]);
        }
        lemma_painted_len(buf, pitch, screen, layout, rest);
    }
}

/// Any sequence of drawing operations keeps the screen rectangle, the row
/// length and the pixel layout, and keeps every pixel of the screen in the
/// buffer: drawing never changes the bounding box.
pub proof fn law_steps_keep_screen(m: FrameModel, steps: Seq<DrawStep>)
    requires
        model_wf(m),
    ensures
        run_steps(m, steps).screen == m.screen,
        run_steps(m, steps).pitch == m.pitch,
        run_steps(m, steps).layout == m.layout,
        run_steps(m, steps).contents.len() == m.contents.len(),
        model_wf(run_steps(m, steps)),
    decreases steps.len(),
{
    if steps.len() > 0 {
        law_steps_keep_screen(m, steps.drop_last());
        let before = run_steps(m, steps.drop_last());
        match steps.last() {
            DrawStep::Pixels(pixels) => {
                assert forall|k: int| 0 <= k < pixels.len() implies !before.screen.contains((#[trigger] pixels[k]).point)
                    || 0 <= index_of(before.pitch, pixels[k].point) < before.contents.len() by {
                    let q = pixels[k].point;
                    if before.screen.contains(q) {
                        lemma_index_in_screen(
                            q.y as int,
                            q.x as int,
                            before.screen.size.width as int,
                            before.screen.size.height as int,
                            before.pitch as int,
                        );
                    }
                }
                lemma_painted_len(before.contents, before.pitch, before.screen, before.layout, pixels);
            },
            DrawStep::Fill(area, color) => {},
            DrawStep::ShiftUp(rows) => {},
        }
    }
}

/// After filling an area, a point of the screen holds the fill value when it
/// lies in the area and keeps its word otherwise.
pub proof fn law_filled_at_point(
    buf: Seq<u32>,
    screen: Rectangle,
    pitch: nat,
    area: Rectangle,
    value: u32,
    q: Point,
)
    requires
        screen.top_left == (Point { x: 0, y: 0 }),
        screen.size.width <= pitch,
        screen.size.height * pitch <= buf.len(),
        screen.contains(q),
    ensures
        0 <= index_of(pitch, q) < buf.len(),
        filled(buf, screen, pitch, area, value)[index_of(pitch, q)] == if area.contains(q) {
            value
        } else {
            buf[index_of(pitch, q)]
        },
{
    lemma_index_in_screen(q.y as int, q.x as int, screen.size.width as int, screen.size.height as int, pitch as int);
    lemma_index_row_column(q.y as int, q.x as int, pitch as int);
    let i = index_of(pitch, q);
    assert(on_screen_index(screen, pitch, i));
    assert(point_of(pitch, i) == q);
}

} // verus!
