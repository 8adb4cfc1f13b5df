use vstd::prelude::*;
use embedded_graphics::mono_font::iso_8859_16::FONT_10X20;
use crate::frame_buffer::{FrameBufferEmbeddedGraphics, filled, index_of, law_filled_at_point, shifted_up};
use crate::geometry::{Point, Rectangle, Size};
use crate::graphemes::{is_carriage_return, is_cr_lf, is_line_feed};
use crate::rgb_pixel_info::{Rgb, RgbPixelInfo};

verus! {

/// The size of a character cell of the console font.
pub open spec fn cell() -> Size {
    Size { width: 10, height: 20 }
}

/// The colour behind the text: black.
pub open spec fn background() -> Rgb {
    Rgb { r: 0, g: 0, b: 0 }
}

/// Reads `character_size` of embedded-graphics' `FONT_10X20` (ISO 8859-16
/// glyphs). Claimed: 10 pixels wide and 20 high, as the font's definition
/// states.
#[verifier::external_body]
fn font_character_size() -> (size: Size)
    ensures
        size == cell(),
{
    Size { width: FONT_10X20.character_size.width, height: FONT_10X20.character_size.height }
}

/// What the caller must do for a grapheme cluster after
/// `DisplayData::write_grapheme`.
#[derive(Debug, Clone, Copy, PartialEq, Eq, Structural)]
pub enum GlyphAction {
    /// Nothing: the cluster was a line end, handled here.
    Done,
    /// Draw the cluster with its top-left corner at this point, then hand
    /// the position the drawing ends at to `DisplayData::glyph_drawn`.
    DrawAt(Point),
}

/// A text console on a frame buffer: the frame buffer and the position
/// where the next character goes.
pub struct DisplayData<'a> {
    display: FrameBufferEmbeddedGraphics<'a>,
    position: Point,
}

/// The rows the screen must scroll by before a line at `y` fits on a
/// screen `height` pixels high; zero or less when it already fits.
pub open spec fn overflow_rows(y: i32, height: u32) -> int {
    y + cell().height - height
}

/// The line position after scrolling so that a line at `y` fits.
pub open spec fn scrolled_y(y: i32, height: u32) -> i32 {
    if overflow_rows(y, height) > 0 {
        (height - cell().height) as i32
    } else {
        y
    }
}

/// The rest of the line from `p` to the right edge of a screen `width`
/// pixels wide.
pub open spec fn rest_of_line(p: Point, width: u32) -> Rectangle {
    Rectangle { top_left: p, size: Size { width: (width - p.x) as u32, height: cell().height } }
}

/// Where the next character goes after a drawing that ended at `next` on a
/// screen `width` pixels wide: at `next`, or at the start of the next line
/// when no further character cell fits on this one.
pub open spec fn after_glyph(next: Point, width: u32) -> Point {
    if (next.x as u32) + cell().width > width {
        Point { x: 0, y: (next.y + cell().height) as i32 }
    } else {
        next
    }
}

/// The position after `DisplayData::write_grapheme` for cluster `c` on a
/// screen of the given size: scrolled so that the line fits, and at the
/// start of the next line after a line end.
pub open spec fn grapheme_position(p: Point, c: Seq<char>, screen: Size) -> Point {
    let p1 = Point { x: p.x, y: scrolled_y(p.y, screen.height) };
    if c == seq!['\n'] || c == seq!['\r', '\n'] {
        Point { x: 0, y: (p1.y + cell().height) as i32 }
    } else {
        p1
    }
}

/// The cluster is drawn by the caller: it is not a line end.
pub open spec fn is_drawn(c: Seq<char>) -> bool {
    c != seq!['\r'] && c != seq!['\n'] && c != seq!['\r', '\n']
}

/// The position after writing one cluster; `next` is where the drawing of a
/// drawn cluster ended.
pub open spec fn console_step(p: Point, c: Seq<char>, next: Point, screen: Size) -> Point {
    if is_drawn(c) {
        after_glyph(next, screen.width)
    } else {
        grapheme_position(p, c, screen)
    }
}

/// The position after writing the clusters in order, each with the point
/// where its drawing ended.
pub open spec fn console_run(p: Point, events: Seq<(Seq<char>, Point)>, screen: Size) -> Point
    decreases events.len(),
{
    if events.len() == 0 {
        p
    } else {
        let before = console_run(p, events.drop_last(), screen);
        console_step(before, events.last().0, events.last().1, screen)
    }
}

/// The position leaves room for a character cell before the right edge of
/// the screen, or is at the start of a line.
pub open spec fn cell_fits(p: Point, width: u32) -> bool {
    p.x == 0 || (0 <= p.x && p.x + cell().width <= width)
}

impl<'a> DisplayData<'a> {
    /// The position where the next character goes.
    pub closed spec fn position(&self) -> Point {
        self.position
    }

    /// The words of the frame buffer.
    pub closed spec fn contents(&self) -> Seq<u32> {
        self.display.contents()
    }

    /// The screen rectangle.
    pub closed spec fn screen(&self) -> Rectangle {
        self.display.screen()
    }

    /// The length of a frame-buffer row, in words.
    pub closed spec fn pitch(&self) -> nat {
        self.display.pitch()
    }

    /// The pixel layout of the frame buffer.
    pub closed spec fn layout(&self) -> RgbPixelInfo {
        self.display.layout()
    }

    /// The frame buffer is well formed and the position lies between the
    /// left and the right edge of the screen.
    pub closed spec fn wf(&self) -> bool {
        &&& self.display.wf()
        &&& 0 <= self.position.x <= self.display.screen().size.width
    }

    /// The facts that `wf` gives callers.
    pub proof fn lemma_wf(&self)
        requires
            self.wf(),
        ensures
            0 <= self.position().x <= self.screen().size.width,
            self.screen().top_left == (Point { x: 0, y: 0 }),
            self.screen().size.width <= i32::MAX,
            self.screen().size.height <= i32::MAX,
    {
    }

    /// A console that starts writing at the top-left corner.
    pub fn new(display: FrameBufferEmbeddedGraphics<'a>) -> (data: Self)
        requires
            display.wf(),
        ensures
            data.wf(),
            data.position() == (Point { x: 0, y: 0 }),
            data.contents() == display.contents(),
            data.screen() == display.screen(),
            data.pitch() == display.pitch(),
            data.layout() == display.layout(),
    {
        DisplayData { display, position: Point { x: 0, y: 0 } }
    }

    /// The position where the next character goes.
    pub fn current_position(&self) -> (p: Point)
        ensures
            p == self.position(),
    {
        self.position
    }

    /// Starts a grapheme cluster: first scrolls the screen up so that the
    /// current line fits on it, and moves the position up with it. Then a
    /// carriage return does nothing more; a line feed, or a carriage return
    /// and a line feed, clears the rest of the line and moves to the start
    /// of the next line; any other cluster is left for the caller to draw
    /// at the position.
    pub fn write_grapheme(&mut self, c: &str) -> (action: GlyphAction)
        requires
            old(self).wf(),
            c@ == seq!['\n'] || c@ == seq!['\r', '\n'] ==> old(self).layout().shifts_in_range(),
            old(self).position().y + cell().height <= i32::MAX,
            old(self).position().y + cell().height - old(self).screen().size.height >= i32::MIN,
        ensures
            final(self).wf(),
            final(self).screen() == old(self).screen(),
            final(self).pitch() == old(self).pitch(),
            final(self).layout() == old(self).layout(),
            ({
                let p0 = old(self).position();
                let screen = old(self).screen();
                let rows = overflow_rows(p0.y, screen.size.height);
                let p1 = Point { x: p0.x, y: scrolled_y(p0.y, screen.size.height) };
                let c1 = if rows > 0 {
                    shifted_up(old(self).contents(), rows * old(self).pitch())
                } else {
                    old(self).contents()
                };
                if c@ == seq!['\r'] {
                    &&& action == GlyphAction::Done
                    &&& final(self).position() == p1
                    &&& final(self).contents() == c1
                } else if c@ == seq!['\n'] || c@ == seq!['\r', '\n'] {
                    &&& action == GlyphAction::Done
                    &&& final(self).position() == (Point { x: 0, y: (p1.y + cell().height) as i32 })
                    &&& final(self).contents() == filled(
                        c1,
                        screen,
                        old(self).pitch(),
                        rest_of_line(p1, screen.size.width),
                        old(self).layout().pixel_of(background()),
                    )
                    &&& forall|q: Point|
                        #![trigger final(self).contents()[index_of(old(self).pitch(), q)]]
                        screen.contains(q) && p1.y <= q.y < p1.y + 20 ==> final(self).contents()[index_of(
                            old(self).pitch(),
                            q,
                        )] == if p1.x <= q.x {
                            old(self).layout().pixel_of(background())
                        } else {
                            c1[index_of(old(self).pitch(), q)]
                        }
                } else {
                    &&& action == GlyphAction::DrawAt(p1)
                    &&& final(self).position() == p1
                    &&& final(self).contents() == c1
                }
            }),
            final(self).position() == grapheme_position(old(self).position(), c@, old(self).screen().size),
    {
        let font = font_character_size();
        let height_not_seen = self.position.y + font.height as i32
            - self.display.bounding_box().size.height as i32;
        if height_not_seen > 0 {
            self.display.shift_up(height_not_seen as usize);
            self.position.y = self.position.y - height_not_seen;
        }
        if is_carriage_return(c) {
            // Special cursor movements are not handled.
            assert(c@ != seq!['\n'] && c@ != seq!['\r', '\n']) by {
                assert(c@[0] == '\r' && c@.len() == 1);
                assert(seq!['\n'][0] == '\n');
                assert(seq!['\r', '\n'].len() == 2);
            }
            GlyphAction::Done
        } else if is_line_feed(c) || is_cr_lf(c) {
            let width = self.display.bounding_box().size.width;
            let area = Rectangle {
                top_left: self.position,
                size: Size { width: width - self.position.x as u32, height: font.height },
            };
            let black = Rgb { r: 0, g: 0, b: 0 };
            let ghost c1 = self.display.contents();
            let ghost p1 = self.position;
            self.display.fill_solid(&area, black);
            proof {
                let screen = self.display.screen();
                let pitch = self.display.pitch();
                let v = self.display.layout().pixel_of(black);
                assert forall|q: Point|
                    #![trigger self.display.contents()[index_of(pitch, q)]]
                    screen.contains(q) && p1.y <= q.y < p1.y + 20 implies self.display.contents()[index_of(
                        pitch,
                        q,
                    )] == if p1.x <= q.x {
                        v
                    } else {
                        c1[index_of(pitch, q)]
                    } by {
                    law_line_feed_clears_rest_of_line(c1, screen, pitch, p1, v, q);
                }
            }
            self.position.y = self.position.y + font.height as i32;
            self.position.x = 0;
            GlyphAction::Done
        } else {
            GlyphAction::DrawAt(self.position)
        }
    }

    /// Ends a drawn grapheme cluster: the position moves to `next`, where
    /// the drawing ended, and to the start of the next line when no further
    /// character cell fits on this one.
    pub fn glyph_drawn(&mut self, next: Point)
        requires
            old(self).wf(),
            (next.x as u32) + cell().width <= u32::MAX,
            (next.x as u32) + cell().width > old(self).screen().size.width ==> next.y + cell().height
                <= i32::MAX,
        ensures
            final(self).wf(),
            final(self).screen() == old(self).screen(),
            final(self).pitch() == old(self).pitch(),
            final(self).layout() == old(self).layout(),
            final(self).contents() == old(self).contents(),
            final(self).position() == after_glyph(next, old(self).screen().size.width),
    {
        let font = font_character_size();
        self.position = next;
        if self.position.x as u32 + font.width > self.display.bounding_box().size.width {
            self.position.y = self.position.y + font.height as i32;
            self.position.x = 0;
        } else {
            let x = next.x;
            assert(x < 0 ==> (x as u32) >= 0x8000_0000u32) by (bit_vector);
        }
    }

    /// The frame buffer, to draw on.
    pub fn display_mut(&mut self) -> (d: &mut FrameBufferEmbeddedGraphics<'a>)
        ensures
            d.contents() == old(self).contents(),
            d.screen() == old(self).screen(),
            d.pitch() == old(self).pitch(),
            d.layout() == old(self).layout(),
            old(self).wf() ==> d.wf(),
            final(self).position() == old(self).position(),
            final(self).contents() == final(d).contents(),
            final(self).screen() == final(d).screen(),
            final(self).pitch() == final(d).pitch(),
            final(self).layout() == final(d).layout(),
            old(self).wf() && final(d).wf() && final(d).screen() == old(self).screen() ==> final(self).wf(),
    {
        &mut self.display
    }
}

/// After the scroll that starts every grapheme cluster, the current line
/// ends above the bottom edge of the screen: a cluster the caller draws
/// never starts below the screen.
pub proof fn law_line_fits_after_scroll(y: i32, height: u32)
    requires
        height <= i32::MAX,
    ensures
        scrolled_y(y, height) + cell().height <= height,
{
}

/// After a drawn grapheme cluster the next character cell either fits
/// between the position and the right edge of the screen, or the position
/// is at the start of a line.
pub proof fn law_next_cell_fits(next: Point, width: u32)
    requires
        width <= i32::MAX,
    ensures
        after_glyph(next, width).x == 0 || (0 <= after_glyph(next, width).x
            && after_glyph(next, width).x + cell().width <= width),
{
    let x = next.x;
    assert(x < 0 ==> (x as u32) >= 0x8000_0000u32) by (bit_vector);
    assert(x >= 0 ==> (x as u32) == x) by (bit_vector);
}

/// Over any string, the cursor never stops at a column where a character
/// cell would not fit before the right edge of the screen, when it starts at
/// such a column.
pub proof fn law_cursor_cell_fits(p: Point, events: Seq<(Seq<char>, Point)>, screen: Size)
    requires
        screen.width <= i32::MAX,
        cell_fits(p, screen.width),
    ensures
        cell_fits(console_run(p, events, screen), screen.width),
    decreases events.len(),
{
    if events.len() > 0 {
        law_cursor_cell_fits(p, events.drop_last(), screen);
        law_next_cell_fits(events.last().1, screen.width);
    }
}

/// A line end at `p` turns every pixel of the line from column `p.x` to the
/// right edge of the screen into the background, whatever `p.x` is, and
/// leaves the pixels left of `p.x` as they were.
pub proof fn law_line_feed_clears_rest_of_line(
    buf: Seq<u32>,
    screen: Rectangle,
    pitch: nat,
    p: Point,
    value: u32,
    q: Point,
)
    requires
        screen.top_left == (Point { x: 0, y: 0 }),
        screen.size.width <= pitch,
        screen.size.width <= i32::MAX,
        screen.size.height * pitch <= buf.len(),
        0 <= p.x <= screen.size.width,
        screen.contains(q),
        p.y <= q.y < p.y + 20,
    ensures
        filled(buf, screen, pitch, rest_of_line(p, screen.size.width), value)[index_of(pitch, q)] == if p.x
            <= q.x {
            value
        } else {
            buf[index_of(pitch, q)]
        },
{
    law_filled_at_point(buf, screen, pitch, rest_of_line(p, screen.size.width), value, q);
}

/// When the line at `y` would reach below the bottom of a screen `height`
/// pixels high, the screen scrolls up by the rows that would not be seen,
/// `y + 20 - height`, and the position moves up by exactly as many rows: the
/// line then ends at the bottom edge, right under the scrolled content.
/// Otherwise nothing scrolls and the position stays.
pub proof fn law_scroll_moves_position_with_content(y: i32, height: u32)
    requires
        height <= i32::MAX,
    ensures
        y + 20 > height ==> {
            &&& overflow_rows(y, height) == y + 20 - height
            &&& scrolled_y(y, height) == y - overflow_rows(y, height)
            &&& scrolled_y(y, height) + 20 == height
        },
        y + 20 <= height ==> overflow_rows(y, height) <= 0 && scrolled_y(y, height) == y,
{
}

/// After a drawn cluster that ends at `next`: when no further 10-pixel cell
/// fits before the right edge (or `next` lies left of the screen), the next
/// character goes to the first column, exactly one 20-pixel line below the
/// line just drawn; otherwise it goes where the drawing ended.
pub proof fn law_wrap_advances_one_line(next: Point, width: u32)
    requires
        width <= i32::MAX,
    ensures
        (next.x < 0 || next.x + 10 > width) ==> after_glyph(next, width) == (Point {
            x: 0,
            y: (next.y + 20) as i32,
        }),
        (0 <= next.x && next.x + 10 <= width) ==> after_glyph(next, width) == next,
{
    let x = next.x;
    assert(x < 0 ==> (x as u32) >= 0x8000_0000u32) by (bit_vector);
    assert(x >= 0 ==> (x as u32) == x) by (bit_vector);
}

} // verus!
