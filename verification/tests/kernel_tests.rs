use kernel::{
    color_for_level, cr_lf_pieces, enabled, fallback_line, log_line, serial_pieces, LogPart, is_carriage_return, is_cr_lf, is_line_feed, level_label,
    serial_text, split_graphemes, Color, DisplayData, FrameBufferEmbeddedGraphics, FrameBufferInfo, GlyphAction,
    Level, LevelFilter, Pixel, Point, Rectangle, Rgb, RgbPixelInfo, Size, WriterWithCr,
};

fn rgb888_layout() -> RgbPixelInfo {
    RgbPixelInfo {
        red_mask_size: 8,
        red_mask_shift: 16,
        green_mask_size: 8,
        green_mask_shift: 8,
        blue_mask_size: 8,
        blue_mask_shift: 0,
    }
}

fn info(width: u64, height: u64, pitch: u64) -> FrameBufferInfo {
    FrameBufferInfo::new(width, height, pitch, 32, rgb888_layout())
}

#[test]
fn build_pixel_packs_rgb888() {
    let layout = rgb888_layout();
    assert_eq!(layout.build_pixel(&Rgb::new(0x12, 0x34, 0x56)), 0x0012_3456);
    assert_eq!(layout.build_pixel(&Rgb::new(255, 255, 255)), 0x00ff_ffff);
    assert_eq!(layout.build_pixel(&Rgb::new(0, 0, 0)), 0);
}

#[test]
fn build_pixel_keeps_low_bits_of_narrow_channels() {
    // A 5-6-5 layout keeps the low 5, 6 and 5 bits of each channel.
    let layout = RgbPixelInfo {
        red_mask_size: 5,
        red_mask_shift: 11,
        green_mask_size: 6,
        green_mask_shift: 5,
        blue_mask_size: 5,
        blue_mask_shift: 0,
    };
    let pixel = layout.build_pixel(&Rgb::new(0xff, 0x41, 0x22));
    assert_eq!(pixel, (0x1f << 11) | (0x01 << 5) | 0x02);
    // Reading each field back gives the channel's low bits.
    assert_eq!((pixel >> 11) & 0x1f, 0xff & 0x1f);
    assert_eq!((pixel >> 5) & 0x3f, 0x41 & 0x3f);
    assert_eq!(pixel & 0x1f, 0x22 & 0x1f);
}

#[test]
fn build_pixel_with_bgr_layout_and_empty_channel() {
    let layout = RgbPixelInfo {
        red_mask_size: 8,
        red_mask_shift: 0,
        green_mask_size: 8,
        green_mask_shift: 8,
        blue_mask_size: 0,
        blue_mask_shift: 16,
    };
    assert_eq!(layout.build_pixel(&Rgb::new(0x12, 0x34, 0x56)), 0x0000_3412);
}

#[test]
fn frame_buffer_info_keeps_fields() {
    let i = info(640, 480, 2560);
    assert_eq!(i.width, 640);
    assert_eq!(i.height, 480);
    assert_eq!(i.pitch, 2560);
    assert_eq!(i.bits_per_pixel, 32);
    assert_eq!(i.pixel_info.red_mask_shift, 16);
}

#[test]
fn new_frame_buffer_has_screen_at_origin() {
    // 3 x 2 pixels, rows of 4 words.
    let mut words = vec![0u32; 8];
    let fb = FrameBufferEmbeddedGraphics::new(&mut words[..], info(3, 2, 16));
    assert_eq!(fb.bounding_box(), Rectangle::new(Point::new(0, 0), Size::new(3, 2)));
    assert_eq!(fb.info().pitch, 16);
}

#[test]
fn draw_iter_writes_on_screen_pixels_only() {
    let mut words = vec![0u32; 8];
    {
        let mut fb = FrameBufferEmbeddedGraphics::new(&mut words[..], info(3, 2, 16));
        let red = Rgb::new(255, 0, 0);
        let blue = Rgb::new(0, 0, 255);
        fb.draw_iter(&[
            Pixel { point: Point::new(0, 0), color: red },
            Pixel { point: Point::new(2, 1), color: blue },
            // Off the screen: the padding column, below, left of it.
            Pixel { point: Point::new(3, 0), color: red },
            Pixel { point: Point::new(0, 2), color: red },
            Pixel { point: Point::new(-1, 0), color: red },
            // The last pixel drawn at a point wins.
            Pixel { point: Point::new(1, 0), color: red },
            Pixel { point: Point::new(1, 0), color: blue },
        ]);
    }
    assert_eq!(words, vec![0x00ff_0000, 0x0000_00ff, 0, 0, 0, 0, 0x0000_00ff, 0]);
}

#[test]
fn fill_solid_clips_to_screen() {
    let mut words = vec![0u32; 12];
    {
        let mut fb = FrameBufferEmbeddedGraphics::new(&mut words[..], info(3, 3, 16));
        let area = Rectangle::new(Point::new(1, -5), Size::new(10, 7));
        fb.fill_solid(&area, Rgb::new(0, 0xff, 0));
    }
    let g = 0x0000_ff00;
    assert_eq!(words, vec![0, g, g, 0, 0, g, g, 0, 0, 0, 0, 0]);
}

#[test]
fn fill_solid_outside_screen_changes_nothing() {
    let mut words = vec![7u32; 12];
    {
        let mut fb = FrameBufferEmbeddedGraphics::new(&mut words[..], info(3, 3, 16));
        fb.fill_solid(&Rectangle::new(Point::new(3, 0), Size::new(5, 5)), Rgb::new(1, 2, 3));
        fb.fill_solid(&Rectangle::new(Point::new(0, 0), Size::new(0, 3)), Rgb::new(1, 2, 3));
    }
    assert_eq!(words, vec![7u32; 12]);
}

#[test]
fn shift_up_moves_rows() {
    let mut words: Vec<u32> = (0..8).collect();
    {
        let mut fb = FrameBufferEmbeddedGraphics::new(&mut words[..], info(2, 4, 8));
        fb.shift_up(1);
    }
    assert_eq!(words, vec![2, 3, 4, 5, 6, 7, 6, 7]);
}

#[test]
fn shift_up_by_whole_screen_changes_nothing() {
    let mut words: Vec<u32> = (0..8).collect();
    {
        let mut fb = FrameBufferEmbeddedGraphics::new(&mut words[..], info(2, 4, 8));
        fb.shift_up(4);
        fb.shift_up(usize::MAX);
    }
    assert_eq!(words, (0..8).collect::<Vec<u32>>());
}

#[test]
fn graphemes_keep_cr_lf_together() {
    assert_eq!(split_graphemes("a\r\nb\n"), vec!["a", "\r\n", "b", "\n"]);
    assert_eq!(split_graphemes("e\u{301}x"), vec!["e\u{301}", "x"]);
    assert!(split_graphemes("").is_empty());
}

#[test]
fn line_end_classification() {
    assert!(is_line_feed("\n"));
    assert!(!is_line_feed("\r\n"));
    assert!(is_carriage_return("\r"));
    assert!(!is_carriage_return("r"));
    assert!(is_cr_lf("\r\n"));
    assert!(!is_cr_lf("\n\r"));
}

#[test]
fn cr_lf_pieces_add_carriage_returns() {
    assert_eq!(cr_lf_pieces("hello\nworld"), vec!["h", "e", "l", "l", "o", "\r\n", "w", "o", "r", "l", "d"]);
    assert_eq!(cr_lf_pieces("a\r\nb"), vec!["a", "\r\n", "b"]);
    assert_eq!(cr_lf_pieces("\n\n"), vec!["\r\n", "\r\n"]);
    assert_eq!(cr_lf_pieces("\r"), vec!["\r"]);
    assert!(cr_lf_pieces("").is_empty());
}

#[test]
fn cr_lf_conversion_is_idempotent() {
    let once: String = cr_lf_pieces("x\ny\r\nz\n").concat();
    assert_eq!(once, "x\r\ny\r\nz\r\n");
    let twice: String = cr_lf_pieces(&once).concat();
    assert_eq!(twice, once);
}

#[test]
fn writer_with_cr_keeps_inner_writer() {
    let w = WriterWithCr::new(String::from("inner"));
    assert_eq!(w.into_inner(), "inner");
}

#[test]
fn level_labels_are_padded() {
    assert_eq!(level_label(Level::Error), "ERROR ");
    assert_eq!(level_label(Level::Warn), "WARN  ");
    assert_eq!(level_label(Level::Info), "INFO  ");
    assert_eq!(level_label(Level::Debug), "DEBUG ");
    assert_eq!(level_label(Level::Trace), "TRACE ");
}

#[test]
fn enabled_follows_max_level() {
    assert!(!enabled(Level::Error, LevelFilter::Off));
    assert!(enabled(Level::Error, LevelFilter::Error));
    assert!(!enabled(Level::Warn, LevelFilter::Error));
    assert!(enabled(Level::Info, LevelFilter::Info));
    assert!(!enabled(Level::Debug, LevelFilter::Info));
    assert!(enabled(Level::Debug, LevelFilter::Trace));
    // Widening the filter never disables a level.
    assert!(enabled(Level::Warn, LevelFilter::Warn) && enabled(Level::Warn, LevelFilter::Debug));
}

#[test]
fn level_colors() {
    assert_eq!(color_for_level(Level::Error), Color::BrightRed);
    assert_eq!(color_for_level(Level::Warn), Color::BrightYellow);
    assert_eq!(color_for_level(Level::Info), Color::BrightBlue);
    assert_eq!(color_for_level(Level::Debug), Color::BrightCyan);
    assert_eq!(color_for_level(Level::Trace), Color::BrightMagenta);
}

#[test]
fn text_colors_mimic_ansi() {
    assert_eq!(Color::Default.text_color(), Rgb::new(255, 255, 255));
    assert_eq!(Color::BrightRed.text_color(), Rgb::new(255, 85, 85));
    assert_eq!(Color::BrightYellow.text_color(), Rgb::new(255, 255, 85));
    assert_eq!(Color::BrightBlue.text_color(), Rgb::new(85, 85, 255));
    assert_eq!(Color::BrightCyan.text_color(), Rgb::new(85, 255, 255));
    assert_eq!(Color::BrightMagenta.text_color(), Rgb::new(255, 85, 255));
}

#[test]
fn console_line_feed_clears_rest_of_line() {
    // 30 x 40 pixels: three cells per line, two lines.
    let mut words = vec![9u32; 30 * 40];
    {
        let fb = FrameBufferEmbeddedGraphics::new(&mut words[..], info(30, 40, 120));
        let mut data = DisplayData::new(fb);
        assert_eq!(data.write_grapheme("a"), GlyphAction::DrawAt(Point::new(0, 0)));
        data.glyph_drawn(Point::new(10, 0));
        assert_eq!(data.current_position(), Point::new(10, 0));
        assert_eq!(data.write_grapheme("\n"), GlyphAction::Done);
        assert_eq!(data.current_position(), Point::new(0, 20));
    }
    // Row 0, columns 10.. are black; columns 0..10 untouched; row 20 untouched.
    assert_eq!(words[5], 9);
    assert_eq!(words[10], 0);
    assert_eq!(words[29], 0);
    assert_eq!(words[19 * 30 + 15], 0);
    assert_eq!(words[20 * 30 + 15], 9);
}

#[test]
fn console_carriage_return_does_nothing() {
    let mut words = vec![9u32; 30 * 40];
    {
        let fb = FrameBufferEmbeddedGraphics::new(&mut words[..], info(30, 40, 120));
        let mut data = DisplayData::new(fb);
        data.glyph_drawn(Point::new(10, 0));
        assert_eq!(data.write_grapheme("\r"), GlyphAction::Done);
        assert_eq!(data.current_position(), Point::new(10, 0));
    }
    assert!(words.iter().all(|w| *w == 9));
}

#[test]
fn console_wraps_when_no_cell_fits() {
    let mut words = vec![0u32; 30 * 40];
    let fb = FrameBufferEmbeddedGraphics::new(&mut words[..], info(30, 40, 120));
    let mut data = DisplayData::new(fb);
    data.glyph_drawn(Point::new(20, 0));
    assert_eq!(data.current_position(), Point::new(20, 0));
    data.glyph_drawn(Point::new(30, 0));
    assert_eq!(data.current_position(), Point::new(0, 20));
}

#[test]
fn console_scrolls_before_writing_below_screen() {
    let mut words: Vec<u32> = (0..30 * 40).collect();
    {
        let fb = FrameBufferEmbeddedGraphics::new(&mut words[..], info(30, 40, 120));
        let mut data = DisplayData::new(fb);
        data.glyph_drawn(Point::new(30, 20)); // wraps to (0, 40), below the screen
        assert_eq!(data.current_position(), Point::new(0, 40));
        assert_eq!(data.write_grapheme("x"), GlyphAction::DrawAt(Point::new(0, 20)));
    }
    // Everything moved up by 20 rows; the last 20 rows kept their words.
    assert_eq!(words[0], 20 * 30);
    assert_eq!(words[19 * 30 + 29], 39 * 30 + 29);
    assert_eq!(words[20 * 30], 20 * 30);
}

#[test]
fn serial_text_wraps_in_ansi_codes() {
    assert_eq!(serial_text(Color::Default, "plain"), "plain");
    assert_eq!(serial_text(Color::BrightRed, "err"), "\x1b[91merr\x1b[39m");
    assert_eq!(serial_text(Color::BrightYellow, "w"), "\x1b[93mw\x1b[39m");
    assert_eq!(serial_text(Color::BrightBlue, "i"), "\x1b[94mi\x1b[39m");
    assert_eq!(serial_text(Color::BrightCyan, "d"), "\x1b[96md\x1b[39m");
    assert_eq!(serial_text(Color::BrightMagenta, "t"), "\x1b[95mt\x1b[39m");
    assert_eq!(serial_text(Color::BrightRed, ""), "\x1b[91m\x1b[39m");
}

#[test]
fn double_wrapping_converts_nothing_more() {
    let s = "a\nb\r\n\n\rc";
    let single: String = cr_lf_pieces(s).concat();
    let double: String = cr_lf_pieces(s).iter().map(|p| cr_lf_pieces(p).concat()).collect();
    assert_eq!(single, "a\r\nb\r\n\r\n\rc");
    assert_eq!(double, single);
}

#[test]
fn drawing_in_two_calls_equals_one() {
    let red = Rgb::new(255, 0, 0);
    let blue = Rgb::new(0, 0, 255);
    let a = [Pixel { point: Point::new(0, 0), color: red }, Pixel { point: Point::new(1, 1), color: red }];
    let b = [Pixel { point: Point::new(1, 1), color: blue }, Pixel { point: Point::new(2, 0), color: blue }];
    let mut once = vec![0u32; 8];
    {
        let mut fb = FrameBufferEmbeddedGraphics::new(&mut once[..], info(3, 2, 16));
        let all: Vec<Pixel> = a.iter().chain(b.iter()).copied().collect();
        fb.draw_iter(&all);
    }
    let mut twice = vec![0u32; 8];
    {
        let mut fb = FrameBufferEmbeddedGraphics::new(&mut twice[..], info(3, 2, 16));
        fb.draw_iter(&a);
        fb.draw_iter(&b);
    }
    assert_eq!(once, twice);
}

#[test]
fn fill_equals_drawing_every_point_of_the_area() {
    let area = Rectangle::new(Point::new(1, -1), Size::new(5, 3));
    let color = Rgb::new(1, 2, 3);
    let mut filled = vec![5u32; 12];
    {
        let mut fb = FrameBufferEmbeddedGraphics::new(&mut filled[..], info(3, 3, 16));
        fb.fill_solid(&area, color);
        assert_eq!(fb.bounding_box(), Rectangle::new(Point::new(0, 0), Size::new(3, 3)));
    }
    let mut drawn = vec![5u32; 12];
    {
        let mut fb = FrameBufferEmbeddedGraphics::new(&mut drawn[..], info(3, 3, 16));
        let mut pixels = Vec::new();
        for y in -1..2 {
            for x in 1..6 {
                pixels.push(Pixel { point: Point::new(x, y), color });
            }
        }
        fb.draw_iter(&pixels);
        fb.shift_up(0);
        assert_eq!(fb.bounding_box(), Rectangle::new(Point::new(0, 0), Size::new(3, 3)));
    }
    assert_eq!(filled, drawn);
}

#[test]
fn serial_pieces_frame_the_formatted_pieces() {
    let chunks = vec![String::from("WARN"), String::from("  ")];
    assert_eq!(serial_pieces(Color::BrightYellow, &chunks), vec!["\x1b[93m", "WARN", "  ", "\x1b[39m"]);
    assert_eq!(serial_pieces(Color::Default, &chunks), vec!["WARN", "  "]);
    assert_eq!(serial_pieces(Color::BrightRed, &Vec::new()), vec!["\x1b[91m", "\x1b[39m"]);
}

#[test]
fn log_line_shape() {
    let parts = log_line(Level::Error);
    assert_eq!(parts.len(), 3);
    assert!(matches!(&parts[0], LogPart::Text(Color::BrightRed, t) if t == "ERROR "));
    assert!(matches!(&parts[1], LogPart::Message(Color::Default)));
    assert!(matches!(&parts[2], LogPart::Text(Color::Default, t) if t == "\r\n"));
    let fallback = fallback_line(Level::Info);
    assert!(matches!(&fallback[0], LogPart::Text(Color::Default, t) if t == "INFO  "));
    assert!(matches!(&fallback[1], LogPart::Message(Color::Default)));
    assert!(matches!(&fallback[2], LogPart::Text(Color::Default, t) if t == "\n"));
}

#[test]
fn draw_off_screen_with_any_layout() {
    let mut words = vec![0u32; 8];
    {
        let layout = RgbPixelInfo {
            red_mask_size: 40,
            red_mask_shift: 0,
            green_mask_size: 8,
            green_mask_shift: 8,
            blue_mask_size: 8,
            blue_mask_shift: 0,
        };
        let mut fb = FrameBufferEmbeddedGraphics::new(&mut words[..], FrameBufferInfo::new(3, 2, 16, 32, layout));
        fb.draw_iter(&[Pixel { point: Point::new(5, 5), color: Rgb::new(1, 2, 3) }]);
    }
    assert_eq!(words, vec![0u32; 8]);
}
