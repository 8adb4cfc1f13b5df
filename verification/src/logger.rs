use vstd::prelude::*;
use vstd::string::*;
use crate::graphemes::{flatten, lemma_flatten_append, string_views};
use crate::rgb_pixel_info::Rgb;
use owo_colors::OwoColorize;

verus! {

/// A colour of a terminal or a screen. The default colour may depend on
/// whether the theme is light or dark.
#[derive(Debug, Clone, Copy, PartialEq, Eq, Structural)]
pub enum Color {
    Default,
    BrightRed,
    BrightYellow,
    BrightBlue,
    BrightCyan,
    BrightMagenta,
}

/// The importance of a log record, from the most to the least important.
#[derive(Debug, Clone, Copy, PartialEq, Eq, Structural)]
pub enum Level {
    Error,
    Warn,
    Info,
    Debug,
    Trace,
}

/// The most verbose level a logger lets through, or none at all.
#[derive(Debug, Clone, Copy, PartialEq, Eq, Structural)]
pub enum LevelFilter {
    Off,
    Error,
    Warn,
    Info,
    Debug,
    Trace,
}

/// The verbosity rank of a level: 1 for errors up to 5 for traces.
pub open spec fn level_rank(level: Level) -> int {
    match level {
        Level::Error => 1,
        Level::Warn => 2,
        Level::Info => 3,
        Level::Debug => 4,
        Level::Trace => 5,
    }
}

/// The verbosity rank of a filter: 0 when logging is off, up to 5 for traces.
pub open spec fn filter_rank(filter: LevelFilter) -> int {
    match filter {
        LevelFilter::Off => 0,
        LevelFilter::Error => 1,
        LevelFilter::Warn => 2,
        LevelFilter::Info => 3,
        LevelFilter::Debug => 4,
        LevelFilter::Trace => 5,
    }
}

/// The name the logging library gives a level.
pub open spec fn level_name(level: Level) -> Seq<char> {
    match level {
        Level::Error => seq!['E', 'R', 'R', 'O', 'R'],
        Level::Warn => seq!['W', 'A', 'R', 'N'],
        Level::Info => seq!['I', 'N', 'F', 'O'],
        Level::Debug => seq!['D', 'E', 'B', 'U', 'G'],
        Level::Trace => seq!['T', 'R', 'A', 'C', 'E'],
    }
}

/// `s` followed by spaces up to `width` characters.
pub open spec fn pad_right(s: Seq<char>, width: nat) -> Seq<char> {
    if s.len() >= width {
        s
    } else {
        s + Seq::new((width - s.len()) as nat, |i: int| ' ')
    }
}

/// Calls `log::Level::as_str` on the level of the `log` crate with the same
/// name. Claimed: the result is the level's name in capitals, as the
/// crate's table of level names holds it.
#[verifier::external_body]
fn level_as_str(level: Level) -> (name: &'static str)
    ensures
        name@ == level_name(level),
{
    match level {
        Level::Error => log::Level::Error,
        Level::Warn => log::Level::Warn,
        Level::Info => log::Level::Info,
        Level::Debug => log::Level::Debug,
        Level::Trace => log::Level::Trace,
    }.as_str()
}

/// Whether a record of `level` is logged when the most verbose level let
/// through is `max`: logging is on and the level is at most as verbose as
/// `max`.
pub fn enabled(level: Level, max: LevelFilter) -> (b: bool)
    ensures
        b == (filter_rank(max) != 0 && level_rank(level) <= filter_rank(max)),
        max == LevelFilter::Off ==> !b,
        level == Level::Error ==> (b <==> max != LevelFilter::Off),
        level == Level::Warn ==> (b <==> (max == LevelFilter::Warn || max == LevelFilter::Info
            || max == LevelFilter::Debug || max == LevelFilter::Trace)),
        level == Level::Info ==> (b <==> (max == LevelFilter::Info || max == LevelFilter::Debug
            || max == LevelFilter::Trace)),
        level == Level::Debug ==> (b <==> (max == LevelFilter::Debug || max == LevelFilter::Trace)),
        level == Level::Trace ==> (b <==> max == LevelFilter::Trace),
{
    let level_rank: u8 = match level {
        Level::Error => 1,
        Level::Warn => 2,
        Level::Info => 3,
        Level::Debug => 4,
        Level::Trace => 5,
    };
    let max_rank: u8 = match max {
        LevelFilter::Off => 0,
        LevelFilter::Error => 1,
        LevelFilter::Warn => 2,
        LevelFilter::Info => 3,
        LevelFilter::Debug => 4,
        LevelFilter::Trace => 5,
    };
    max_rank != 0 && level_rank <= max_rank
}

/// The colour a record's level is shown in.
pub open spec fn color_for_level_spec(level: Level) -> Color {
    match level {
        Level::Error => Color::BrightRed,
        Level::Warn => Color::BrightYellow,
        Level::Info => Color::BrightBlue,
        Level::Debug => Color::BrightCyan,
        Level::Trace => Color::BrightMagenta,
    }
}

/// The colour a record's level is shown in, after the ANSI escape colours.
pub fn color_for_level(level: Level) -> (c: Color)
    ensures
        c == color_for_level_spec(level),
        c == match level {
            Level::Error => Color::BrightRed,
            Level::Warn => Color::BrightYellow,
            Level::Info => Color::BrightBlue,
            Level::Debug => Color::BrightCyan,
            Level::Trace => Color::BrightMagenta,
        },
{
    match level {
        Level::Error => Color::BrightRed,
        Level::Warn => Color::BrightYellow,
        Level::Info => Color::BrightBlue,
        Level::Debug => Color::BrightCyan,
        Level::Trace => Color::BrightMagenta,
    }
}

impl Color {
    /// The colour text of this colour is drawn in on the frame buffer:
    /// white by default, and the bright ANSI colours otherwise.
    pub fn text_color(self) -> (rgb: Rgb)
        ensures
            rgb == match self {
                Color::Default => Rgb { r: 255, g: 255, b: 255 },
                Color::BrightRed => Rgb { r: 255, g: 85, b: 85 },
                Color::BrightYellow => Rgb { r: 255, g: 255, b: 85 },
                Color::BrightBlue => Rgb { r: 85, g: 85, b: 255 },
                Color::BrightCyan => Rgb { r: 85, g: 255, b: 255 },
                Color::BrightMagenta => Rgb { r: 255, g: 85, b: 255 },
            },
    {
        match self {
            Color::Default => Rgb { r: 255, g: 255, b: 255 },
            Color::BrightRed => Rgb { r: 255, g: 85, b: 85 },
            Color::BrightYellow => Rgb { r: 255, g: 255, b: 85 },
            Color::BrightBlue => Rgb { r: 85, g: 85, b: 255 },
            Color::BrightCyan => Rgb { r: 85, g: 255, b: 255 },
            Color::BrightMagenta => Rgb { r: 255, g: 85, b: 255 },
        }
    }
}

/// The prefix of a log line: the level's name padded with spaces to five
/// characters, then one space.
pub fn level_label(level: Level) -> (label: String)
    ensures
        label@ == pad_right(level_name(level), 5) + seq![' '],
{
    let name = level_as_str(level);
    let space: &'static str = " ";
    proof {
        reveal_strlit(" ");
    }
    let mut label = String::from_str(name);
    let mut n = name.unicode_len();
    while n < 5
        invariant
            space@ == seq![' '],
            name@ == level_name(level),
            n <= 5 || n == name@.len(),
            label@.len() == n,
            n >= name@.len(),
            label@ == name@ + Seq::new((n - name@.len()) as nat, |i: int| ' '),
        decreases 5 - n,
    {
        label.append(space);
        n = n + 1;
        assert(label@ =~= name@ + Seq::new((n - name@.len()) as nat, |i: int| ' '));
    }
    assert(label@ =~= pad_right(level_name(level), 5)) by {
        if name@.len() >= 5 {
            assert(Seq::new(0, |i: int| ' ') =~= Seq::<char>::empty());
        }
    }
    label.append(space);
    label
}

/// The ANSI escape sequence that switches a terminal to the colour; none for
/// the default colour, which leaves the terminal as it is.
pub open spec fn ansi_prefix(c: Color) -> Seq<char> {
    match c {
        Color::Default => Seq::empty(),
        Color::BrightRed => seq!['\x1b', '[', '9', '1', 'm'],
        Color::BrightYellow => seq!['\x1b', '[', '9', '3', 'm'],
        Color::BrightBlue => seq!['\x1b', '[', '9', '4', 'm'],
        Color::BrightCyan => seq!['\x1b', '[', '9', '6', 'm'],
        Color::BrightMagenta => seq!['\x1b', '[', '9', '5', 'm'],
    }
}

/// The ANSI escape sequence that switches a terminal back to its default
/// foreground colour after coloured text; none after default text.
pub open spec fn ansi_suffix(c: Color) -> Seq<char> {
    match c {
        Color::Default => Seq::empty(),
        _ => seq!['\x1b', '[', '3', '9', 'm'],
    }
}

/// Formats `text.bright_red()` of owo-colors. Claimed: the foreground code
/// of bright red, the text, then the code back to the default foreground,
/// as owo-colors' `Display` for a coloured value writes them.
#[verifier::external_body]
fn bright_red_text(text: &str) -> (s: String)
    ensures
        s@ == ansi_prefix(Color::BrightRed) + text@ + ansi_suffix(Color::BrightRed),
{
    format!("{}", text.bright_red())
}

/// Formats `text.bright_yellow()` of owo-colors. Claimed: the foreground
/// code of bright yellow, the text, then the code back to the default
/// foreground.
#[verifier::external_body]
fn bright_yellow_text(text: &str) -> (s: String)
    ensures
        s@ == ansi_prefix(Color::BrightYellow) + text@ + ansi_suffix(Color::BrightYellow),
{
    format!("{}", text.bright_yellow())
}

/// Formats `text.bright_blue()` of owo-colors. Claimed: the foreground code
/// of bright blue, the text, then the code back to the default foreground.
#[verifier::external_body]
fn bright_blue_text(text: &str) -> (s: String)
    ensures
        s@ == ansi_prefix(Color::BrightBlue) + text@ + ansi_suffix(Color::BrightBlue),
{
    format!("{}", text.bright_blue())
}

/// Formats `text.bright_cyan()` of owo-colors. Claimed: the foreground code
/// of bright cyan, the text, then the code back to the default foreground.
#[verifier::external_body]
fn bright_cyan_text(text: &str) -> (s: String)
    ensures
        s@ == ansi_prefix(Color::BrightCyan) + text@ + ansi_suffix(Color::BrightCyan),
{
    format!("{}", text.bright_cyan())
}

/// Formats `text.bright_magenta()` of owo-colors. Claimed: the foreground
/// code of bright magenta, the text, then the code back to the default
/// foreground.
#[verifier::external_body]
fn bright_magenta_text(text: &str) -> (s: String)
    ensures
        s@ == ansi_prefix(Color::BrightMagenta) + text@ + ansi_suffix(Color::BrightMagenta),
{
    format!("{}", text.bright_magenta())
}

/// The text as it goes to the serial line in a colour: wrapped in the ANSI
/// codes that switch the terminal to the colour and back, or unchanged in
/// the default colour.
pub fn serial_text(color: Color, text: &str) -> (s: String)
    ensures
        s@ == ansi_prefix(color) + text@ + ansi_suffix(color),
{
    match color {
        Color::Default => {
            let s = String::from_str(text);
            assert(s@ =~= ansi_prefix(color) + text@ + ansi_suffix(color));
            s
        },
        Color::BrightRed => bright_red_text(text),
        Color::BrightYellow => bright_yellow_text(text),
        Color::BrightBlue => bright_blue_text(text),
        Color::BrightCyan => bright_cyan_text(text),
        Color::BrightMagenta => bright_magenta_text(text),
    }
}

/// The pieces a write of formatted text in a colour sends to the serial
/// line, in order: the pieces the formatting produced, between the code that
/// switches to the colour and the code that switches back (no codes for the
/// default colour).
pub open spec fn serial_piece_views(color: Color, chunks: Seq<Seq<char>>) -> Seq<Seq<char>> {
    if color == Color::Default {
        chunks
    } else {
        seq![ansi_prefix(color)] + chunks + seq![ansi_suffix(color)]
    }
}

/// The pieces a write of formatted text in a colour sends to the serial
/// line, each to be converted on its own: the colour code, the pieces the
/// formatting produced, and the code back to the default colour.
pub fn serial_pieces(color: Color, chunks: &Vec<String>) -> (pieces: Vec<String>)
    ensures
        string_views(pieces@) == serial_piece_views(color, string_views(chunks@)),
        flatten(string_views(pieces@)) == ansi_prefix(color) + flatten(string_views(chunks@)) + ansi_suffix(
            color,
        ),
{
    let ghost cs = string_views(chunks@);
    let mut pieces: Vec<String> = Vec::new();
    let mut suffix: Option<String> = None;
    match color {
        Color::Default => {},
        _ => {
            let empty: &'static str = "";
            proof {
                reveal_strlit("");
            }
            let frame = serial_text(color, empty);
            assert(frame@ =~= ansi_prefix(color) + ansi_suffix(color));
            let total = frame.as_str().unicode_len();
            let prefix = String::from_str(frame.as_str().substring_char(0, 5));
            assert(prefix@ =~= ansi_prefix(color));
            pieces.push(prefix);
            let rest = String::from_str(frame.as_str().substring_char(5, total));
            assert(rest@ =~= ansi_suffix(color));
            suffix = Some(rest);
        },
    }
    let ghost head = string_views(pieces@);
    let n = chunks.len();
    let mut i: usize = 0;
    while i < n
        invariant
            n == chunks@.len(),
            cs == string_views(chunks@),
            0 <= i <= n,
            head.len() == (if color == Color::Default { 0int } else { 1int }),
            color != Color::Default ==> head == seq![ansi_prefix(color)],
            pieces@.len() == head.len() + i,
            string_views(pieces@) == head + cs.take(i as int),
            color != Color::Default ==> (suffix matches Some(t) && t@ == ansi_suffix(color)),
        decreases n - i,
    {
        let chunk = chunks[i].clone();
        assert(chunk@ == cs[i as int]);
        let ghost before = pieces@;
        pieces.push(chunk);
        assert(string_views(pieces@) =~= head + cs.take(i + 1)) by {
            assert(string_views(before) == head + cs.take(i as int));
            assert(pieces@ == before.push(chunk));
            assert forall|j: int| 0 <= j < pieces@.len() implies string_views(pieces@)[j] == (head + cs.take(i + 1))[j] by {
                if j < before.len() {
                    assert(pieces@[j] == before[j]);
                    assert(string_views(before)[j] == before[j]@);
                } else {
                    assert(pieces@[j] == chunk);
                }
            }
        }
        i = i + 1;
    }
    assert(cs.take(n as int) == cs);
    match suffix {
        Some(t) => {
            let ghost before = pieces@;
            pieces.push(t);
            assert(string_views(pieces@) =~= head + cs + seq![ansi_suffix(color)]) by {
                assert forall|j: int| 0 <= j < before.len() implies string_views(pieces@)[j] == string_views(before)[j] by {
                    assert(pieces@[j] == before[j]);
                }
            }
        },
        None => {
            assert(head =~= Seq::<Seq<char>>::empty());
            assert(head + cs =~= cs);
        },
    }
    proof {
        if color == Color::Default {
            assert(ansi_prefix(color) + flatten(cs) + ansi_suffix(color) =~= flatten(cs));
        } else {
            let p = seq![ansi_prefix(color)];
            let q = seq![ansi_suffix(color)];
            lemma_flatten_append(p, cs);
            lemma_flatten_append(p + cs, q);
            assert(flatten(p) == ansi_prefix(color)) by {
                assert(p.drop_last().len() == 0);
                assert(flatten(p.drop_last()) == Seq::<char>::empty());
                assert(Seq::<char>::empty() + ansi_prefix(color) =~= ansi_prefix(color));
            }
            assert(flatten(q) == ansi_suffix(color)) by {
                assert(q.drop_last().len() == 0);
                assert(flatten(q.drop_last()) == Seq::<char>::empty());
                assert(Seq::<char>::empty() + ansi_suffix(color) =~= ansi_suffix(color));
            }
        }
    }
    pieces
}

/// A part of a log line: text in a colour, or the record's message.
#[derive(Debug)]
pub enum LogPart {
    /// This text, in this colour.
    Text(Color, String),
    /// The record's message, in this colour.
    Message(Color),
}

/// The parts of a log line on the console: the level's label in the level's
/// colour, the message in the default colour, then a carriage return and a
/// line feed.
pub fn log_line(level: Level) -> (parts: Vec<LogPart>)
    ensures
        parts@.len() == 3,
        parts@[0] matches LogPart::Text(c, t) && c == color_for_level_spec(level) && t@ == pad_right(
            level_name(level),
            5,
        ) + seq![' '],
        parts@[1] == LogPart::Message(Color::Default),
        parts@[2] matches LogPart::Text(c, t) && c == Color::Default && t@ == seq!['\r', '\n'],
{
    let crlf: &'static str = "\r\n";
    proof {
        reveal_strlit("\r\n");
    }
    let mut parts = Vec::new();
    parts.push(LogPart::Text(color_for_level(level), level_label(level)));
    parts.push(LogPart::Message(Color::Default));
    parts.push(LogPart::Text(Color::Default, String::from_str(crlf)));
    parts
}

/// The parts of the line written to the serial line alone when the logger
/// is busy: the level's label, the message, then a line feed, all in the
/// default colour.
pub fn fallback_line(level: Level) -> (parts: Vec<LogPart>)
    ensures
        parts@.len() == 3,
        parts@[0] matches LogPart::Text(c, t) && c == Color::Default && t@ == pad_right(level_name(level), 5)
            + seq![' '],
        parts@[1] == LogPart::Message(Color::Default),
        parts@[2] matches LogPart::Text(c, t) && c == Color::Default && t@ == seq!['\n'],
{
    let lf: &'static str = "\n";
    proof {
        reveal_strlit("\n");
    }
    let mut parts = Vec::new();
    parts.push(LogPart::Text(Color::Default, level_label(level)));
    parts.push(LogPart::Message(Color::Default));
    parts.push(LogPart::Text(Color::Default, String::from_str(lf)));
    parts
}

/// A level is let through by every filter at least as verbose as one that
/// lets it through.
pub proof fn law_enabled_monotone(level: Level, max: LevelFilter, wider: LevelFilter)
    requires
        filter_rank(max) != 0 && level_rank(level) <= filter_rank(max),
        filter_rank(max) <= filter_rank(wider),
    ensures
        filter_rank(wider) != 0 && level_rank(level) <= filter_rank(wider),
{
}

/// The levels run from the least to the most verbose, Error, Warn, Info,
/// Debug, Trace, and each filter lets through exactly the levels up to its
/// own: Error is let through by every filter but Off, and Trace only by the
/// Trace filter.
pub proof fn law_enabled_levels(max: LevelFilter)
    ensures
        (filter_rank(max) != 0 && level_rank(Level::Error) <= filter_rank(max)) <==> max != LevelFilter::Off,
        (filter_rank(max) != 0 && level_rank(Level::Warn) <= filter_rank(max)) <==> (max == LevelFilter::Warn
            || max == LevelFilter::Info || max == LevelFilter::Debug || max == LevelFilter::Trace),
        (filter_rank(max) != 0 && level_rank(Level::Info) <= filter_rank(max)) <==> (max == LevelFilter::Info
            || max == LevelFilter::Debug || max == LevelFilter::Trace),
        (filter_rank(max) != 0 && level_rank(Level::Debug) <= filter_rank(max)) <==> (max == LevelFilter::Debug
            || max == LevelFilter::Trace),
        (filter_rank(max) != 0 && level_rank(Level::Trace) <= filter_rank(max)) <==> max == LevelFilter::Trace,
{
}

/// The verbosity ranks are strictly increasing: Error < Warn < Info < Debug
/// < Trace for levels, and Off below all of them for filters, each level's
/// rank equal to that of the filter of the same name.
pub proof fn law_level_order()
    ensures
        level_rank(Level::Error) < level_rank(Level::Warn),
        level_rank(Level::Warn) < level_rank(Level::Info),
        level_rank(Level::Info) < level_rank(Level::Debug),
        level_rank(Level::Debug) < level_rank(Level::Trace),
        filter_rank(LevelFilter::Off) < filter_rank(LevelFilter::Error),
        filter_rank(LevelFilter::Off) == 0,
        level_rank(Level::Error) == filter_rank(LevelFilter::Error),
        level_rank(Level::Warn) == filter_rank(LevelFilter::Warn),
        level_rank(Level::Info) == filter_rank(LevelFilter::Info),
        level_rank(Level::Debug) == filter_rank(LevelFilter::Debug),
        level_rank(Level::Trace) == filter_rank(LevelFilter::Trace),
{
}

/// Padding keeps the text in front and fills with spaces up to the width;
/// text already as wide stays as it is.
pub proof fn law_pad_right(s: Seq<char>, width: nat)
    ensures
        pad_right(s, width).len() == if s.len() >= width { s.len() } else { width },
        pad_right(s, width).subrange(0, s.len() as int) == s,
        forall|i: int| s.len() <= i < pad_right(s, width).len() ==> #[trigger] pad_right(s, width)[i] == ' ',
{
    if s.len() < width {
        assert(pad_right(s, width).subrange(0, s.len() as int) =~= s);
    } else {
        assert(pad_right(s, width).subrange(0, s.len() as int) =~= s);
    }
}

} // verus!
