use vstd::prelude::*;
use unicode_segmentation::UnicodeSegmentation;

verus! {

/// The extended grapheme clusters of a string, in order, as Unicode
/// Standard Annex #29 splits them.
pub uninterp spec fn extended_graphemes(s: Seq<char>) -> Seq<Seq<char>>;

/// The characters of the pieces, one piece after the other.
pub open spec fn flatten(pieces: Seq<Seq<char>>) -> Seq<char>
    decreases pieces.len(),
{
    if pieces.len() == 0 {
        Seq::empty()
    } else {
        flatten(pieces.drop_last()) + pieces.last()
    }
}

/// Flattening two lists of pieces one after the other is flattening their
/// concatenation.
pub proof fn lemma_flatten_append(a: Seq<Seq<char>>, b: Seq<Seq<char>>)
    ensures
        flatten(a + b) == flatten(a) + flatten(b),
    decreases b.len(),
{
    if b.len() == 0 {
        assert(a + b == a);
        assert(flatten(a) + Seq::<char>::empty() == flatten(a));
    } else {
        lemma_flatten_append(a, b.drop_last());
        assert((a + b).drop_last() == a + b.drop_last());
        assert((a + b).last() == b.last());
        assert(flatten(a) + (flatten(b.drop_last()) + b.last()) == (flatten(a) + flatten(b.drop_last())) + b.last());
    }
}

/// The characters of each string.
pub open spec fn string_views(pieces: Seq<String>) -> Seq<Seq<char>> {
    pieces.map_values(|p: String| p@)
}

/// The characters of each string slice.
pub open spec fn views(pieces: Seq<&str>) -> Seq<Seq<char>> {
    pieces.map_values(|p: &str| p@)
}

/// A carriage return or a line feed.
pub open spec fn is_line_end(c: char) -> bool {
    c == '\r' || c == '\n'
}

/// What the segmentation rules of UAX #29 fix about the clusters of a
/// string: they cut the string into non-empty pieces; a piece that holds a
/// carriage return or a line feed is a lone carriage return, a lone line
/// feed or a carriage return followed by a line feed (rules GB3 to GB5);
/// and a lone carriage return is never followed by a piece that starts with
/// a line feed (rule GB3).
pub open spec fn splits_lines_per_uax29(s: Seq<char>, g: Seq<Seq<char>>) -> bool {
    &&& flatten(g) == s
    &&& forall|i: int| 0 <= i < g.len() ==> #[trigger] g[i].len() > 0
    &&& forall|i: int, j: int|
        #![trigger g[i][j]]
        0 <= i < g.len() && 0 <= j < g[i].len() && is_line_end(g[i][j]) ==> {
            ||| g[i] == seq!['\n']
            ||| g[i] == seq!['\r']
            ||| g[i] == seq!['\r', '\n']
        }
    &&& forall|i: int|
        0 <= i < g.len() - 1 && #[trigger] g[i] == seq!['\r'] ==> g[i + 1][0] != '\n'
}

/// `UnicodeSegmentation::graphemes` with extended clusters, collected: the
/// string's grapheme clusters in order. Its source applies rules GB3 (no
/// break between CR and LF) and GB4/GB5 (a break before and after every
/// other control character, CR and LF), and yields consecutive slices that
/// together make up the string.
#[verifier::external_body]
fn extended_grapheme_slices<'a>(s: &'a str) -> (g: Vec<&'a str>)
    ensures
        views(g@) == extended_graphemes(s@),
        splits_lines_per_uax29(s@, views(g@)),
{
    s.graphemes(true).collect()
}

/// Splits a string into its extended grapheme clusters, in order.
pub fn split_graphemes<'a>(s: &'a str) -> (g: Vec<&'a str>)
    ensures
        views(g@) == extended_graphemes(s@),
        splits_lines_per_uax29(s@, views(g@)),
{
    extended_grapheme_slices(s)
}

/// The cluster is a lone line feed.
pub fn is_line_feed(c: &str) -> (b: bool)
    ensures
        b == (c@ == seq!['\n']),
{
    let n = c.unicode_len();
    if n == 1 {
        let first = c.get_char(0);
        if first == '\n' {
            assert(c@ =~= seq!['\n']);
        }
        first == '\n'
    } else {
        false
    }
}

/// The cluster is a lone carriage return.
pub fn is_carriage_return(c: &str) -> (b: bool)
    ensures
        b == (c@ == seq!['\r']),
{
    let n = c.unicode_len();
    if n == 1 {
        let first = c.get_char(0);
        if first == '\r' {
            assert(c@ =~= seq!['\r']);
        }
        first == '\r'
    } else {
        false
    }
}

/// The cluster is a carriage return followed by a line feed.
pub fn is_cr_lf(c: &str) -> (b: bool)
    ensures
        b == (c@ == seq!['\r', '\n']),
{
    let n = c.unicode_len();
    if n == 2 {
        let first = c.get_char(0);
        let second = c.get_char(1);
        if first == '\r' && second == '\n' {
            assert(c@ =~= seq!['\r', '\n']);
        }
        first == '\r' && second == '\n'
    } else {
        false
    }
}

} // verus!
