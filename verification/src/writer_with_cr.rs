use vstd::prelude::*;
use crate::graphemes::{extended_graphemes, flatten, is_line_end, split_graphemes, splits_lines_per_uax29, views, is_line_feed};

verus! {

/// A text writer in front of a serial line: every line feed that does not
/// already follow a carriage return is sent as a carriage return and a line
/// feed, so that terminals return to the first column.
pub struct WriterWithCr<T> {
    writer: T,
}

impl<T> WriterWithCr<T> {
    /// The writer that receives the converted text.
    pub closed spec fn inner(&self) -> T {
        self.writer
    }

    /// Puts the line-end conversion in front of `writer`.
    pub fn new(writer: T) -> (w: Self)
        ensures
            w.inner() == writer,
    {
        Self { writer }
    }

    /// Gives back the inner writer.
    pub fn into_inner(self) -> (writer: T)
        ensures
            writer == self.inner(),
    {
        self.writer
    }
}

/// `s` with every line feed that does not follow a carriage return turned
/// into a carriage return and a line feed; `after_cr` tells whether the
/// character before `s` was a carriage return.
pub open spec fn crlf_from(s: Seq<char>, after_cr: bool) -> Seq<char>
    decreases s.len(),
{
    if s.len() == 0 {
        Seq::empty()
    } else {
        let c = s[0];
        (if c == '\n' && !after_cr {
            seq!['\r', '\n']
        } else {
            seq![c]
        }) + crlf_from(s.drop_first(), c == '\r')
    }
}

/// `s` with every bare line feed turned into a carriage return and a line feed.
pub open spec fn with_crlf(s: Seq<char>) -> Seq<char> {
    crlf_from(s, false)
}

/// Whether the last character of `s` is a carriage return, or, for an empty
/// `s`, whether the character before it was.
pub open spec fn ends_with_cr(s: Seq<char>, after_cr: bool) -> bool {
    if s.len() > 0 {
        s.last() == '\r'
    } else {
        after_cr
    }
}

/// What the writer sends for one grapheme cluster.
pub open spec fn piece_for(c: Seq<char>) -> Seq<char> {
    if c == seq!['\n'] {
        seq!['\r', '\n']
    } else {
        c
    }
}

/// What the writer sends for each grapheme cluster, in order.
pub open spec fn pieces_for(g: Seq<Seq<char>>) -> Seq<Seq<char>> {
    g.map_values(|c: Seq<char>| piece_for(c))
}

proof fn lemma_crlf_single(c: char, after_cr: bool)
    ensures
        crlf_from(seq![c], after_cr) == if c == '\n' && !after_cr {
            seq!['\r', '\n']
        } else {
            seq![c]
        },
{
    let s = seq![c];
    assert(s.drop_first() =~= Seq::<char>::empty());
    assert(crlf_from(Seq::<char>::empty(), c == '\r') == Seq::<char>::empty());
    let head = if c == '\n' && !after_cr {
        seq!['\r', '\n']
    } else {
        seq![c]
    };
    assert(head + Seq::<char>::empty() =~= head);
}

proof fn lemma_crlf_pair(after_cr: bool)
    ensures
        crlf_from(seq!['\r', '\n'], after_cr) == seq!['\r', '\n'],
{
    let s = seq!['\r', '\n'];
    assert(s.drop_first() =~= seq!['\n']);
    lemma_crlf_single('\n', true);
    assert(seq!['\r'] + seq!['\n'] =~= s);
}

proof fn lemma_crlf_append(a: Seq<char>, b: Seq<char>, after_cr: bool)
    ensures
        crlf_from(a + b, after_cr) == crlf_from(a, after_cr) + crlf_from(b, ends_with_cr(a, after_cr)),
    decreases a.len(),
{
    if a.len() == 0 {
        assert(a + b == b);
        assert(crlf_from(a, after_cr) == Seq::<char>::empty());
        assert(Seq::<char>::empty() + crlf_from(b, after_cr) == crlf_from(b, after_cr));
    } else {
        let c = a[0];
        let rest = a.drop_first();
        assert((a + b).drop_first() == rest + b);
        assert((a + b)[0] == c);
        lemma_crlf_append(rest, b, c == '\r');
        if rest.len() > 0 {
            assert(rest.last() == a.last());
        }
        let head = if c == '\n' && !after_cr {
            seq!['\r', '\n']
        } else {
            seq![c]
        };
        assert(crlf_from(a + b, after_cr) == head + crlf_from(rest + b, c == '\r'));
        assert(head + (crlf_from(rest, c == '\r') + crlf_from(b, ends_with_cr(rest, c == '\r')))
            == (head + crlf_from(rest, c == '\r')) + crlf_from(b, ends_with_cr(rest, c == '\r')));
    }
}

proof fn lemma_crlf_plain(x: Seq<char>, after_cr: bool)
    requires
        forall|j: int| 0 <= j < x.len() ==> !is_line_end(#[trigger] x[j]),
    ensures
        crlf_from(x, after_cr) == x,
    decreases x.len(),
{
    if x.len() > 0 {
        let rest = x.drop_first();
        assert forall|j: int| 0 <= j < rest.len() implies !is_line_end(#[trigger] rest[j]) by {
            assert(rest[j] == x[j + 1]);
        }
        lemma_crlf_plain(rest, x[0] == '\r');
        assert(seq![x[0]] + rest == x);
    }
}

proof fn lemma_flatten_push(g: Seq<Seq<char>>, k: int)
    requires
        0 <= k < g.len(),
    ensures
        flatten(g.take(k + 1)) == flatten(g.take(k)) + g[k],
{
    assert(g.take(k + 1).drop_last() == g.take(k));
}

/// The pieces for the first `k` clusters make up the first `k` clusters
/// with every bare line feed turned into a carriage return and a line feed.
proof fn lemma_pieces_prefix(s: Seq<char>, g: Seq<Seq<char>>, k: int)
    requires
        splits_lines_per_uax29(s, g),
        0 <= k <= g.len(),
    ensures
        flatten(pieces_for(g).take(k)) == with_crlf(flatten(g.take(k))),
        k > 0 ==> flatten(g.take(k)).len() > 0 && flatten(g.take(k)).last() == g[k - 1].last(),
    decreases k,
{
    let p = pieces_for(g);
    if k == 0 {
        assert(p.take(0).len() == 0);
        assert(g.take(0).len() == 0);
        assert(flatten(g.take(0)) == Seq::<char>::empty());
    } else {
        let i = k - 1;
        lemma_pieces_prefix(s, g, i);
        let prefix = flatten(g.take(i));
        let c = g[i];
        lemma_flatten_push(g, i);
        lemma_flatten_push(p, i);
        lemma_crlf_append(prefix, c, false);
        let before_cr = ends_with_cr(prefix, false);
        assert(c.len() > 0);
        if exists|j: int| 0 <= j < c.len() && is_line_end(c[j]) {
            let j = choose|j: int| 0 <= j < c.len() && is_line_end(c[j]);
            assert(is_line_end(g[i][j]));
            if c == seq!['\n'] {
                if i > 0 {
                    let last = g[i - 1];
                    assert(last.len() > 0);
                    if last.last() == '\r' {
                        assert(is_line_end(g[i - 1][last.len() - 1]));
                        assert(g[i - 1] == seq!['\r']);
                        assert(g[i][0] == '\n');
                    }
                }
                assert(!before_cr);
                lemma_crlf_single('\n', before_cr);
            } else if c == seq!['\r'] {
                lemma_crlf_single('\r', before_cr);
            } else {
                assert(c == seq!['\r', '\n']);
                lemma_crlf_pair(before_cr);
            }
        } else {
            lemma_crlf_plain(c, before_cr);
            assert(c != seq!['\n']) by {
                if c == seq!['\n'] {
                    assert(is_line_end(c[0]));
                }
            }
        }
        assert(p[i] == piece_for(c));
        assert(crlf_from(c, before_cr) == piece_for(c));
    }
}

/// The pieces sent for the clusters of `s` make up `s` with every bare line
/// feed turned into a carriage return and a line feed.
pub proof fn law_pieces_add_carriage_returns(s: Seq<char>, g: Seq<Seq<char>>)
    requires
        splits_lines_per_uax29(s, g),
    ensures
        flatten(pieces_for(g)) == with_crlf(s),
{
    lemma_pieces_prefix(s, g, g.len() as int);
    assert(pieces_for(g).take(g.len() as int) == pieces_for(g));
    assert(g.take(g.len() as int) == g);
}

/// Each piece sent for a string is left as it is by a second conversion.
proof fn lemma_piece_converts_to_itself(g: Seq<Seq<char>>, s: Seq<char>, k: int)
    requires
        splits_lines_per_uax29(s, g),
        0 <= k < g.len(),
    ensures
        with_crlf(piece_for(g[k])) == piece_for(g[k]),
{
    let c = g[k];
    if exists|j: int| 0 <= j < c.len() && is_line_end(c[j]) {
        let j = choose|j: int| 0 <= j < c.len() && is_line_end(c[j]);
        assert(is_line_end(g[k][j]));
        if c == seq!['\n'] || c == seq!['\r', '\n'] {
            lemma_crlf_pair(false);
        } else {
            assert(c == seq!['\r']);
            lemma_crlf_single('\r', false);
        }
    } else {
        lemma_crlf_plain(c, false);
        assert(c != seq!['\n']) by {
            if c == seq!['\n'] {
                assert(is_line_end(c[0]));
            }
        }
    }
}

/// A `WriterWithCr` in front of another one writes the same text as a
/// single one: the outer writer hands each carriage return and line feed to
/// the inner one as one cluster, and the inner writer sends every piece it
/// gets unchanged.
pub proof fn law_double_wrapping(s: Seq<char>, g: Seq<Seq<char>>)
    requires
        splits_lines_per_uax29(s, g),
    ensures
        forall|k: int| 0 <= k < g.len() ==> with_crlf(#[trigger] pieces_for(g)[k]) == pieces_for(g)[k],
        flatten(pieces_for(g).map_values(|p: Seq<char>| with_crlf(p))) == with_crlf(s),
{
    assert forall|k: int| 0 <= k < g.len() implies with_crlf(#[trigger] pieces_for(g)[k]) == pieces_for(g)[k] by {
        lemma_piece_converts_to_itself(g, s, k);
    }
    assert(pieces_for(g).map_values(|p: Seq<char>| with_crlf(p)) =~= pieces_for(g));
    law_pieces_add_carriage_returns(s, g);
}

/// Converting line ends a second time changes nothing: the converted text
/// has no bare line feed left.
pub proof fn law_crlf_idempotent(s: Seq<char>, after_cr: bool)
    ensures
        crlf_from(crlf_from(s, after_cr), after_cr) == crlf_from(s, after_cr),
    decreases s.len(),
{
    if s.len() > 0 {
        let c = s[0];
        let rest = s.drop_first();
        let head = if c == '\n' && !after_cr {
            seq!['\r', '\n']
        } else {
            seq![c]
        };
        law_crlf_idempotent(rest, c == '\r');
        lemma_crlf_append(head, crlf_from(rest, c == '\r'), after_cr);
        if c == '\n' && !after_cr {
            lemma_crlf_pair(after_cr);
        } else {
            lemma_crlf_single(c, after_cr);
        }
        assert(crlf_from(s, after_cr) == head + crlf_from(rest, c == '\r'));
    }
}

/// The pieces `WriterWithCr` writes to its inner writer for `s`, in order:
/// each grapheme cluster of `s`, with a lone line feed replaced by a
/// carriage return and a line feed. Together they make up `s` with every
/// bare line feed turned into a carriage return and a line feed.
pub fn cr_lf_pieces<'a>(s: &'a str) -> (pieces: Vec<&'a str>)
    ensures
        views(pieces@) == pieces_for(extended_graphemes(s@)),
        flatten(views(pieces@)) == with_crlf(s@),
{
    let graphemes = split_graphemes(s);
    let ghost g = views(graphemes@);
    let crlf: &'static str = "\r\n";
    proof {
        reveal_strlit("\r\n");
    }
    let mut pieces: Vec<&'a str> = Vec::new();
    let n = graphemes.len();
    let mut k: usize = 0;
    while k < n
        invariant
            n == graphemes@.len(),
            g == views(graphemes@),
            0 <= k <= n,
            crlf@ == seq!['\r', '\n'],
            pieces@.len() == k,
            views(pieces@) == pieces_for(g).take(k as int),
        decreases n - k,
    {
        let c = graphemes[k];
        assert(c@ == g[k as int]);
        let ghost before = pieces@;
        if is_line_feed(c) {
            pieces.push(crlf);
        } else {
            pieces.push(c);
        }
        assert(pieces@ == before.push(pieces@[k as int]));
        assert(views(pieces@) =~= pieces_for(g).take(k + 1)) by {
            assert forall|j: int| 0 <= j < k implies views(pieces@)[j] == views(before)[j] by {
                assert(pieces@[j] == before[j]);
            }
        }
        k = k + 1;
    }
    assert(pieces_for(g).take(n as int) == pieces_for(g));
    proof {
        law_pieces_add_carriage_returns(s@, g);
    }
    pieces
}

/// After the conversion every line feed follows a carriage return (the first
/// character may be a line feed only when the text before it ended with a
/// carriage return), and text without line feeds is left as it is.
pub proof fn law_crlf_no_bare_line_feed(s: Seq<char>, after_cr: bool)
    ensures
        forall|i: int|
            0 <= i < crlf_from(s, after_cr).len() && #[trigger] crlf_from(s, after_cr)[i] == '\n' ==> (i == 0
                && after_cr) || (i > 0 && crlf_from(s, after_cr)[i - 1] == '\r'),
        (forall|j: int| 0 <= j < s.len() ==> #[trigger] s[j] != '\n') ==> crlf_from(s, after_cr) == s,
    decreases s.len(),
{
    let out = crlf_from(s, after_cr);
    if s.len() > 0 {
        let c = s[0];
        let rest = s.drop_first();
        law_crlf_no_bare_line_feed(rest, c == '\r');
        let head = if c == '\n' && !after_cr {
            seq!['\r', '\n']
        } else {
            seq![c]
        };
        let tail = crlf_from(rest, c == '\r');
        assert(out == head + tail);
        assert forall|i: int| 0 <= i < out.len() && #[trigger] out[i] == '\n' implies (i == 0 && after_cr) || (i
            > 0 && out[i - 1] == '\r') by {
            if i >= head.len() {
                let j = i - head.len();
                assert(out[i] == tail[j]);
                if j > 0 {
                    assert(out[i - 1] == tail[j - 1]);
                } else {
                    assert(out[i - 1] == head[head.len() - 1]);
                }
            }
        }
        if forall|j: int| 0 <= j < s.len() ==> #[trigger] s[j] != '\n' {
            assert forall|j: int| 0 <= j < rest.len() implies #[trigger] rest[j] != '\n' by {
                assert(rest[j] == s[j + 1]);
            }
            assert(c != '\n');
            assert(head + tail =~= s);
        }
    } else {
        assert(out.len() == 0);
    }
}

} // verus!
