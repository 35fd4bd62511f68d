//! Colour markup in the usage text.
//!
//! A line may switch colour with the labels `(w)`, `(y)` and `(b)`. Each
//! label colours what follows it up to the next opening parenthesis; text
//! between that parenthesis and the next label keeps the colour last
//! switched to, and text before the first label is white. Segmentation
//! computes the coloured pieces; printing them is the caller's business.

use vstd::prelude::*;

use crate::text::str_views;

verus! {

/// A colour the markup can switch to.
#[derive(Clone, Copy, PartialEq, Eq, Structural, Debug)]
pub enum Tint {
    White,
    Yellow,
    Blue,
}

/// One coloured piece of a line.
pub struct Segment {
    pub tint: Tint,
    pub text: String,
}

/// The view of one piece.
pub open spec fn segment_view(s: Segment) -> (Tint, Seq<char>) {
    (s.tint, s.text@)
}

/// The views of a segmentation.
pub open spec fn segments_views(v: Seq<Segment>) -> Seq<(Tint, Seq<char>)> {
    v.map_values(|s: Segment| segment_view(s))
}

/// The colour a label letter names.
pub open spec fn tint_of(c: char) -> Tint {
    if c == 'w' {
        Tint::White
    } else if c == 'y' {
        Tint::Yellow
    } else {
        Tint::Blue
    }
}

/// True when a colour label starts at position `i` of `s`.
pub open spec fn is_marker(s: Seq<char>, i: int) -> bool {
    &&& 0 <= i
    &&& i + 3 <= s.len()
    &&& s[i] == '('
    &&& (s[i + 1] == 'w' || s[i + 1] == 'y' || s[i + 1] == 'b')
    &&& s[i + 2] == ')'
}

/// The position of the first colour label, or the length when there is
/// none.
pub open spec fn first_marker(s: Seq<char>) -> int
    decreases s.len(),
{
    if s.len() == 0 {
        0
    } else if is_marker(s, 0) {
        0
    } else {
        1 + first_marker(s.skip(1))
    }
}

/// Position and minimality of the first colour label.
pub proof fn lemma_first_marker(s: Seq<char>)
    ensures
        0 <= first_marker(s) <= s.len(),
        first_marker(s) < s.len() ==> is_marker(s, first_marker(s)),
        forall|i: int| 0 <= i < first_marker(s) ==> !is_marker(s, i),
    decreases s.len(),
{
    if s.len() > 0 && !is_marker(s, 0) {
        lemma_first_marker(s.skip(1));
        let m = first_marker(s.skip(1));
        if m < s.skip(1).len() {
            assert(is_marker(s.skip(1), m));
            assert(is_marker(s, m + 1));
        }
        assert forall|i: int| 0 <= i < first_marker(s) implies !is_marker(s, i) by {
            if i > 0 {
                assert(!is_marker(s.skip(1), i - 1));
            }
        }
    }
}

/// The first colour label is where one stands with none before it.
pub proof fn lemma_first_marker_is(s: Seq<char>, j: int)
    requires
        0 <= j <= s.len(),
        forall|i: int| 0 <= i < j ==> !is_marker(s, i),
        j == s.len() || is_marker(s, j),
    ensures
        first_marker(s) == j,
    decreases j,
{
    if j == 0 {
        if s.len() > 0 && !is_marker(s, 0) {
            lemma_first_marker(s.skip(1));
        }
    } else {
        assert(!is_marker(s, 0));
        assert forall|i: int| 0 <= i < j - 1 implies !is_marker(s.skip(1), i) by {
            assert(!is_marker(s, i + 1));
        }
        if j < s.len() {
            assert(is_marker(s.skip(1), j - 1));
        }
        lemma_first_marker_is(s.skip(1), j - 1);
    }
}

/// The position of the first opening parenthesis, or the length when there
/// is none.
pub open spec fn first_open(s: Seq<char>) -> int
    decreases s.len(),
{
    if s.len() == 0 {
        0
    } else if s[0] == '(' {
        0
    } else {
        1 + first_open(s.skip(1))
    }
}

/// Position and minimality of the first opening parenthesis.
pub proof fn lemma_first_open(s: Seq<char>)
    ensures
        0 <= first_open(s) <= s.len(),
        first_open(s) < s.len() ==> s[first_open(s)] == '(',
        forall|i: int| 0 <= i < first_open(s) ==> s[i] != '(',
    decreases s.len(),
{
    if s.len() > 0 && s[0] != '(' {
        lemma_first_open(s.skip(1));
        assert forall|i: int| 0 <= i < first_open(s) implies s[i] != '(' by {
            if i > 0 {
                assert(s.skip(1)[i - 1] != '(');
            }
        }
    }
}

/// The first opening parenthesis is where one stands with none before it.
pub proof fn lemma_first_open_is(s: Seq<char>, j: int)
    requires
        0 <= j <= s.len(),
        forall|i: int| 0 <= i < j ==> s[i] != '(',
        j == s.len() || s[j] == '(',
    ensures
        first_open(s) == j,
    decreases j,
{
    if j > 0 {
        assert forall|i: int| 0 <= i < j - 1 implies s.skip(1)[i] != '(' by {
            assert(s[i + 1] != '(');
        }
        lemma_first_open_is(s.skip(1), j - 1);
    }
}

/// The coloured pieces of `s`, read with `cur` as the colour in force:
/// plain text up to the first label keeps `cur`, each label colours what
/// follows it up to the next opening parenthesis, and empty plain pieces
/// are dropped while a label's piece stays even when empty.
pub open spec fn spec_segments(s: Seq<char>, cur: Tint) -> Seq<(Tint, Seq<char>)>
    decreases s.len(),
    via spec_segments_dec
{
    let m = first_marker(s);
    if m >= s.len() {
        if s.len() > 0 {
            seq![(cur, s)]
        } else {
            Seq::<(Tint, Seq<char>)>::empty()
        }
    } else {
        let pre: Seq<(Tint, Seq<char>)> = if m > 0 {
            seq![(cur, s.take(m))]
        } else {
            Seq::<(Tint, Seq<char>)>::empty()
        };
        let col = tint_of(s[m + 1]);
        let j = m + 3 + first_open(s.skip(m + 3));
        pre + seq![(col, s.subrange(m + 3, j))] + spec_segments(s.skip(j), col)
    }
}

#[via_fn]
proof fn spec_segments_dec(s: Seq<char>, cur: Tint) {
    lemma_first_marker(s);
    let m = first_marker(s);
    if m < s.len() {
        lemma_first_open(s.skip(m + 3));
    }
}

/// Split a line of usage text into its coloured pieces, starting white.
pub fn color_segments(text: &str) -> (r: Vec<Segment>)
    ensures
        segments_views(r@) == spec_segments(text@, Tint::White),
{
    let n = text.unicode_len();
    let mut r: Vec<Segment> = Vec::new();
    let mut cur = Tint::White;
    let mut pos: usize = 0;
    proof {
        assert(text@.skip(0) =~= text@);
        assert(segments_views(r@) =~= Seq::<(Tint, Seq<char>)>::empty());
    }
    while pos < n
        invariant
            0 <= pos <= n,
            n == text@.len(),
            spec_segments(text@, Tint::White) == segments_views(r@) + spec_segments(
                text@.skip(pos as int),
                cur,
            ),
        decreases n - pos,
    {
        let ghost t = text@.skip(pos as int);
        let mut m = pos;
        while m < n && n - m > 2 && !(text.get_char(m) == '(' && (text.get_char(m + 1) == 'w'
            || text.get_char(m + 1) == 'y' || text.get_char(m + 1) == 'b') && text.get_char(m + 2)
            == ')')
            invariant
                pos <= m <= n,
                n == text@.len(),
                forall|k: int| pos <= k < m ==> !is_marker(text@, k),
            decreases n - m,
        {
            m += 1;
        }
        proof {
            assert forall|k: int| 0 <= k < m - pos implies !is_marker(t, k) by {
                assert(!is_marker(text@, pos + k));
            }
        }
        if m >= n || n - m <= 2 {
            // no further label: everything left keeps the colour in force
            proof {
                assert forall|k: int| m <= k < n implies !is_marker(text@, k) by {}
                assert forall|k: int| 0 <= k < t.len() implies !is_marker(t, k) by {
                    assert(!is_marker(text@, pos + k));
                }
                lemma_first_marker_is(t, t.len() as int);
            }
            let piece = String::from_str(text.substring_char(pos, n));
            proof {
                assert(text@.subrange(pos as int, n as int) =~= t);
            }
            let ghost prev = r@;
            r.push(Segment { tint: cur, text: piece });
            proof {
                assert(segments_views(r@) =~= segments_views(prev) + seq![(cur, t)]);
                assert(spec_segments(t, cur) == seq![(cur, t)]);
                assert(text@.skip(n as int).len() == 0);
                assert(spec_segments(text@.skip(n as int), cur) =~= Seq::<
                    (Tint, Seq<char>),
                >::empty());
                assert(segments_views(r@) + spec_segments(text@.skip(n as int), cur)
                    =~= segments_views(prev) + spec_segments(t, cur));
            }
            pos = n;
        } else {
            // a label starts at m
            proof {
                assert(is_marker(text@, m as int));
                assert(is_marker(t, m - pos));
                lemma_first_marker_is(t, m - pos);
            }
            let ghost prev0 = r@;
            if m > pos {
                let piece = String::from_str(text.substring_char(pos, m));
                proof {
                    assert(text@.subrange(pos as int, m as int) =~= t.take(m - pos));
                }
                r.push(Segment { tint: cur, text: piece });
            }
            proof {
                if m > pos {
                    assert(segments_views(r@) =~= segments_views(prev0) + seq![
                        (cur, t.take(m - pos)),
                    ]);
                }
            }
            let label = text.get_char(m + 1);
            let col = if label == 'w' {
                Tint::White
            } else if label == 'y' {
                Tint::Yellow
            } else {
                Tint::Blue
            };
            let mut j = m + 3;
            while j < n && text.get_char(j) != '('
                invariant
                    m + 3 <= j <= n,
                    n == text@.len(),
                    forall|k: int| m + 3 <= k < j ==> text@[k] != '(',
                decreases n - j,
            {
                j += 1;
            }
            proof {
                let u = text@.skip(m + 3);
                assert forall|k: int| 0 <= k < j - (m + 3) implies u[k] != '(' by {
                    assert(text@[m + 3 + k] != '(');
                }
                if j < n {
                    assert(u[j - (m + 3)] == '(');
                }
                lemma_first_open_is(u, j - (m + 3));
                assert(t.skip(m - pos + 3) =~= u);
                assert(first_open(t.skip(m - pos + 3)) == j - (m + 3));
            }
            let content = String::from_str(text.substring_char(m + 3, j));
            proof {
                assert(text@.subrange(m + 3, j as int) =~= t.subrange(m - pos + 3, j - pos));
            }
            let ghost prev1 = r@;
            r.push(Segment { tint: col, text: content });
            proof {
                let mm = m - pos;
                let jj = j - pos;
                assert(col == tint_of(t[mm + 1]));
                assert(segments_views(r@) =~= segments_views(prev1) + seq![
                    (col, t.subrange(mm + 3, jj)),
                ]);
                assert(spec_segments(t, cur) == (if mm > 0 {
                    seq![(cur, t.take(mm))]
                } else {
                    Seq::<(Tint, Seq<char>)>::empty()
                }) + seq![(col, t.subrange(mm + 3, jj))] + spec_segments(t.skip(jj), col));
                assert(t.skip(jj) =~= text@.skip(j as int));
                assert(segments_views(r@) + spec_segments(text@.skip(j as int), col)
                    =~= segments_views(prev0) + spec_segments(t, cur));
            }
            cur = col;
            pos = j;
        }
    }
    proof {
        assert(text@.skip(n as int).len() == 0);
        assert(spec_segments(text@.skip(n as int), cur) =~= Seq::<(Tint, Seq<char>)>::empty());
        assert(segments_views(r@) + Seq::<(Tint, Seq<char>)>::empty() =~= segments_views(r@));
    }
    r
}

} // verus!
