//! Character-level text operations the tool's parsing rests on.
//!
//! Everything here is specified over `Seq<char>`: splitting on a separator,
//! breaking output into lines, whitespace tokenisation, substring search and
//! single-character replacement. The executable functions are proved to
//! return exactly what the spec functions describe.

use vstd::prelude::*;

verus! {

/// The views of a sequence of strings.
pub open spec fn str_views(v: Seq<String>) -> Seq<Seq<char>> {
    v.map_values(|t: String| t@)
}

/// True for the whitespace characters the tool splits command lines on.
pub open spec fn is_ws(c: char) -> bool {
    c == ' ' || c == '\t' || c == '\n' || c == '\r'
}

/// The pieces of `s` between occurrences of `sep`, in order. A sequence
/// with no separator splits into itself alone, so the result is never empty.
pub open spec fn spec_split(s: Seq<char>, sep: char) -> Seq<Seq<char>>
    decreases s.len(),
{
    if s.len() == 0 {
        seq![Seq::<char>::empty()]
    } else if s[0] == sep {
        seq![Seq::<char>::empty()] + spec_split(s.skip(1), sep)
    } else {
        let rest = spec_split(s.skip(1), sep);
        seq![seq![s[0]] + rest[0]] + rest.skip(1)
    }
}

/// A split has at least one piece.
pub proof fn lemma_split_len(s: Seq<char>, sep: char)
    ensures
        spec_split(s, sep).len() >= 1,
    decreases s.len(),
{
    if s.len() > 0 {
        lemma_split_len(s.skip(1), sep);
    }
}

/// A sequence free of the separator splits into itself alone.
pub proof fn lemma_split_none(s: Seq<char>, sep: char)
    requires
        forall|i: int| 0 <= i < s.len() ==> s[i] != sep,
    ensures
        spec_split(s, sep) == seq![s],
    decreases s.len(),
{
    if s.len() > 0 {
        assert(forall|i: int| 0 <= i < s.skip(1).len() ==> s.skip(1)[i] != sep);
        lemma_split_none(s.skip(1), sep);
        assert(seq![s[0]] + s.skip(1) =~= s);
        assert(spec_split(s, sep) =~= seq![s]);
    } else {
        assert(s =~= Seq::<char>::empty());
        assert(spec_split(s, sep) =~= seq![s]);
    }
}

/// Splitting takes the separator-free prefix up to the first separator as
/// the first piece and continues after that separator.
pub proof fn lemma_split_at(s: Seq<char>, sep: char, j: int)
    requires
        0 <= j < s.len(),
        s[j] == sep,
        forall|i: int| 0 <= i < j ==> s[i] != sep,
    ensures
        spec_split(s, sep) == seq![s.take(j)] + spec_split(s.skip(j + 1), sep),
    decreases j,
{
    if j == 0 {
        assert(s.take(0) =~= Seq::<char>::empty());
    } else {
        let t = s.skip(1);
        assert(forall|i: int| 0 <= i < j - 1 ==> t[i] != sep);
        assert(t[j - 1] == sep);
        lemma_split_at(t, sep, j - 1);
        assert(t.take(j - 1) =~= s.take(j).skip(1));
        assert(t.skip(j) =~= s.skip(j + 1));
        let rest = spec_split(t, sep);
        assert(rest == seq![s.take(j).skip(1)] + spec_split(s.skip(j + 1), sep));
        assert(rest[0] == s.take(j).skip(1));
        assert(seq![s[0]] + rest[0] =~= s.take(j));
        assert(rest.skip(1) =~= spec_split(s.skip(j + 1), sep));
        assert(spec_split(s, sep) =~= seq![s.take(j)] + spec_split(s.skip(j + 1), sep));
    }
}

/// True when the two strings hold the same characters.
pub fn str_eq(a: &str, b: &str) -> (r: bool)
    ensures
        r == (a@ == b@),
{
    let an = a.unicode_len();
    let bn = b.unicode_len();
    if an != bn {
        return false;
    }
    let mut i: usize = 0;
    while i < an
        invariant
            0 <= i <= an,
            an == a@.len(),
            an == b@.len(),
            forall|j: int| 0 <= j < i ==> a@[j] == b@[j],
        decreases an - i,
    {
        if a.get_char(i) != b.get_char(i) {
            return false;
        }
        i += 1;
    }
    proof {
        assert(a@ =~= b@);
    }
    true
}

/// The pieces of `s` between occurrences of `sep`, as fresh strings.
pub fn split_str(s: &str, sep: char) -> (r: Vec<String>)
    ensures
        str_views(r@) == spec_split(s@, sep),
{
    let n = s.unicode_len();
    let mut r: Vec<String> = Vec::new();
    let mut start: usize = 0;
    let mut i: usize = 0;
    proof {
        assert(s@.skip(0) =~= s@);
        assert(str_views(r@) =~= Seq::<Seq<char>>::empty());
        assert(str_views(r@) + spec_split(s@, sep) =~= spec_split(s@, sep));
    }
    while i < n
        invariant
            0 <= start <= i <= n,
            n == s@.len(),
            forall|k: int| start <= k < i ==> s@[k] != sep,
            spec_split(s@, sep) == str_views(r@) + spec_split(s@.skip(start as int), sep),
        decreases n - i,
    {
        if s.get_char(i) == sep {
            let piece = String::from_str(s.substring_char(start, i));
            proof {
                let tail = s@.skip(start as int);
                assert(tail[i - start] == sep);
                assert(forall|k: int| 0 <= k < i - start ==> tail[k] != sep);
                lemma_split_at(tail, sep, i - start);
                assert(tail.take(i - start) =~= s@.subrange(start as int, i as int));
                assert(tail.skip(i - start + 1) =~= s@.skip(i + 1));
            }
            r.push(piece);
            proof {
                assert(str_views(r@) =~= str_views(r@.drop_last()) + seq![s@.subrange(
                    start as int,
                    i as int,
                )]);
                assert(str_views(r@) + spec_split(s@.skip(i + 1), sep) =~= str_views(
                    r@.drop_last(),
                ) + (seq![s@.subrange(start as int, i as int)] + spec_split(s@.skip(i + 1), sep)));
            }
            start = i + 1;
        }
        i += 1;
    }
    let piece = String::from_str(s.substring_char(start, n));
    proof {
        let tail = s@.skip(start as int);
        assert(forall|k: int| 0 <= k < tail.len() ==> tail[k] != sep);
        lemma_split_none(tail, sep);
        assert(tail =~= s@.subrange(start as int, n as int));
    }
    r.push(piece);
    proof {
        assert(str_views(r@) =~= str_views(r@.drop_last()) + seq![s@.subrange(
            start as int,
            n as int,
        )]);
        assert(str_views(r@) =~= spec_split(s@, sep));
    }
    r
}

/// A line with a trailing carriage return loses it.
pub open spec fn strip_cr(l: Seq<char>) -> Seq<char> {
    if l.len() > 0 && l.last() == '\r' {
        l.drop_last()
    } else {
        l
    }
}

/// The lines of `s`: pieces between newlines, a final empty piece dropped,
/// each line's trailing carriage return removed.
pub open spec fn spec_lines(s: Seq<char>) -> Seq<Seq<char>> {
    let parts = spec_split(s, '\n');
    let trimmed = if parts.len() > 0 && parts.last().len() == 0 {
        parts.drop_last()
    } else {
        parts
    };
    trimmed.map_values(|l: Seq<char>| strip_cr(l))
}

/// The lines of `s`, as fresh strings.
pub fn lines_of(s: &str) -> (r: Vec<String>)
    ensures
        str_views(r@) == spec_lines(s@),
{
    let mut parts = split_str(s, '\n');
    proof {
        lemma_split_len(s@, '\n');
    }
    if parts[parts.len() - 1].as_str().unicode_len() == 0 {
        parts.pop();
    }
    let ghost trimmed = str_views(parts@);
    let mut r: Vec<String> = Vec::new();
    let mut i: usize = 0;
    while i < parts.len()
        invariant
            0 <= i <= parts.len(),
            trimmed == str_views(parts@),
            r@.len() == i,
            forall|j: int| 0 <= j < i ==> #[trigger] r@[j]@ == strip_cr(trimmed[j]),
        decreases parts.len() - i,
    {
        let line = &parts[i];
        let ln = line.as_str().unicode_len();
        if ln > 0 && line.as_str().get_char(ln - 1) == '\r' {
            let stripped = String::from_str(line.as_str().substring_char(0, ln - 1));
            proof {
                assert(line@.subrange(0, ln - 1) =~= strip_cr(trimmed[i as int]));
            }
            r.push(stripped);
        } else {
            r.push(line.clone());
        }
        i += 1;
    }
    proof {
        assert(str_views(r@) =~= spec_lines(s@));
    }
    r
}

/// The whitespace-separated tokens of `s`, in order, each a maximal run of
/// non-whitespace characters.
pub open spec fn spec_tokens(s: Seq<char>) -> Seq<Seq<char>>
    decreases s.len(),
{
    if s.len() == 0 {
        Seq::<Seq<char>>::empty()
    } else if is_ws(s[0]) {
        spec_tokens(s.skip(1))
    } else {
        let rest = spec_tokens(s.skip(1));
        if 1 < s.len() && !is_ws(s[1]) {
            seq![seq![s[0]] + rest[0]] + rest.skip(1)
        } else {
            seq![seq![s[0]]] + rest
        }
    }
}

/// Tokenisation takes a maximal non-whitespace run as one token.
pub proof fn lemma_tokens_at(s: Seq<char>, j: int)
    requires
        0 < j <= s.len(),
        forall|i: int| 0 <= i < j ==> !is_ws(s[i]),
        j < s.len() ==> is_ws(s[j]),
    ensures
        spec_tokens(s) == seq![s.take(j)] + spec_tokens(s.skip(j)),
    decreases j,
{
    if j == 1 {
        if 1 < s.len() && !is_ws(s[1]) {
            assert(false);
        }
        assert(s.take(1) =~= seq![s[0]]);
        assert(s.skip(1) =~= s.skip(j));
    } else {
        let t = s.skip(1);
        assert(forall|i: int| 0 <= i < j - 1 ==> !is_ws(t[i]));
        assert(j - 1 < t.len() ==> is_ws(t[j - 1]));
        lemma_tokens_at(t, j - 1);
        assert(t.take(j - 1) =~= s.take(j).skip(1));
        assert(t.skip(j - 1) =~= s.skip(j));
        let rest = spec_tokens(t);
        assert(rest == seq![s.take(j).skip(1)] + spec_tokens(s.skip(j)));
        assert(rest[0] == s.take(j).skip(1));
        assert(seq![s[0]] + rest[0] =~= s.take(j));
        assert(rest.skip(1) =~= spec_tokens(s.skip(j)));
        assert(!is_ws(s[1]));
        assert(spec_tokens(s) =~= seq![s.take(j)] + spec_tokens(s.skip(j)));
    }
}

/// Relies on std's String::push: it appends exactly the one character.
#[verifier::external_body]
pub(crate) fn push_char(s: &mut String, c: char)
    ensures
        final(s)@ == old(s)@.push(c),
{
    s.push(c);
}

/// True when `c` is one of the whitespace characters the tool splits on.
pub fn ws_char(c: char) -> (r: bool)
    ensures
        r == is_ws(c),
{
    c == ' ' || c == '\t' || c == '\n' || c == '\r'
}

/// The whitespace-separated tokens of `s`, as fresh strings.
pub fn tokens_of(s: &str) -> (r: Vec<String>)
    ensures
        str_views(r@) == spec_tokens(s@),
{
    let n = s.unicode_len();
    let mut r: Vec<String> = Vec::new();
    let mut i: usize = 0;
    proof {
        assert(s@.skip(0) =~= s@);
        assert(str_views(r@) =~= Seq::<Seq<char>>::empty());
    }
    while i < n
        invariant
            0 <= i <= n,
            n == s@.len(),
            spec_tokens(s@) == str_views(r@) + spec_tokens(s@.skip(i as int)),
        decreases n - i,
    {
        if ws_char(s.get_char(i)) {
            proof {
                assert(s@.skip(i as int).skip(1) =~= s@.skip(i + 1));
            }
            i += 1;
        } else {
            let start = i;
            let mut j = i + 1;
            while j < n && !ws_char(s.get_char(j))
                invariant
                    start < j <= n,
                    n == s@.len(),
                    forall|k: int| start <= k < j ==> !is_ws(s@[k]),
                decreases n - j,
            {
                j += 1;
            }
            let tok = String::from_str(s.substring_char(start, j));
            proof {
                let tail = s@.skip(start as int);
                assert(forall|k: int| 0 <= k < j - start ==> !is_ws(tail[k]));
                assert(j - start < tail.len() ==> is_ws(tail[j - start]));
                lemma_tokens_at(tail, j - start);
                assert(tail.take(j - start) =~= s@.subrange(start as int, j as int));
                assert(tail.skip(j - start) =~= s@.skip(j as int));
            }
            r.push(tok);
            proof {
                assert(str_views(r@) =~= str_views(r@.drop_last()) + seq![s@.subrange(
                    start as int,
                    j as int,
                )]);
                assert(str_views(r@) + spec_tokens(s@.skip(j as int)) =~= str_views(
                    r@.drop_last(),
                ) + (seq![s@.subrange(start as int, j as int)] + spec_tokens(s@.skip(j as int))));
            }
            i = j;
        }
    }
    proof {
        assert(s@.skip(n as int) =~= Seq::<char>::empty());
        assert(str_views(r@) + Seq::<Seq<char>>::empty() =~= str_views(r@));
    }
    r
}

/// The pieces joined by single spaces, the trace form of a command line.
pub open spec fn spec_join(parts: Seq<Seq<char>>) -> Seq<char>
    decreases parts.len(),
{
    if parts.len() == 0 {
        Seq::<char>::empty()
    } else if parts.len() == 1 {
        parts[0]
    } else {
        parts[0] + seq![' '] + spec_join(parts.skip(1))
    }
}

/// Joining one more piece appends it behind a space.
pub proof fn lemma_spec_join_push(parts: Seq<Seq<char>>, x: Seq<char>)
    requires
        parts.len() >= 1,
    ensures
        spec_join(parts.push(x)) == spec_join(parts) + seq![' '] + x,
    decreases parts.len(),
{
    let p = parts.push(x);
    assert(p[0] == parts[0]);
    if parts.len() == 1 {
        assert(p.skip(1) =~= seq![x]);
        assert(spec_join(seq![x]) == seq![x][0]);
        assert(seq![x][0] == x);
        assert(spec_join(p) =~= spec_join(parts) + seq![' '] + x);
    } else {
        assert(p.skip(1) =~= parts.skip(1).push(x));
        lemma_spec_join_push(parts.skip(1), x);
        assert(spec_join(p) =~= spec_join(parts) + seq![' '] + x);
    }
}

/// The pieces joined by single spaces, as one fresh string.
pub fn join_spaces(parts: &Vec<String>) -> (r: String)
    ensures
        r@ == spec_join(str_views(parts@)),
{
    let ghost pv = str_views(parts@);
    let mut out = String::new();
    if parts.len() == 0 {
        return out;
    }
    out.append(parts[0].as_str());
    proof {
        assert(pv.take(1)[0] == pv[0]);
        assert(spec_join(pv.take(1)) == pv[0]);
        assert(Seq::<char>::empty() + parts@[0]@ =~= pv[0]);
    }
    let mut i: usize = 1;
    while i < parts.len()
        invariant
            1 <= i <= parts@.len(),
            pv == str_views(parts@),
            out@ == spec_join(pv.take(i as int)),
        decreases parts@.len() - i,
    {
        out.append(" ");
        out.append(parts[i].as_str());
        proof {
            reveal_strlit(" ");
            assert(" "@ =~= seq![' ']);
            assert(pv.take(i + 1) =~= pv.take(i as int).push(pv[i as int]));
            lemma_spec_join_push(pv.take(i as int), pv[i as int]);
            assert(out@ =~= spec_join(pv.take(i + 1)));
        }
        i += 1;
    }
    proof {
        assert(pv.take(parts@.len() as int) =~= pv);
    }
    out
}

/// True when `n` occurs at position `i` of `h`.
pub open spec fn contains_at(h: Seq<char>, n: Seq<char>, i: int) -> bool {
    0 <= i && i + n.len() <= h.len() && h.subrange(i, i + n.len()) == n
}

/// True when `n` occurs somewhere in `h`.
pub open spec fn spec_contains(h: Seq<char>, n: Seq<char>) -> bool {
    exists|i: int| contains_at(h, n, i)
}

/// True when the string `n` occurs in the string `h`.
pub fn contains_str(h: &str, n: &str) -> (r: bool)
    ensures
        r == spec_contains(h@, n@),
{
    let hn = h.unicode_len();
    let nn = n.unicode_len();
    if nn > hn {
        return false;
    }
    if nn == 0 {
        proof {
            assert(h@.subrange(0, 0) =~= n@);
            assert(contains_at(h@, n@, 0));
        }
        return true;
    }
    let mut i: usize = 0;
    while i <= hn - nn
        invariant
            0 <= i <= hn - nn + 1,
            1 <= nn <= hn,
            hn == h@.len(),
            nn == n@.len(),
            forall|k: int| 0 <= k < i ==> !contains_at(h@, n@, k),
        decreases hn - i,
    {
        let mut j: usize = 0;
        while j < nn && h.get_char(i + j) == n.get_char(j)
            invariant
                0 <= j <= nn,
                i + nn <= hn,
                hn == h@.len(),
                nn == n@.len(),
                forall|k: int| 0 <= k < j ==> h@[i + k] == n@[k],
            decreases nn - j,
        {
            j += 1;
        }
        if j == nn {
            proof {
                assert(h@.subrange(i as int, i + nn) =~= n@);
                assert(contains_at(h@, n@, i as int));
            }
            return true;
        }
        proof {
            assert(h@.subrange(i as int, i + nn) != n@) by {
                if h@.subrange(i as int, i + nn) == n@ {
                    assert(h@.subrange(i as int, i + nn)[j as int] == n@[j as int]);
                }
            }
        }
        i += 1;
    }
    proof {
        assert(forall|k: int| contains_at(h@, n@, k) ==> 0 <= k <= hn - nn);
    }
    false
}

/// `s` with every occurrence of the character `c` replaced by `repl`.
pub open spec fn spec_replace(s: Seq<char>, c: char, repl: Seq<char>) -> Seq<char>
    decreases s.len(),
{
    if s.len() == 0 {
        Seq::<char>::empty()
    } else if s[0] == c {
        repl + spec_replace(s.skip(1), c, repl)
    } else {
        seq![s[0]] + spec_replace(s.skip(1), c, repl)
    }
}

/// A fresh string with every occurrence of `c` in `s` replaced by `repl`.
pub fn replace_char(s: &str, c: char, repl: &str) -> (r: String)
    ensures
        r@ == spec_replace(s@, c, repl@),
{
    let n = s.unicode_len();
    let mut out = String::new();
    let mut i: usize = 0;
    proof {
        assert(s@.skip(0) =~= s@);
    }
    while i < n
        invariant
            0 <= i <= n,
            n == s@.len(),
            spec_replace(s@, c, repl@) == out@ + spec_replace(s@.skip(i as int), c, repl@),
        decreases n - i,
    {
        proof {
            assert(s@.skip(i as int).skip(1) =~= s@.skip(i + 1));
        }
        if s.get_char(i) == c {
            out.append(repl);
        } else {
            out.append(s.substring_char(i, i + 1));
            proof {
                assert(s@.subrange(i as int, i + 1) =~= seq![s@[i as int]]);
            }
        }
        i += 1;
    }
    proof {
        assert(s@.skip(n as int) =~= Seq::<char>::empty());
        assert(out@ + Seq::<char>::empty() =~= out@);
    }
    out
}

} // verus!
