//! Listing tables parsed from the engine's delimited output.
//!
//! The engine prints one row per line with fields separated by `|`. A line
//! that splits into fewer fields than expected is skipped; every kept row is
//! given a 1-based display rank, stored as its first column so the printed
//! table and rank resolution agree on the numbering.

use vstd::prelude::*;

use crate::decimal::dec_chars;
use crate::decimal::u64_to_dec;
use crate::text::{lines_of, spec_lines, spec_split, split_str, str_views};

verus! {

/// The views of a table of strings.
pub open spec fn table_views(v: Seq<Vec<String>>) -> Seq<Seq<Seq<char>>> {
    v.map_values(|row: Vec<String>| str_views(row@))
}

/// The rows among `lines` that split on `|` into at least `k` fields, each
/// truncated to its first `k` fields.
pub open spec fn spec_table(lines: Seq<Seq<char>>, k: nat) -> Seq<Seq<Seq<char>>>
    decreases lines.len(),
{
    if lines.len() == 0 {
        Seq::<Seq<Seq<char>>>::empty()
    } else {
        let parts = spec_split(lines[0], '|');
        let rest = spec_table(lines.skip(1), k);
        if parts.len() >= k {
            seq![parts.take(k as int)] + rest
        } else {
            rest
        }
    }
}

/// Each row prefixed with its display rank, counting from `start`.
pub open spec fn number_rows(rows: Seq<Seq<Seq<char>>>, start: nat) -> Seq<Seq<Seq<char>>>
    decreases rows.len(),
{
    if rows.len() == 0 {
        Seq::<Seq<Seq<char>>>::empty()
    } else {
        seq![seq![dec_chars(start)] + rows[0]] + number_rows(rows.skip(1), start + 1)
    }
}

/// The listing a raw engine output denotes: its qualifying rows, each
/// holding the display rank and then the first `k` fields.
pub open spec fn spec_listing(s: Seq<char>, k: nat) -> Seq<Seq<Seq<char>>> {
    number_rows(spec_table(spec_lines(s), k), 1)
}

/// Numbering keeps the number of rows.
pub proof fn lemma_number_rows_len(rows: Seq<Seq<Seq<char>>>, start: nat)
    ensures
        number_rows(rows, start).len() == rows.len(),
    decreases rows.len(),
{
    if rows.len() > 0 {
        lemma_number_rows_len(rows.skip(1), start + 1);
    }
}

/// Filtering one more line appends at most one row to the table.
pub proof fn lemma_table_push(lines: Seq<Seq<char>>, x: Seq<char>, k: nat)
    ensures
        spec_table(lines.push(x), k) == spec_table(lines, k) + (if spec_split(x, '|').len() >= k {
            seq![spec_split(x, '|').take(k as int)]
        } else {
            Seq::<Seq<Seq<char>>>::empty()
        }),
    decreases lines.len(),
{
    let tail = (if spec_split(x, '|').len() >= k {
        seq![spec_split(x, '|').take(k as int)]
    } else {
        Seq::<Seq<Seq<char>>>::empty()
    });
    if lines.len() == 0 {
        assert(lines.push(x)[0] == x);
        assert(lines.push(x).skip(1) =~= Seq::<Seq<char>>::empty());
        assert(spec_table(Seq::<Seq<char>>::empty(), k) =~~= Seq::<Seq<Seq<char>>>::empty());
        assert(spec_table(lines.push(x), k) =~~= spec_table(lines, k) + tail);
    } else {
        assert(lines.push(x)[0] == lines[0]);
        assert(lines.push(x).skip(1) =~= lines.skip(1).push(x));
        lemma_table_push(lines.skip(1), x, k);
        assert(spec_table(lines.push(x), k) =~~= spec_table(lines, k) + tail);
    }
}

/// Numbering one more row appends it under the next rank.
pub proof fn lemma_number_rows_push(rows: Seq<Seq<Seq<char>>>, p: Seq<Seq<char>>, start: nat)
    ensures
        number_rows(rows.push(p), start) == number_rows(rows, start) + seq![
            seq![dec_chars(start + rows.len())] + p,
        ],
    decreases rows.len(),
{
    if rows.len() == 0 {
        assert(rows.push(p)[0] == p);
        assert(rows.push(p).skip(1) =~= Seq::<Seq<Seq<char>>>::empty());
        assert(number_rows(Seq::<Seq<Seq<char>>>::empty(), start + 1) =~~= Seq::<
            Seq<Seq<char>>,
        >::empty());
        assert(number_rows(rows.push(p), start) =~~= number_rows(rows, start) + seq![
            seq![dec_chars(start + rows.len())] + p,
        ]);
    } else {
        assert(rows.push(p)[0] == rows[0]);
        assert(rows.push(p).skip(1) =~= rows.skip(1).push(p));
        lemma_number_rows_push(rows.skip(1), p, start + 1);
        assert(number_rows(rows.push(p), start) =~~= number_rows(rows, start) + seq![
            seq![dec_chars(start + rows.len())] + p,
        ]);
    }
}

/// Parse raw engine output into the listing of rows with at least `k`
/// fields, each row holding its display rank and the first `k` fields.
pub fn parse_listing(output: &str, k: usize) -> (r: Vec<Vec<String>>)
    ensures
        table_views(r@) == spec_listing(output@, k as nat),
        forall|i: int| 0 <= i < r@.len() ==> #[trigger] r@[i]@.len() == k + 1,
{
    let lines = lines_of(output);
    let ghost lv = spec_lines(output@);
    let mut r: Vec<Vec<String>> = Vec::new();
    let mut i: usize = 0;
    proof {
        assert(lv.take(0) =~= Seq::<Seq<char>>::empty());
        assert(table_views(r@) =~= number_rows(spec_table(lv.take(0), k as nat), 1));
    }
    while i < lines.len()
        invariant
            0 <= i <= lines.len(),
            lv == str_views(lines@),
            lv == spec_lines(output@),
            r@.len() <= i,
            table_views(r@) == number_rows(spec_table(lv.take(i as int), k as nat), 1),
            r@.len() == spec_table(lv.take(i as int), k as nat).len(),
            forall|j: int| 0 <= j < r@.len() ==> #[trigger] r@[j]@.len() == k + 1,
        decreases lines.len() - i,
    {
        let parts = split_str(lines[i].as_str(), '|');
        proof {
            assert(lines@[i as int]@ == lv[i as int]);
            assert(lv.take(i + 1) =~= lv.take(i as int).push(lv[i as int]));
            lemma_table_push(lv.take(i as int), lv[i as int], k as nat);
        }
        if parts.len() >= k {
            let mut row: Vec<String> = Vec::new();
            row.push(u64_to_dec((r.len() + 1) as u64));
            let mut j: usize = 0;
            while j < k
                invariant
                    0 <= j <= k,
                    k < parts@.len() + 1,
                    0 <= i < lv.len(),
                    str_views(parts@) == spec_split(lv[i as int], '|'),
                    row@.len() == j + 1,
                    row@[0]@ == dec_chars((r@.len() + 1) as nat),
                    forall|m: int| 1 <= m <= j ==> #[trigger] row@[m]@ == str_views(parts@)[m - 1],
                decreases k - j,
            {
                row.push(parts[j].clone());
                j += 1;
            }
            proof {
                let p = spec_split(lv[i as int], '|').take(k as int);
                assert(str_views(row@) =~= seq![dec_chars((r@.len() + 1) as nat)] + p);
                lemma_number_rows_push(spec_table(lv.take(i as int), k as nat), p, 1);
                assert(spec_table(lv.take(i as int), k as nat).push(p) =~~= spec_table(
                    lv.take(i as int),
                    k as nat,
                ) + seq![p]);
            }
            r.push(row);
            proof {
                assert(table_views(r@) =~= table_views(r@.drop_last()) + seq![str_views(
                    r@.last()@,
                )]);
                assert(table_views(r@) =~= number_rows(
                    spec_table(lv.take(i + 1), k as nat),
                    1,
                ));
            }
        }
        i += 1;
    }
    proof {
        assert(lv.take(lines@.len() as int) =~= lv);
    }
    r
}

/// One column of a table of views.
pub open spec fn column_views(t: Seq<Seq<Seq<char>>>, col: int) -> Seq<Seq<char>> {
    t.map_values(|row: Seq<Seq<char>>| row[col])
}

/// The `col`-th field of every row, as fresh strings.
pub fn column_of(rows: &Vec<Vec<String>>, col: usize) -> (r: Vec<String>)
    requires
        forall|i: int| 0 <= i < rows@.len() ==> col < #[trigger] rows@[i]@.len(),
    ensures
        str_views(r@) == column_views(table_views(rows@), col as int),
        r@.len() == rows@.len(),
{
    let mut r: Vec<String> = Vec::new();
    let mut i: usize = 0;
    while i < rows.len()
        invariant
            0 <= i <= rows@.len(),
            r@.len() == i,
            forall|k: int| 0 <= k < rows@.len() ==> col < #[trigger] rows@[k]@.len(),
            forall|j: int| 0 <= j < i ==> #[trigger] r@[j]@ == rows@[j]@[col as int]@,
        decreases rows@.len() - i,
    {
        r.push(rows[i][col].clone());
        i += 1;
    }
    proof {
        assert(str_views(r@) =~= column_views(table_views(rows@), col as int));
    }
    r
}

/// The listing a raw volume-name output denotes: every line is one row,
/// holding the display rank and the whole line.
pub open spec fn spec_volume_listing(s: Seq<char>) -> Seq<Seq<Seq<char>>> {
    number_rows(spec_lines(s).map_values(|l: Seq<char>| seq![l]), 1)
}

/// Parse raw volume-name output: one row per line, the whole line kept as
/// the single field after the display rank.
pub fn parse_volume_listing(output: &str) -> (r: Vec<Vec<String>>)
    ensures
        table_views(r@) == spec_volume_listing(output@),
        forall|i: int| 0 <= i < r@.len() ==> #[trigger] r@[i]@.len() == 2,
{
    let lines = lines_of(output);
    let ghost lv = spec_lines(output@);
    let ghost singles = lv.map_values(|l: Seq<char>| seq![l]);
    let mut r: Vec<Vec<String>> = Vec::new();
    let mut i: usize = 0;
    proof {
        assert(singles.take(0) =~= Seq::<Seq<Seq<char>>>::empty());
        assert(table_views(r@) =~= number_rows(singles.take(0), 1));
    }
    while i < lines.len()
        invariant
            0 <= i <= lines.len(),
            lv == str_views(lines@),
            singles == lv.map_values(|l: Seq<char>| seq![l]),
            r@.len() == i,
            table_views(r@) == number_rows(singles.take(i as int), 1),
            forall|j: int| 0 <= j < r@.len() ==> #[trigger] r@[j]@.len() == 2,
        decreases lines.len() - i,
    {
        let mut row: Vec<String> = Vec::new();
        row.push(u64_to_dec((i + 1) as u64));
        row.push(lines[i].clone());
        proof {
            assert(str_views(row@) =~= seq![dec_chars((i + 1) as nat)] + singles[i as int]);
            lemma_number_rows_push(singles.take(i as int), singles[i as int], 1);
            assert(singles.take(i as int).push(singles[i as int]) =~~= singles.take(i + 1));
        }
        r.push(row);
        proof {
            assert(table_views(r@) =~= table_views(r@.drop_last()) + seq![str_views(r@.last()@)]);
            assert(table_views(r@) =~= number_rows(singles.take(i + 1), 1));
        }
        i += 1;
    }
    proof {
        assert(singles.take(lines@.len() as int) =~= singles);
    }
    r
}

} // verus!
