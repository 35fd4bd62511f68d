//! The catalog's file format: pretty JSON, encoded and decoded here.
//!
//! The file holds one object with an `ots` array of entries, each an object
//! with `name`, `port` and `command_line` in that order. The encoder writes
//! the canonical pretty form; the decoder is whitespace-insensitive and
//! understands the usual string escapes, so a hand-edited file loads too.
//! Decoding is proved to invert encoding for every catalog.

use vstd::prelude::*;

use crate::config::{catalog_view, ots_view, DkConfig, Ots};
use crate::decimal::{dec_chars, lemma_dec_chars_val};
use crate::json::{enc_string, expect, is_scalar_u32, lemma_expect, lemma_expect_len,
    lemma_parse_enc_string, lemma_parse_enc_u32, lemma_parse_string_len, lemma_parse_u32_len,
    lemma_skip_ws_concat, lemma_skip_ws_len, lemma_skip_ws_noop, parse_string, parse_u32, skip_ws};
use crate::text::is_ws;

verus! {

/// The encoded form of one catalog entry.
pub open spec fn enc_entry(e: (Seq<char>, u32, Seq<char>)) -> Seq<char> {
    "    "@ + "{"@ + "\n      "@ + "\"name\""@ + ":"@ + " "@ + enc_string(e.0) + ","@ + "\n      "@
        + "\"port\""@ + ":"@ + " "@ + dec_chars(e.1 as nat) + ","@ + "\n      "@
        + "\"command_line\""@ + ":"@ + " "@ + enc_string(e.2) + "\n    "@ + "}"@
}

/// The encoded forms of one or more entries, joined by comma and newline.
pub open spec fn enc_entries(es: Seq<(Seq<char>, u32, Seq<char>)>) -> Seq<char>
    recommends
        es.len() >= 1,
    decreases es.len(),
{
    if es.len() <= 1 {
        enc_entry(es[0])
    } else {
        enc_entry(es[0]) + ",\n"@ + enc_entries(es.skip(1))
    }
}

/// The encoded form of a whole catalog, in the canonical pretty layout.
pub open spec fn enc_catalog(es: Seq<(Seq<char>, u32, Seq<char>)>) -> Seq<char> {
    "{"@ + "\n  "@ + "\"ots\""@ + ":"@ + " "@ + "["@ + (if es.len() == 0 {
        "]"@
    } else {
        "\n"@ + enc_entries(es) + "\n  "@ + "]"@
    }) + "\n"@ + "}"@
}

/// The decoded form of one entry and what follows it: the three keys in
/// order, each with its value.
pub open spec fn parse_entry(s: Seq<char>) -> Option<((Seq<char>, u32, Seq<char>), Seq<char>)> {
    match expect(s, "{"@) {
        None => None,
        Some(r1) => match expect(r1, "\"name\""@) {
            None => None,
            Some(r2) => match expect(r2, ":"@) {
                None => None,
                Some(r3) => match parse_string(r3) {
                    None => None,
                    Some((name, r4)) => match expect(r4, ","@) {
                        None => None,
                        Some(r5) => match expect(r5, "\"port\""@) {
                            None => None,
                            Some(r6) => match expect(r6, ":"@) {
                                None => None,
                                Some(r7) => match parse_u32(r7) {
                                    None => None,
                                    Some((port, r8)) => match expect(r8, ","@) {
                                        None => None,
                                        Some(r9) => match expect(r9, "\"command_line\""@) {
                                            None => None,
                                            Some(r10) => match expect(r10, ":"@) {
                                                None => None,
                                                Some(r11) => match parse_string(r11) {
                                                    None => None,
                                                    Some((cmd, r12)) => match expect(r12, "}"@) {
                                                        None => None,
                                                        Some(r13) => Some(
                                                            ((name, port, cmd), r13),
                                                        ),
                                                    },
                                                },
                                            },
                                        },
                                    },
                                },
                            },
                        },
                    },
                },
            },
        },
    }
}

/// A decoded entry leaves strictly less than it was given.
pub proof fn lemma_parse_entry_len(s: Seq<char>)
    ensures
        parse_entry(s) matches Some(r) ==> r.1.len() < s.len(),
{
    reveal_strlit("{");
    if let Some(r1) = expect(s, "{"@) {
        lemma_expect_len(s, "{"@);
        if let Some(r2) = expect(r1, "\"name\""@) {
            lemma_expect_len(r1, "\"name\""@);
            if let Some(r3) = expect(r2, ":"@) {
                lemma_expect_len(r2, ":"@);
                if let Some((name, r4)) = parse_string(r3) {
                    lemma_parse_string_len(r3);
                    if let Some(r5) = expect(r4, ","@) {
                        lemma_expect_len(r4, ","@);
                        if let Some(r6) = expect(r5, "\"port\""@) {
                            lemma_expect_len(r5, "\"port\""@);
                            if let Some(r7) = expect(r6, ":"@) {
                                lemma_expect_len(r6, ":"@);
                                if let Some((port, r8)) = parse_u32(r7) {
                                    lemma_parse_u32_len(r7);
                                    if let Some(r9) = expect(r8, ","@) {
                                        lemma_expect_len(r8, ","@);
                                        if let Some(r10) = expect(r9, "\"command_line\""@) {
                                            lemma_expect_len(r9, "\"command_line\""@);
                                            if let Some(r11) = expect(r10, ":"@) {
                                                lemma_expect_len(r10, ":"@);
                                                if let Some((cmd, r12)) = parse_string(r11) {
                                                    lemma_parse_string_len(r11);
                                                    if let Some(r13) = expect(r12, "}"@) {
                                                        lemma_expect_len(r12, "}"@);
                                                    }
                                                }
                                            }
                                        }
                                    }
                                }
                            }
                        }
                    }
                }
            }
        }
    }
}

/// The decoded entries of an array body, up to and including the closing
/// bracket, and what follows it. The fuel bounds the recursion; any fuel
/// at least the length of the text gives the same answer.
pub open spec fn parse_entries(s: Seq<char>, fuel: nat) -> Option<
    (Seq<(Seq<char>, u32, Seq<char>)>, Seq<char>),
>
    decreases fuel,
{
    let t = skip_ws(s);
    if t.len() > 0 && t[0] == ']' {
        Some((Seq::<(Seq<char>, u32, Seq<char>)>::empty(), t.skip(1)))
    } else {
        match parse_entry(s) {
            None => None,
            Some((e, r1)) => {
                let t1 = skip_ws(r1);
                if t1.len() > 0 && t1[0] == ',' {
                    if fuel == 0 {
                        None
                    } else {
                        match parse_entries(t1.skip(1), (fuel - 1) as nat) {
                            None => None,
                            Some((es, r2)) => Some((seq![e] + es, r2)),
                        }
                    }
                } else if t1.len() > 0 && t1[0] == ']' {
                    Some((seq![e], t1.skip(1)))
                } else {
                    None
                }
            },
        }
    }
}

/// The decoded form of a whole catalog file: the single `ots` key, its
/// array, and nothing but whitespace after the closing brace.
pub open spec fn parse_catalog(s: Seq<char>) -> Option<Seq<(Seq<char>, u32, Seq<char>)>> {
    match expect(s, "{"@) {
        None => None,
        Some(r1) => match expect(r1, "\"ots\""@) {
            None => None,
            Some(r2) => match expect(r2, ":"@) {
                None => None,
                Some(r3) => match expect(r3, "["@) {
                    None => None,
                    Some(r4) => match parse_entries(r4, r4.len()) {
                        None => None,
                        Some((es, r5)) => match expect(r5, "}"@) {
                            None => None,
                            Some(r6) => if skip_ws(r6).len() == 0 {
                                Some(es)
                            } else {
                                None
                            },
                        },
                    },
                },
            },
        },
    }
}

/// The whitespace facts about the layout chunks the entry encoder uses.
proof fn lemma_chunks()
    ensures
        "    "@.len() == 4 && "\n      "@.len() == 7 && "\n    "@.len() == 5 && "\n  "@.len() == 3
            && "\n"@.len() == 1 && " "@.len() == 1,
        forall|i: int| 0 <= i < "    "@.len() ==> is_ws(#[trigger] "    "@[i]),
        forall|i: int| 0 <= i < "\n      "@.len() ==> is_ws(#[trigger] "\n      "@[i]),
        forall|i: int| 0 <= i < "\n    "@.len() ==> is_ws(#[trigger] "\n    "@[i]),
        forall|i: int| 0 <= i < "\n  "@.len() ==> is_ws(#[trigger] "\n  "@[i]),
        forall|i: int| 0 <= i < "\n"@.len() ==> is_ws(#[trigger] "\n"@[i]),
        forall|i: int| 0 <= i < " "@.len() ==> is_ws(#[trigger] " "@[i]),
        "{"@.len() == 1 && "{"@[0] == '{' && !is_ws("{"@[0]),
        "}"@.len() == 1 && "}"@[0] == '}' && !is_ws("}"@[0]),
        "["@.len() == 1 && "["@[0] == '[' && !is_ws("["@[0]),
        "]"@.len() == 1 && "]"@[0] == ']' && !is_ws("]"@[0]),
        ":"@.len() == 1 && ":"@[0] == ':' && !is_ws(":"@[0]),
        ","@.len() == 1 && ","@[0] == ',' && !is_ws(","@[0]),
        ",\n"@.len() == 2 && ",\n"@[0] == ',' && ",\n"@[1] == '\n' && "\n"@[0] == '\n',
        "\"name\""@.len() == 6 && "\"name\""@[0] == '"' && !is_ws("\"name\""@[0]),
        "\"port\""@.len() == 6 && "\"port\""@[0] == '"' && !is_ws("\"port\""@[0]),
        "\"command_line\""@.len() == 14 && "\"command_line\""@[0] == '"' && !is_ws(
            "\"command_line\""@[0],
        ),
        "\"ots\""@.len() == 5 && "\"ots\""@[0] == '"' && !is_ws("\"ots\""@[0]),
{
    reveal_strlit("    ");
    reveal_strlit("\n      ");
    reveal_strlit("\n    ");
    reveal_strlit("\n  ");
    reveal_strlit("\n");
    reveal_strlit(" ");
    reveal_strlit("{");
    reveal_strlit("}");
    reveal_strlit("[");
    reveal_strlit("]");
    reveal_strlit(":");
    reveal_strlit(",");
    reveal_strlit(",\n");
    reveal_strlit("\"name\"");
    reveal_strlit("\"port\"");
    reveal_strlit("\"command_line\"");
    reveal_strlit("\"ots\"");
}

/// Decoding inverts encoding for one entry, under any leading whitespace.
#[verifier::rlimit(100)]
pub proof fn lemma_parse_enc_entry(e: (Seq<char>, u32, Seq<char>), p: Seq<char>, rest: Seq<char>)
    requires
        forall|i: int| 0 <= i < p.len() ==> is_ws(p[i]),
    ensures
        parse_entry(p + enc_entry(e) + rest) == Some((e, rest)),
{
    lemma_chunks();
    let s = p + enc_entry(e) + rest;
    let r13 = rest;
    let r12 = "\n    "@ + ("}"@ + r13);
    let r11 = " "@ + enc_string(e.2) + r12;
    let r10 = ":"@ + r11;
    let r9 = "\n      "@ + ("\"command_line\""@ + r10);
    let r8 = ","@ + r9;
    let r7 = " "@ + dec_chars(e.1 as nat) + r8;
    let r6 = ":"@ + r7;
    let r5 = "\n      "@ + ("\"port\""@ + r6);
    let r4 = ","@ + r5;
    let r3 = " "@ + enc_string(e.0) + r4;
    let r2 = ":"@ + r3;
    let r1 = "\n      "@ + ("\"name\""@ + r2);
    assert(s =~= (p + "    "@) + ("{"@ + r1));
    assert(forall|i: int| 0 <= i < (p + "    "@).len() ==> is_ws((p + "    "@)[i]));
    lemma_expect(p + "    "@, "{"@, r1);
    assert(expect(s, "{"@) == Some(r1));
    lemma_expect("\n      "@, "\"name\""@, r2);
    assert(expect(r1, "\"name\""@) == Some(r2));
    assert(r2 =~= Seq::<char>::empty() + (":"@ + r3));
    lemma_expect(Seq::<char>::empty(), ":"@, r3);
    assert(expect(r2, ":"@) == Some(r3));
    lemma_parse_enc_string(e.0, " "@, r4);
    assert(r3 =~= " "@ + enc_string(e.0) + r4);
    assert(parse_string(r3) == Some((e.0, r4)));
    assert(r4 =~= Seq::<char>::empty() + (","@ + r5));
    lemma_expect(Seq::<char>::empty(), ","@, r5);
    assert(expect(r4, ","@) == Some(r5));
    lemma_expect("\n      "@, "\"port\""@, r6);
    assert(expect(r5, "\"port\""@) == Some(r6));
    assert(r6 =~= Seq::<char>::empty() + (":"@ + r7));
    lemma_expect(Seq::<char>::empty(), ":"@, r7);
    assert(expect(r6, ":"@) == Some(r7));
    lemma_dec_chars_val(e.1 as nat);
    assert(r8.len() > 0 && r8[0] == ',');
    assert(!crate::decimal::is_digit(r8[0]));
    assert(!is_ws(dec_chars(e.1 as nat)[0]));
    lemma_parse_enc_u32(e.1, " "@, r8);
    assert(r7 =~= " "@ + dec_chars(e.1 as nat) + r8);
    assert(parse_u32(r7) == Some((e.1, r8)));
    assert(r8 =~= Seq::<char>::empty() + (","@ + r9));
    lemma_expect(Seq::<char>::empty(), ","@, r9);
    assert(expect(r8, ","@) == Some(r9));
    lemma_expect("\n      "@, "\"command_line\""@, r10);
    assert(expect(r9, "\"command_line\""@) == Some(r10));
    assert(r10 =~= Seq::<char>::empty() + (":"@ + r11));
    lemma_expect(Seq::<char>::empty(), ":"@, r11);
    assert(expect(r10, ":"@) == Some(r11));
    lemma_parse_enc_string(e.2, " "@, r12);
    assert(r11 =~= " "@ + enc_string(e.2) + r12);
    assert(parse_string(r11) == Some((e.2, r12)));
    lemma_expect("\n    "@, "}"@, r13);
    assert(expect(r12, "}"@) == Some(r13));
    assert(e == (e.0, e.1, e.2));
}

/// Decoding inverts encoding for a nonempty run of entries followed by the
/// closing bracket, given enough fuel.
#[verifier::rlimit(100)]
pub proof fn lemma_parse_enc_entries(
    es: Seq<(Seq<char>, u32, Seq<char>)>,
    p: Seq<char>,
    tail: Seq<char>,
    fuel: nat,
)
    requires
        es.len() >= 1,
        forall|i: int| 0 <= i < p.len() ==> is_ws(p[i]),
        fuel >= es.len(),
    ensures
        parse_entries(p + enc_entries(es) + ("\n  "@ + ("]"@ + tail)), fuel) == Some((es, tail)),
    decreases es.len(),
{
    lemma_chunks();
    let close = "\n  "@ + ("]"@ + tail);
    let s = p + enc_entries(es) + close;
    let inner: Seq<char> = if es.len() == 1 {
        close
    } else {
        ",\n"@ + (enc_entries(es.skip(1)) + close)
    };
    assert(s =~= p + enc_entry(es[0]) + inner);
    lemma_parse_enc_entry(es[0], p, inner);
    assert(parse_entry(s) == Some((es[0], inner)));
    // the array head is not a closing bracket, so the entry branch is taken
    assert(expect(s, "{"@) is Some);
    let t = skip_ws(s);
    assert("{"@.is_prefix_of(t));
    assert(t.subrange(0, 1)[0] == t[0]);
    assert(t.len() > 0 && t[0] == '{');
    assert(!(t.len() > 0 && t[0] == ']'));
    if es.len() == 1 {
        let t1 = skip_ws(inner);
        assert(inner =~= "\n  "@ + ("]"@ + tail));
        lemma_skip_ws_concat("\n  "@, "]"@ + tail);
        assert(("]"@ + tail)[0] == ']');
        lemma_skip_ws_noop("]"@ + tail);
        assert(t1 == "]"@ + tail);
        assert(t1[0] == ']');
        assert(t1[0] != ',');
        assert(t1.skip(1) =~= tail);
        assert(seq![es[0]] =~= es);
    } else {
        let t1 = skip_ws(inner);
        assert(inner[0] == ',');
        lemma_skip_ws_noop(inner);
        assert(t1 == inner);
        assert(t1[0] == ',');
        assert(fuel >= 2);
        let next = t1.skip(1);
        let con = enc_entries(es.skip(1)) + close;
        assert(inner =~= ",\n"@ + con);
        assert(next.len() == 1 + con.len());
        assert(next[0] == inner[1]);
        assert(next[0] == '\n');
        assert forall|k: int| 0 <= k < next.len() implies next[k] == ("\n"@ + con)[k] by {
            if k >= 1 {
                assert(next[k] == inner[k + 1]);
                assert(inner[k + 1] == con[k - 1]);
                assert(("\n"@ + con)[k] == con[k - 1]);
            }
        }
        assert(next =~= "\n"@ + con);
        assert(next =~= "\n"@ + enc_entries(es.skip(1)) + close);
        lemma_parse_enc_entries(es.skip(1), "\n"@, tail, (fuel - 1) as nat);
        assert(parse_entries(next, (fuel - 1) as nat) == Some((es.skip(1), tail)));
        assert(seq![es[0]] + es.skip(1) =~= es);
    }
}

/// Every encoded entry is at least one character long.
pub proof fn lemma_enc_entries_len(es: Seq<(Seq<char>, u32, Seq<char>)>)
    requires
        es.len() >= 1,
    ensures
        enc_entries(es).len() >= es.len(),
    decreases es.len(),
{
    lemma_chunks();
    if es.len() > 1 {
        lemma_enc_entries_len(es.skip(1));
    }
}

/// Decoding inverts encoding: every catalog written in the canonical form
/// reads back exactly, entry for entry and field for field.
pub proof fn lemma_catalog_round_trip(es: Seq<(Seq<char>, u32, Seq<char>)>)
    ensures
        parse_catalog(enc_catalog(es)) == Some(es),
{
    lemma_chunks();
    let s = enc_catalog(es);
    let mid: Seq<char> = if es.len() == 0 {
        "]"@
    } else {
        "\n"@ + enc_entries(es) + "\n  "@ + "]"@
    };
    let tail0 = "\n"@ + ("}"@ + Seq::<char>::empty());
    let c4 = mid + tail0;
    let c3 = " "@ + ("["@ + c4);
    let c2 = ":"@ + c3;
    let c1 = "\n  "@ + ("\"ots\""@ + c2);
    assert(s =~= Seq::<char>::empty() + ("{"@ + c1));
    lemma_expect(Seq::<char>::empty(), "{"@, c1);
    assert(expect(s, "{"@) == Some(c1));
    lemma_expect("\n  "@, "\"ots\""@, c2);
    assert(expect(c1, "\"ots\""@) == Some(c2));
    assert(c2 =~= Seq::<char>::empty() + (":"@ + c3));
    lemma_expect(Seq::<char>::empty(), ":"@, c3);
    assert(expect(c2, ":"@) == Some(c3));
    assert(c3 =~= " "@ + ("["@ + c4));
    lemma_expect(" "@, "["@, c4);
    assert(expect(c3, "["@) == Some(c4));
    if es.len() == 0 {
        assert(c4 =~= "]"@ + tail0);
        assert(c4[0] == ']');
        lemma_skip_ws_noop(c4);
        assert(skip_ws(c4) == c4);
        assert(c4.skip(1) =~= tail0);
        assert(parse_entries(c4, c4.len()) == Some(
            (Seq::<(Seq<char>, u32, Seq<char>)>::empty(), tail0),
        ));
        assert(es =~= Seq::<(Seq<char>, u32, Seq<char>)>::empty());
    } else {
        assert(c4 =~= "\n"@ + enc_entries(es) + ("\n  "@ + ("]"@ + tail0)));
        lemma_enc_entries_len(es);
        assert(c4.len() >= es.len());
        lemma_parse_enc_entries(es, "\n"@, tail0, c4.len());
        assert(parse_entries(c4, c4.len()) == Some((es, tail0)));
    }
    assert(tail0 =~= "\n"@ + ("}"@ + Seq::<char>::empty()));
    lemma_expect("\n"@, "}"@, Seq::<char>::empty());
    assert(expect(tail0, "}"@) == Some(Seq::<char>::empty()));
    assert(skip_ws(Seq::<char>::empty()).len() == 0);
}

/// Encoding one more entry appends it behind a separator.
pub proof fn lemma_enc_entries_push(
    es: Seq<(Seq<char>, u32, Seq<char>)>,
    x: (Seq<char>, u32, Seq<char>),
)
    requires
        es.len() >= 1,
    ensures
        enc_entries(es.push(x)) == enc_entries(es) + ",\n"@ + enc_entry(x),
    decreases es.len(),
{
    let p = es.push(x);
    assert(p[0] == es[0]);
    if es.len() == 1 {
        assert(p.skip(1) =~= seq![x]);
        assert(enc_entries(seq![x]) == enc_entry(seq![x][0]));
        assert(seq![x][0] == x);
        assert(enc_entries(p) =~= enc_entries(es) + ",\n"@ + enc_entry(x));
    } else {
        assert(p.skip(1) =~= es.skip(1).push(x));
        lemma_enc_entries_push(es.skip(1), x);
        assert(enc_entries(p) =~= enc_entries(es) + ",\n"@ + enc_entry(x));
    }
}

/// Append the encoded form of one entry to `out`.
fn append_entry(out: &mut String, o: &crate::config::Ots)
    ensures
        final(out)@ == old(out)@ + enc_entry(crate::config::ots_view(*o)),
{
    out.append("    ");
    out.append("{");
    out.append("\n      ");
    out.append("\"name\"");
    out.append(":");
    out.append(" ");
    crate::json::append_json_string(out, o.name.as_str());
    out.append(",");
    out.append("\n      ");
    out.append("\"port\"");
    out.append(":");
    out.append(" ");
    let d = crate::decimal::u64_to_dec(o.port as u64);
    out.append(d.as_str());
    out.append(",");
    out.append("\n      ");
    out.append("\"command_line\"");
    out.append(":");
    out.append(" ");
    crate::json::append_json_string(out, o.command_line.as_str());
    out.append("\n    ");
    out.append("}");
    proof {
        assert((o.port as u64) as nat == o.port as nat);
        assert(out@ =~= old(out)@ + enc_entry(crate::config::ots_view(*o)));
    }
}

/// Encode a catalog in the canonical pretty layout.
pub fn encode_catalog(c: &DkConfig) -> (r: String)
    ensures
        r@ == enc_catalog(catalog_view(*c)),
{
    let ghost cat = catalog_view(*c);
    let mut out = String::new();
    out.append("{");
    out.append("\n  ");
    out.append("\"ots\"");
    out.append(":");
    out.append(" ");
    out.append("[");
    let ghost head = "{"@ + "\n  "@ + "\"ots\""@ + ":"@ + " "@ + "["@;
    proof {
        assert(out@ =~= head);
    }
    if c.ots.len() == 0 {
        out.append("]");
        proof {
            assert(cat.len() == 0);
            assert(out@ =~= head + "]"@);
        }
    } else {
        out.append("\n");
        append_entry(&mut out, &c.ots[0]);
        proof {
            assert(cat.take(1)[0] == cat[0]);
            assert(cat[0] == crate::config::ots_view(c.ots@[0]));
            assert(enc_entries(cat.take(1)) == enc_entry(cat[0]));
            assert(out@ =~= head + "\n"@ + enc_entries(cat.take(1)));
        }
        let mut i: usize = 1;
        while i < c.ots.len()
            invariant
                1 <= i <= c.ots@.len(),
                cat == catalog_view(*c),
                cat.len() == c.ots@.len(),
                head == "{"@ + "\n  "@ + "\"ots\""@ + ":"@ + " "@ + "["@,
                out@ == head + "\n"@ + enc_entries(cat.take(i as int)),
            decreases c.ots@.len() - i,
        {
            out.append(",\n");
            append_entry(&mut out, &c.ots[i]);
            proof {
                assert(cat[i as int] == crate::config::ots_view(c.ots@[i as int]));
                assert(cat.take(i + 1) =~= cat.take(i as int).push(cat[i as int]));
                lemma_enc_entries_push(cat.take(i as int), cat[i as int]);
                assert(out@ =~= head + "\n"@ + enc_entries(cat.take(i + 1)));
            }
            i += 1;
        }
        proof {
            assert(cat.take(cat.len() as int) =~= cat);
        }
        out.append("\n  ");
        out.append("]");
    }
    out.append("\n");
    out.append("}");
    proof {
        assert(out@ =~= enc_catalog(cat));
    }
    out
}

/// The entry at `i` and the position after its closing brace, or nothing
/// when no well-formed entry follows.
fn parse_entry_at(s: &str, i: usize) -> (r: Option<(Ots, usize)>)
    requires
        i <= s@.len(),
    ensures
        match r {
            Some(v) => v.1 <= s@.len() && parse_entry(s@.skip(i as int)) == Some(
                (ots_view(v.0), s@.skip(v.1 as int)),
            ),
            None => parse_entry(s@.skip(i as int)) is None,
        },
{
    let r1 = match crate::json::expect_at(s, i, "{") {
        Some(j) => j,
        None => {
            return None;
        },
    };
    let r2 = match crate::json::expect_at(s, r1, "\"name\"") {
        Some(j) => j,
        None => {
            return None;
        },
    };
    let r3 = match crate::json::expect_at(s, r2, ":") {
        Some(j) => j,
        None => {
            return None;
        },
    };
    let (name, r4) = match crate::json::parse_string_at(s, r3) {
        Some(v) => v,
        None => {
            return None;
        },
    };
    let r5 = match crate::json::expect_at(s, r4, ",") {
        Some(j) => j,
        None => {
            return None;
        },
    };
    let r6 = match crate::json::expect_at(s, r5, "\"port\"") {
        Some(j) => j,
        None => {
            return None;
        },
    };
    let r7 = match crate::json::expect_at(s, r6, ":") {
        Some(j) => j,
        None => {
            return None;
        },
    };
    let (port, r8) = match crate::json::parse_u32_at(s, r7) {
        Some(v) => v,
        None => {
            return None;
        },
    };
    let r9 = match crate::json::expect_at(s, r8, ",") {
        Some(j) => j,
        None => {
            return None;
        },
    };
    let r10 = match crate::json::expect_at(s, r9, "\"command_line\"") {
        Some(j) => j,
        None => {
            return None;
        },
    };
    let r11 = match crate::json::expect_at(s, r10, ":") {
        Some(j) => j,
        None => {
            return None;
        },
    };
    let (cmd, r12) = match crate::json::parse_string_at(s, r11) {
        Some(v) => v,
        None => {
            return None;
        },
    };
    let r13 = match crate::json::expect_at(s, r12, "}") {
        Some(j) => j,
        None => {
            return None;
        },
    };
    let o = Ots { name, port, command_line: cmd };
    Some((o, r13))
}

/// True when nothing but the closing brace and whitespace stands at `pos`.
fn finish_tail(s: &str, pos: usize) -> (r: bool)
    requires
        pos <= s@.len(),
    ensures
        r == (match expect(s@.skip(pos as int), "}"@) {
            Some(r6) => skip_ws(r6).len() == 0,
            None => false,
        }),
{
    match crate::json::expect_at(s, pos, "}") {
        None => false,
        Some(p) => {
            let q = crate::json::scan_ws(s, p);
            q == s.unicode_len()
        },
    }
}

/// Decode a catalog file. A file in the canonical layout — or any
/// whitespace variation of it — comes back entry for entry; anything else
/// comes back as nothing.
pub fn decode_catalog(s: &str) -> (r: Option<DkConfig>)
    ensures
        match r {
            Some(c) => parse_catalog(s@) == Some(catalog_view(c)),
            None => parse_catalog(s@) is None,
        },
{
    let n = s.unicode_len();
    proof {
        assert(s@.skip(0) =~= s@);
    }
    let r1 = match crate::json::expect_at(s, 0, "{") {
        Some(j) => j,
        None => {
            return None;
        },
    };
    let r2 = match crate::json::expect_at(s, r1, "\"ots\"") {
        Some(j) => j,
        None => {
            return None;
        },
    };
    let r3 = match crate::json::expect_at(s, r2, ":") {
        Some(j) => j,
        None => {
            return None;
        },
    };
    let r4 = match crate::json::expect_at(s, r3, "[") {
        Some(j) => j,
        None => {
            return None;
        },
    };
    let ghost fuel0 = (s@.len() - r4) as nat;
    let mut entries: Vec<Ots> = Vec::new();
    let mut pos = r4;
    let ghost mut gfuel = fuel0;
    proof {
        assert(entries@.map_values(|o: Ots| ots_view(o)) =~= Seq::<
            (Seq<char>, u32, Seq<char>),
        >::empty());
    }
    proof {
        assert(parse_catalog(s@) == (match parse_entries(s@.skip(r4 as int), fuel0) {
            Some((es, r5)) => match expect(r5, "}"@) {
                Some(r6) => if skip_ws(r6).len() == 0 {
                    Some(es)
                } else {
                    None
                },
                None => None,
            },
            None => None,
        }));
    }
    loop
        invariant
            r4 <= pos <= n,
            n == s@.len(),
            gfuel >= n - pos,
            gfuel <= fuel0,
            fuel0 == n - r4,
            parse_catalog(s@) == (match parse_entries(s@.skip(r4 as int), fuel0) {
                Some((es, r5)) => match expect(r5, "}"@) {
                    Some(r6) => if skip_ws(r6).len() == 0 {
                        Some(es)
                    } else {
                        None
                    },
                    None => None,
                },
                None => None,
            }),
            parse_entries(s@.skip(r4 as int), fuel0) == (match parse_entries(
                s@.skip(pos as int),
                gfuel,
            ) {
                Some((es, rest)) => Some((entries@.map_values(|o: Ots| ots_view(o)) + es, rest)),
                None => None,
            }),
        decreases n - pos,
    {
        let ghost evs = entries@.map_values(|o: Ots| ots_view(o));
        let j = crate::json::scan_ws(s, pos);
        if j < n && s.get_char(j) == ']' {
            proof {
                let t = skip_ws(s@.skip(pos as int));
                assert(t[0] == s@[j as int]);
                assert(t.skip(1) =~= s@.skip(j + 1));
                assert(parse_entries(s@.skip(pos as int), gfuel) == Some(
                    (Seq::<(Seq<char>, u32, Seq<char>)>::empty(), s@.skip(j + 1)),
                ));
                assert(evs + Seq::<(Seq<char>, u32, Seq<char>)>::empty() =~= evs);
            }
            if finish_tail(s, j + 1) {
                let c = DkConfig { ots: entries };
                proof {
                    assert(catalog_view(c) =~= c.ots@.map_values(|o: Ots| ots_view(o)));
                }
                return Some(c);
            } else {
                return None;
            }
        }
        proof {
            let t = skip_ws(s@.skip(pos as int));
            if t.len() > 0 {
                assert(t[0] == s@[j as int]);
            }
            assert(!(t.len() > 0 && t[0] == ']'));
        }
        match parse_entry_at(s, pos) {
            None => {
                return None;
            },
            Some((o, p1)) => {
                proof {
                    lemma_parse_entry_len(s@.skip(pos as int));
                }
                let j1 = crate::json::scan_ws(s, p1);
                let ghost t1 = skip_ws(s@.skip(p1 as int));
                proof {
                    lemma_skip_ws_len(s@.skip(p1 as int));
                }
                if j1 < n && s.get_char(j1) == ',' {
                    proof {
                        assert(t1[0] == s@[j1 as int]);
                        assert(t1.skip(1) =~= s@.skip(j1 + 1));
                        assert(gfuel > 0);
                        let inner = parse_entries(s@.skip(j1 + 1), (gfuel - 1) as nat);
                        match inner {
                            Some((es, rest)) => {
                                assert(evs + (seq![ots_view(o)] + es) =~= (evs + seq![
                                    ots_view(o),
                                ]) + es);
                            },
                            None => {},
                        }
                    }
                    entries.push(o);
                    proof {
                        assert(entries@.map_values(|oo: Ots| ots_view(oo)) =~= evs + seq![
                            ots_view(o),
                        ]);
                        gfuel = (gfuel - 1) as nat;
                    }
                    pos = j1 + 1;
                } else if j1 < n && s.get_char(j1) == ']' {
                    proof {
                        assert(t1[0] == s@[j1 as int]);
                        assert(t1[0] != ',');
                        assert(t1.skip(1) =~= s@.skip(j1 + 1));
                        assert(parse_entries(s@.skip(pos as int), gfuel) == Some(
                            (seq![ots_view(o)], s@.skip(j1 + 1)),
                        ));
                    }
                    entries.push(o);
                    proof {
                        assert(entries@.map_values(|oo: Ots| ots_view(oo)) =~= evs + seq![
                            ots_view(o),
                        ]);
                        assert(evs + seq![ots_view(o)] =~= entries@.map_values(
                            |oo: Ots| ots_view(oo),
                        ));
                    }
                    if finish_tail(s, j1 + 1) {
                        let c = DkConfig { ots: entries };
                        proof {
                            assert(catalog_view(c) =~= c.ots@.map_values(|oo: Ots| ots_view(oo)));
                        }
                        return Some(c);
                    } else {
                        return None;
                    }
                } else {
                    proof {
                        if t1.len() > 0 {
                            assert(t1[0] == s@[j1 as int]);
                        }
                        assert(!(t1.len() > 0 && t1[0] == ','));
                        assert(!(t1.len() > 0 && t1[0] == ']'));
                    }
                    return None;
                }
            },
        }
    }
}

} // verus!
