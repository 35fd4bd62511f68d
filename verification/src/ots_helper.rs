//! Services: bringing catalog entries up and down.
//!
//! For each requested name, every catalog entry carrying that name yields
//! one engine invocation — the whitespace-split launch command line for
//! `up`, a forced removal of the `ots_`-prefixed container for `down`. A
//! name absent from the catalog yields a not-found report instead, and the
//! batch continues with the remaining names.

use vstd::prelude::*;

use crate::config::{catalog_view, ots_view, DkConfig};
use crate::text::{spec_tokens, str_eq, str_views, tokens_of};

verus! {

/// One step of a service plan: run an engine command, or report a name as
/// not found.
pub enum OtsAction {
    Run(Vec<String>),
    NotFound(String),
}

/// The view of one step.
pub enum ActionView {
    Run(Seq<Seq<char>>),
    NotFound(Seq<char>),
}

/// The view of an executable plan step.
pub open spec fn action_view(a: OtsAction) -> ActionView {
    match a {
        OtsAction::Run(c) => ActionView::Run(str_views(c@)),
        OtsAction::NotFound(n) => ActionView::NotFound(n@),
    }
}

/// The views of a whole plan.
pub open spec fn actions_views(v: Seq<OtsAction>) -> Seq<ActionView> {
    v.map_values(|a: OtsAction| action_view(a))
}

/// The launch runs one name causes: one per catalog entry carrying the
/// name, in catalog order, each the whitespace-split command line.
pub open spec fn up_runs(cat: Seq<(Seq<char>, u32, Seq<char>)>, name: Seq<char>) -> Seq<ActionView>
    decreases cat.len(),
{
    if cat.len() == 0 {
        Seq::<ActionView>::empty()
    } else {
        let rest = up_runs(cat.skip(1), name);
        if cat[0].0 == name {
            seq![ActionView::Run(spec_tokens(cat[0].2))] + rest
        } else {
            rest
        }
    }
}

/// What one name contributes to an `up` plan: its launches, or a
/// not-found report when the catalog has no such entry.
pub open spec fn up_actions_for(cat: Seq<(Seq<char>, u32, Seq<char>)>, name: Seq<char>) -> Seq<
    ActionView,
> {
    if up_runs(cat, name).len() == 0 {
        seq![ActionView::NotFound(name)]
    } else {
        up_runs(cat, name)
    }
}

/// The whole `up` plan: each requested name's contribution, in order.
pub open spec fn up_plan(cat: Seq<(Seq<char>, u32, Seq<char>)>, names: Seq<Seq<char>>) -> Seq<
    ActionView,
>
    decreases names.len(),
{
    if names.len() == 0 {
        Seq::<ActionView>::empty()
    } else {
        up_actions_for(cat, names[0]) + up_plan(cat, names.skip(1))
    }
}

/// The removal runs one name causes: one forced removal of the
/// `ots_`-prefixed container per catalog entry carrying the name.
pub open spec fn down_runs(cat: Seq<(Seq<char>, u32, Seq<char>)>, name: Seq<char>) -> Seq<
    ActionView,
>
    decreases cat.len(),
{
    if cat.len() == 0 {
        Seq::<ActionView>::empty()
    } else {
        let rest = down_runs(cat.skip(1), name);
        if cat[0].0 == name {
            seq![ActionView::Run(seq!["docker"@, "rm"@, "-f"@, "ots_"@ + cat[0].0])] + rest
        } else {
            rest
        }
    }
}

/// What one name contributes to a `down` plan.
pub open spec fn down_actions_for(cat: Seq<(Seq<char>, u32, Seq<char>)>, name: Seq<char>) -> Seq<
    ActionView,
> {
    if down_runs(cat, name).len() == 0 {
        seq![ActionView::NotFound(name)]
    } else {
        down_runs(cat, name)
    }
}

/// The whole `down` plan: each requested name's contribution, in order.
pub open spec fn down_plan(cat: Seq<(Seq<char>, u32, Seq<char>)>, names: Seq<Seq<char>>) -> Seq<
    ActionView,
>
    decreases names.len(),
{
    if names.len() == 0 {
        Seq::<ActionView>::empty()
    } else {
        down_actions_for(cat, names[0]) + down_plan(cat, names.skip(1))
    }
}

/// One more catalog entry appends at most one launch.
pub proof fn lemma_up_runs_push(
    cat: Seq<(Seq<char>, u32, Seq<char>)>,
    x: (Seq<char>, u32, Seq<char>),
    name: Seq<char>,
)
    ensures
        up_runs(cat.push(x), name) == up_runs(cat, name) + (if x.0 == name {
            seq![ActionView::Run(spec_tokens(x.2))]
        } else {
            Seq::<ActionView>::empty()
        }),
    decreases cat.len(),
{
    let tail = (if x.0 == name {
        seq![ActionView::Run(spec_tokens(x.2))]
    } else {
        Seq::<ActionView>::empty()
    });
    if cat.len() == 0 {
        assert(cat.push(x)[0] == x);
        assert(cat.push(x).skip(1) =~= Seq::<(Seq<char>, u32, Seq<char>)>::empty());
        assert(up_runs(Seq::<(Seq<char>, u32, Seq<char>)>::empty(), name) =~= Seq::<
            ActionView,
        >::empty());
        assert(up_runs(cat.push(x), name) =~~= up_runs(cat, name) + tail);
    } else {
        assert(cat.push(x)[0] == cat[0]);
        assert(cat.push(x).skip(1) =~= cat.skip(1).push(x));
        lemma_up_runs_push(cat.skip(1), x, name);
        assert(up_runs(cat.push(x), name) =~~= up_runs(cat, name) + tail);
    }
}

/// One more catalog entry appends at most one removal.
pub proof fn lemma_down_runs_push(
    cat: Seq<(Seq<char>, u32, Seq<char>)>,
    x: (Seq<char>, u32, Seq<char>),
    name: Seq<char>,
)
    ensures
        down_runs(cat.push(x), name) == down_runs(cat, name) + (if x.0 == name {
            seq![ActionView::Run(seq!["docker"@, "rm"@, "-f"@, "ots_"@ + x.0])]
        } else {
            Seq::<ActionView>::empty()
        }),
    decreases cat.len(),
{
    let tail = (if x.0 == name {
        seq![ActionView::Run(seq!["docker"@, "rm"@, "-f"@, "ots_"@ + x.0])]
    } else {
        Seq::<ActionView>::empty()
    });
    if cat.len() == 0 {
        assert(cat.push(x)[0] == x);
        assert(cat.push(x).skip(1) =~= Seq::<(Seq<char>, u32, Seq<char>)>::empty());
        assert(down_runs(Seq::<(Seq<char>, u32, Seq<char>)>::empty(), name) =~= Seq::<
            ActionView,
        >::empty());
        assert(down_runs(cat.push(x), name) =~~= down_runs(cat, name) + tail);
    } else {
        assert(cat.push(x)[0] == cat[0]);
        assert(cat.push(x).skip(1) =~= cat.skip(1).push(x));
        lemma_down_runs_push(cat.skip(1), x, name);
        assert(down_runs(cat.push(x), name) =~~= down_runs(cat, name) + tail);
    }
}

/// One more name appends its contribution to the `up` plan.
pub proof fn lemma_up_plan_push(
    cat: Seq<(Seq<char>, u32, Seq<char>)>,
    names: Seq<Seq<char>>,
    x: Seq<char>,
)
    ensures
        up_plan(cat, names.push(x)) == up_plan(cat, names) + up_actions_for(cat, x),
    decreases names.len(),
{
    if names.len() == 0 {
        assert(names.push(x)[0] == x);
        assert(names.push(x).skip(1) =~= Seq::<Seq<char>>::empty());
        assert(up_plan(cat, Seq::<Seq<char>>::empty()) =~= Seq::<ActionView>::empty());
        assert(up_plan(cat, names.push(x)) =~~= up_plan(cat, names) + up_actions_for(cat, x));
    } else {
        assert(names.push(x)[0] == names[0]);
        assert(names.push(x).skip(1) =~= names.skip(1).push(x));
        lemma_up_plan_push(cat, names.skip(1), x);
        assert(up_plan(cat, names.push(x)) =~~= up_plan(cat, names) + up_actions_for(cat, x));
    }
}

/// One more name appends its contribution to the `down` plan.
pub proof fn lemma_down_plan_push(
    cat: Seq<(Seq<char>, u32, Seq<char>)>,
    names: Seq<Seq<char>>,
    x: Seq<char>,
)
    ensures
        down_plan(cat, names.push(x)) == down_plan(cat, names) + down_actions_for(cat, x),
    decreases names.len(),
{
    if names.len() == 0 {
        assert(names.push(x)[0] == x);
        assert(names.push(x).skip(1) =~= Seq::<Seq<char>>::empty());
        assert(down_plan(cat, Seq::<Seq<char>>::empty()) =~= Seq::<ActionView>::empty());
        assert(down_plan(cat, names.push(x)) =~~= down_plan(cat, names) + down_actions_for(cat, x));
    } else {
        assert(names.push(x)[0] == names[0]);
        assert(names.push(x).skip(1) =~= names.skip(1).push(x));
        lemma_down_plan_push(cat, names.skip(1), x);
        assert(down_plan(cat, names.push(x)) =~~= down_plan(cat, names) + down_actions_for(cat, x));
    }
}

/// Build the `up` plan for the requested names against a loaded catalog.
pub fn up_actions(config: &DkConfig, names: &Vec<String>) -> (r: Vec<OtsAction>)
    ensures
        actions_views(r@) == up_plan(catalog_view(*config), str_views(names@)),
{
    let ghost cat = catalog_view(*config);
    let ghost nm = str_views(names@);
    let mut r: Vec<OtsAction> = Vec::new();
    let mut i: usize = 0;
    proof {
        assert(nm.take(0) =~= Seq::<Seq<char>>::empty());
        assert(actions_views(r@) =~= up_plan(cat, nm.take(0)));
    }
    while i < names.len()
        invariant
            0 <= i <= names@.len(),
            cat == catalog_view(*config),
            nm == str_views(names@),
            actions_views(r@) == up_plan(cat, nm.take(i as int)),
        decreases names@.len() - i,
    {
        let mut found = false;
        let mut j: usize = 0;
        proof {
            assert(cat.take(0) =~= Seq::<(Seq<char>, u32, Seq<char>)>::empty());
            assert(up_runs(cat.take(0), nm[i as int]) =~= Seq::<ActionView>::empty());
            assert(actions_views(r@) + Seq::<ActionView>::empty() =~= actions_views(r@));
        }
        while j < config.ots.len()
            invariant
                0 <= j <= config.ots@.len(),
                0 <= i < names@.len(),
                cat == catalog_view(*config),
                nm == str_views(names@),
                found <==> up_runs(cat.take(j as int), nm[i as int]).len() > 0,
                actions_views(r@) == up_plan(cat, nm.take(i as int)) + up_runs(
                    cat.take(j as int),
                    nm[i as int],
                ),
            decreases config.ots@.len() - j,
        {
            proof {
                assert(cat[j as int] == ots_view(config.ots@[j as int]));
                assert(cat.take(j + 1) =~= cat.take(j as int).push(cat[j as int]));
                lemma_up_runs_push(cat.take(j as int), cat[j as int], nm[i as int]);
            }
            let o = &config.ots[j];
            if str_eq(o.name.as_str(), names[i].as_str()) {
                let toks = tokens_of(o.command_line.as_str());
                let ghost prev = r@;
                r.push(OtsAction::Run(toks));
                proof {
                    assert(r@.last() == OtsAction::Run(toks));
                    assert(action_view(r@.last()) == ActionView::Run(spec_tokens(
                        cat[j as int].2,
                    )));
                    assert(actions_views(r@) =~= actions_views(prev) + seq![
                        action_view(r@.last()),
                    ]);
                    assert(actions_views(r@) =~= up_plan(cat, nm.take(i as int)) + up_runs(
                        cat.take(j + 1),
                        nm[i as int],
                    ));
                }
                found = true;
            } else {
                proof {
                    assert(up_runs(cat.take(j + 1), nm[i as int]) =~= up_runs(
                        cat.take(j as int),
                        nm[i as int],
                    ));
                }
            }
            j += 1;
        }
        proof {
            assert(cat.take(config.ots@.len() as int) =~= cat);
        }
        if !found {
            let ghost prev = r@;
            r.push(OtsAction::NotFound(names[i].clone()));
            proof {
                assert(r@.last() == OtsAction::NotFound(names@[i as int]));
                assert(actions_views(r@) =~= actions_views(prev) + seq![action_view(r@.last())]);
                assert(up_actions_for(cat, nm[i as int]) =~= seq![
                    ActionView::NotFound(nm[i as int]),
                ]);
            }
        }
        proof {
            assert(nm.take(i + 1) =~= nm.take(i as int).push(nm[i as int]));
            lemma_up_plan_push(cat, nm.take(i as int), nm[i as int]);
            assert(actions_views(r@) =~= up_plan(cat, nm.take(i + 1)));
        }
        i += 1;
    }
    proof {
        assert(nm.take(names@.len() as int) =~= nm);
    }
    r
}

/// Build the `down` plan for the requested names against a loaded catalog.
pub fn down_actions(config: &DkConfig, names: &Vec<String>) -> (r: Vec<OtsAction>)
    ensures
        actions_views(r@) == down_plan(catalog_view(*config), str_views(names@)),
{
    let ghost cat = catalog_view(*config);
    let ghost nm = str_views(names@);
    let mut r: Vec<OtsAction> = Vec::new();
    let mut i: usize = 0;
    proof {
        assert(nm.take(0) =~= Seq::<Seq<char>>::empty());
        assert(actions_views(r@) =~= down_plan(cat, nm.take(0)));
    }
    while i < names.len()
        invariant
            0 <= i <= names@.len(),
            cat == catalog_view(*config),
            nm == str_views(names@),
            actions_views(r@) == down_plan(cat, nm.take(i as int)),
        decreases names@.len() - i,
    {
        let mut found = false;
        let mut j: usize = 0;
        proof {
            assert(cat.take(0) =~= Seq::<(Seq<char>, u32, Seq<char>)>::empty());
            assert(down_runs(cat.take(0), nm[i as int]) =~= Seq::<ActionView>::empty());
            assert(actions_views(r@) + Seq::<ActionView>::empty() =~= actions_views(r@));
        }
        while j < config.ots.len()
            invariant
                0 <= j <= config.ots@.len(),
                0 <= i < names@.len(),
                cat == catalog_view(*config),
                nm == str_views(names@),
                found <==> down_runs(cat.take(j as int), nm[i as int]).len() > 0,
                actions_views(r@) == down_plan(cat, nm.take(i as int)) + down_runs(
                    cat.take(j as int),
                    nm[i as int],
                ),
            decreases config.ots@.len() - j,
        {
            proof {
                assert(cat[j as int] == ots_view(config.ots@[j as int]));
                assert(cat.take(j + 1) =~= cat.take(j as int).push(cat[j as int]));
                lemma_down_runs_push(cat.take(j as int), cat[j as int], nm[i as int]);
            }
            let o = &config.ots[j];
            if str_eq(o.name.as_str(), names[i].as_str()) {
                let mut cmd: Vec<String> = Vec::new();
                cmd.push(String::from_str("docker"));
                cmd.push(String::from_str("rm"));
                cmd.push(String::from_str("-f"));
                cmd.push(String::from_str("ots_").concat(o.name.as_str()));
                proof {
                    assert(str_views(cmd@) =~= seq![
                        "docker"@,
                        "rm"@,
                        "-f"@,
                        "ots_"@ + cat[j as int].0,
                    ]);
                }
                let ghost prev = r@;
                r.push(OtsAction::Run(cmd));
                proof {
                    assert(action_view(r@.last()) == ActionView::Run(
                        seq!["docker"@, "rm"@, "-f"@, "ots_"@ + cat[j as int].0],
                    ));
                    assert(actions_views(r@) =~= actions_views(prev) + seq![
                        action_view(r@.last()),
                    ]);
                    assert(actions_views(r@) =~= down_plan(cat, nm.take(i as int)) + down_runs(
                        cat.take(j + 1),
                        nm[i as int],
                    ));
                }
                found = true;
            } else {
                proof {
                    assert(down_runs(cat.take(j + 1), nm[i as int]) =~= down_runs(
                        cat.take(j as int),
                        nm[i as int],
                    ));
                }
            }
            j += 1;
        }
        proof {
            assert(cat.take(config.ots@.len() as int) =~= cat);
        }
        if !found {
            let ghost prev = r@;
            r.push(OtsAction::NotFound(names[i].clone()));
            proof {
                assert(r@.last() == OtsAction::NotFound(names@[i as int]));
                assert(actions_views(r@) =~= actions_views(prev) + seq![action_view(r@.last())]);
                assert(down_actions_for(cat, nm[i as int]) =~= seq![
                    ActionView::NotFound(nm[i as int]),
                ]);
            }
        }
        proof {
            assert(nm.take(i + 1) =~= nm.take(i as int).push(nm[i as int]));
            lemma_down_plan_push(cat, nm.take(i as int), nm[i as int]);
            assert(actions_views(r@) =~= down_plan(cat, nm.take(i + 1)));
        }
        i += 1;
    }
    proof {
        assert(nm.take(names@.len() as int) =~= nm);
    }
    r
}

} // verus!
