//! Choosing the configuration command for a topology.
//!
//! Rules are tried in order; the first whose predicates all hold gives the
//! arguments. When none does, the command is asked to configure itself.

use vstd::prelude::*;
use crate::text::{tokens, split_words};
use crate::topology::{MonitorView, Topology};

verus! {

broadcast use vstd::string::group_string_axioms;

/// One condition of a rule: the named output is there, has the given
/// preferred mode and is connected or not as required.
#[derive(Debug, Clone)]
pub struct Predicate {
    pub name: String,
    pub connected: bool,
    pub res: String,
}

/// What a predicate means, its strings taken as text.
pub struct PredicateView {
    pub name: Seq<char>,
    pub connected: bool,
    pub res: Seq<char>,
}

impl View for Predicate {
    type V = PredicateView;

    open spec fn view(&self) -> PredicateView {
        PredicateView { name: self.name@, connected: self.connected, res: self.res@ }
    }
}

/// A rule: the arguments to run with, and the predicates that must all
/// hold. A rule without predicates always applies.
#[derive(Debug, Clone)]
pub struct Setup {
    pub command: String,
    pub predicates: Option<Vec<Predicate>>,
}

/// What a rule means, its strings taken as text.
pub struct SetupView {
    pub command: Seq<char>,
    pub predicates: Option<Seq<PredicateView>>,
}

/// The meaning of each predicate of a list.
pub open spec fn pred_views(v: Seq<Predicate>) -> Seq<PredicateView> {
    v.map_values(|q: Predicate| q@)
}

/// The meaning of an optional predicate list.
pub open spec fn preds_view(p: Option<Vec<Predicate>>) -> Option<Seq<PredicateView>> {
    match p {
        Some(v) => Some(pred_views(v@)),
        None => None,
    }
}

impl View for Setup {
    type V = SetupView;

    open spec fn view(&self) -> SetupView {
        SetupView { command: self.command@, predicates: preds_view(self.predicates) }
    }
}

/// The rules in order, and the time to wait between two looks at the
/// displays, in milliseconds (one second when absent).
#[derive(Debug, Clone)]
pub struct Config {
    pub sleep_time_ms: Option<u64>,
    pub setup: Vec<Setup>,
}

/// The meaning of each rule of a list.
pub open spec fn rules_view(rules: Seq<Setup>) -> Seq<SetupView> {
    rules.map_values(|s: Setup| s@)
}

impl Config {
    /// The wait between two looks at the displays, in milliseconds.
    pub fn sleep_ms(&self) -> (r: u64)
        ensures
            r == match self.sleep_time_ms {
                Some(ms) => ms,
                None => 1000,
            },
    {
        match self.sleep_time_ms {
            Some(ms) => ms,
            None => 1000,
        }
    }
}

/// Whether one predicate holds of the topology `t`.
pub open spec fn holds(p: PredicateView, t: Map<Seq<char>, MonitorView>) -> bool {
    &&& t.contains_key(p.name)
    &&& t[p.name].highest_res == Some(p.res)
    &&& t[p.name].connected == p.connected
}

/// Whether every predicate of the list holds of `t`.
pub open spec fn all_hold_in(s: Seq<PredicateView>, t: Map<Seq<char>, MonitorView>) -> bool {
    forall|i: int| 0 <= i < s.len() ==> holds(#[trigger] s[i], t)
}

/// Whether every predicate of a rule holds; an absent list always does.
pub open spec fn all_hold(ps: Option<Seq<PredicateView>>, t: Map<Seq<char>, MonitorView>) -> bool {
    match ps {
        None => true,
        Some(s) => all_hold_in(s, t),
    }
}

/// The argument asking the command to configure the outputs itself.
pub open spec fn fallback_args() -> Seq<Seq<char>> {
    seq!["--auto"@]
}

/// The arguments of the first rule that applies to `t`, or the fallback.
pub open spec fn select_args(t: Map<Seq<char>, MonitorView>, rules: Seq<SetupView>) -> Seq<
    Seq<char>,
>
    decreases rules.len(),
{
    if rules.len() == 0 {
        fallback_args()
    } else if all_hold(rules[0].predicates, t) {
        tokens(rules[0].command)
    } else {
        select_args(t, rules.drop_first())
    }
}

/// Whether every predicate holds of `displays`.
pub fn predicate_matches(predicates: &Option<Vec<Predicate>>, displays: &Topology) -> (r: bool)
    ensures
        r == all_hold(preds_view(*predicates), displays@),
{
    match predicates {
        None => true,
        Some(preds) => {
            let ghost s = pred_views(preds@);
            let mut i: usize = 0;
            while i < preds.len()
                invariant
                    i <= preds.len(),
                    s == pred_views(preds@),
                    s.len() == preds.len(),
                    preds_view(*predicates) == Some(s),
                    forall|j: int| 0 <= j < i ==> holds(#[trigger] s[j], displays@),
                decreases preds.len() - i,
            {
                let pred = &preds[i];
                assert(s[i as int] == pred@);
                let ok = match displays.get(pred.name.as_str()) {
                    Some(display) => match &display.highest_res {
                        Some(res) => *res == pred.res && display.connected == pred.connected,
                        None => false,
                    },
                    None => false,
                };
                if !ok {
                    assert(!holds(s[i as int], displays@));
                    return false;
                }
                i = i + 1;
            }
            true
        },
    }
}

/// The arguments for the configuration command: those of the first rule
/// whose predicates all hold, or the fallback when no rule applies.
pub fn select_command(displays: &Topology, cfg: &Config) -> (r: Vec<String>)
    ensures
        r.len() == select_args(displays@, rules_view(cfg.setup@)).len(),
        forall|k: int|
            0 <= k < r.len() ==> #[trigger] r[k]@ == select_args(displays@, rules_view(cfg.setup@))[k],
{
    let ghost all = rules_view(cfg.setup@);
    assert(all.subrange(0, all.len() as int) =~= all);
    let mut i: usize = 0;
    while i < cfg.setup.len()
        invariant
            i <= cfg.setup.len(),
            all == rules_view(cfg.setup@),
            select_args(displays@, all) == select_args(displays@, all.subrange(i as int, all.len() as int)),
        decreases cfg.setup.len() - i,
    {
        let ghost rest = all.subrange(i as int, all.len() as int);
        assert(rest[0] == cfg.setup@[i as int]@);
        let setup = &cfg.setup[i];
        if predicate_matches(&setup.predicates, displays) {
            return split_words(setup.command.as_str());
        }
        assert(rest.drop_first() =~= all.subrange(i + 1, all.len() as int));
        i = i + 1;
    }
    let mut r: Vec<String> = Vec::new();
    r.push(String::from_str("--auto"));
    r
}

/// The first rule that applies gives the arguments, whatever the rules
/// after it say.
pub proof fn lemma_first_match_wins(
    t: Map<Seq<char>, MonitorView>,
    rules: Seq<SetupView>,
    i: int,
)
    requires
        0 <= i < rules.len(),
        all_hold(rules[i].predicates, t),
        forall|k: int| 0 <= k < i ==> !all_hold(#[trigger] rules[k].predicates, t),
    ensures
        select_args(t, rules) == tokens(rules[i].command),
    decreases i,
{
    if i > 0 {
        assert(!all_hold(rules[0].predicates, t));
        let rest = rules.drop_first();
        assert forall|k: int| 0 <= k < i - 1 implies !all_hold(#[trigger] rest[k].predicates, t) by {
            assert(rest[k] == rules[k + 1]);
        }
        lemma_first_match_wins(t, rest, i - 1);
    }
}

/// A rule with two predicates applies exactly when both hold.
pub proof fn lemma_both_predicates_needed(
    p: PredicateView,
    q: PredicateView,
    t: Map<Seq<char>, MonitorView>,
)
    ensures
        all_hold(Some(seq![p, q]), t) == (holds(p, t) && holds(q, t)),
{
    let s = seq![p, q];
    if holds(p, t) && holds(q, t) {
        assert forall|i: int| 0 <= i < s.len() implies holds(#[trigger] s[i], t) by {
            if i == 0 {
                assert(s[i] == p);
            } else {
                assert(s[i] == q);
            }
        }
    }
    if all_hold(Some(s), t) {
        assert(holds(s[0], t));
        assert(holds(s[1], t));
    }
}

/// When no rule applies, and in particular when there are no rules, the
/// command is asked to configure the outputs itself.
pub proof fn lemma_fallback_when_nothing_applies(
    t: Map<Seq<char>, MonitorView>,
    rules: Seq<SetupView>,
)
    requires
        forall|k: int| 0 <= k < rules.len() ==> !all_hold(#[trigger] rules[k].predicates, t),
    ensures
        select_args(t, rules) == fallback_args(),
    decreases rules.len(),
{
    if rules.len() > 0 {
        assert(!all_hold(rules[0].predicates, t));
        let rest = rules.drop_first();
        assert forall|k: int| 0 <= k < rest.len() implies !all_hold(#[trigger] rest[k].predicates, t) by {
            assert(rest[k] == rules[k + 1]);
        }
        lemma_fallback_when_nothing_applies(t, rest);
    }
}

} // verus!
