//! Deciding, at each look at the displays, whether anything has to be done.
//!
//! The watcher keeps the topology it last acted on. A report that describes
//! the same topology calls for nothing (and for one notice per steady run);
//! one that differs calls for the configuration command that the rules
//! select. After running it the caller looks again and settles the watcher
//! on what it then sees.

use vstd::prelude::*;
use crate::parse::{ParseError, parse_report, parse_spec};
use crate::rules::{Config, SetupView, rules_view, select_args, select_command};
use crate::topology::{MonitorView, Topology};

verus! {

/// The watcher's state: the topology last acted on, whether the steady
/// notice was given, and how reports are read.
pub struct WatcherView {
    pub prev: Map<Seq<char>, MonitorView>,
    pub logged: bool,
    pub carry_over: bool,
}

/// What an action means.
pub enum ActionView {
    Steady { announce: bool },
    Apply { seen: Map<Seq<char>, MonitorView>, args: Seq<Seq<char>> },
}

/// What the caller has to do after a look at the displays.
#[derive(Debug)]
pub enum Action {
    /// Nothing changed. `announce` is set on the first look of a steady run
    /// only, so that a notice is given once per run.
    Steady { announce: bool },
    /// The topology changed to `seen`: run the configuration command with
    /// `args`.
    Apply { seen: Topology, args: Vec<String> },
}

/// The text of each string of a list.
pub open spec fn strings_view(v: Seq<String>) -> Seq<Seq<char>> {
    v.map_values(|s: String| s@)
}

impl View for Action {
    type V = ActionView;

    open spec fn view(&self) -> ActionView {
        match self {
            Action::Steady { announce } => ActionView::Steady { announce: *announce },
            Action::Apply { seen, args } => ActionView::Apply {
                seen: seen@,
                args: strings_view(args@),
            },
        }
    }
}

/// The state kept from one look at the displays to the next.
#[derive(Debug)]
pub struct Watcher {
    prev: Topology,
    logged: bool,
    carry_over: bool,
}

impl View for Watcher {
    type V = WatcherView;

    closed spec fn view(&self) -> WatcherView {
        WatcherView { prev: self.prev@, logged: self.logged, carry_over: self.carry_over }
    }
}

/// One look at the displays: the next state and what to do, or the reason
/// the report could not be read.
pub open spec fn tick(w: WatcherView, report: Seq<char>, rules: Seq<SetupView>) -> Result<
    (WatcherView, ActionView),
    ParseError,
> {
    match parse_spec(report, w.carry_over) {
        Err(e) => Err(e),
        Ok(t) => if t == w.prev {
            Ok((WatcherView { logged: true, ..w }, ActionView::Steady { announce: !w.logged }))
        } else {
            Ok(
                (
                    WatcherView { logged: false, ..w },
                    ActionView::Apply { seen: t, args: select_args(t, rules) },
                ),
            )
        },
    }
}

/// The state after settling on what a report describes.
pub open spec fn settle_on(w: WatcherView, report: Seq<char>) -> Result<WatcherView, ParseError> {
    match parse_spec(report, w.carry_over) {
        Err(e) => Err(e),
        Ok(t) => Ok(WatcherView { prev: t, ..w }),
    }
}

impl Watcher {
    /// A watcher that has seen no output yet. `carry_over` chooses how
    /// reports are read (see `parse_report`).
    pub fn new(carry_over: bool) -> (r: Watcher)
        ensures
            r@ == (WatcherView {
                prev: Map::<Seq<char>, MonitorView>::empty(),
                logged: false,
                carry_over,
            }),
    {
        Watcher { prev: Topology::new(), logged: false, carry_over }
    }

    /// Takes one report of the displays and says what to do about it.
    pub fn observe(&mut self, report: &str, cfg: &Config) -> (r: Result<Action, ParseError>)
        ensures
            match tick(old(self)@, report@, rules_view(cfg.setup@)) {
                Err(e) => r == Err::<Action, ParseError>(e) && final(self)@ == old(self)@,
                Ok(next) => r is Ok && r->Ok_0@ == next.1 && final(self)@ == next.0,
            },
    {
        match parse_report(report, self.carry_over) {
            Err(e) => Err(e),
            Ok(seen) => {
                if seen.same_as(&self.prev) {
                    let announce = !self.logged;
                    self.logged = true;
                    Ok(Action::Steady { announce })
                } else {
                    self.logged = false;
                    let args = select_command(&seen, cfg);
                    assert(strings_view(args@) =~= select_args(seen@, rules_view(cfg.setup@)));
                    Ok(Action::Apply { seen, args })
                }
            },
        }
    }

    /// Takes the report made after the configuration command ran and keeps
    /// the topology it describes for the next comparison.
    pub fn settle(&mut self, report: &str) -> (r: Result<(), ParseError>)
        ensures
            match settle_on(old(self)@, report@) {
                Err(e) => r == Err::<(), ParseError>(e) && final(self)@ == old(self)@,
                Ok(w) => r is Ok && final(self)@ == w,
            },
    {
        match parse_report(report, self.carry_over) {
            Err(e) => Err(e),
            Ok(t) => {
                self.prev = t;
                Ok(())
            },
        }
    }
}

/// Once the watcher has settled on a report, looking at the same report
/// again calls for no command: the first such look gives one notice, the
/// next gives none.
pub proof fn lemma_unchanged_report_is_steady(
    w: WatcherView,
    report: Seq<char>,
    rules: Seq<SetupView>,
)
    requires
        settle_on(w, report) is Ok,
    ensures
        tick(settle_on(w, report)->Ok_0, report, rules) is Ok,
        tick(settle_on(w, report)->Ok_0, report, rules)->Ok_0.1 == (ActionView::Steady {
            announce: !w.logged,
        }),
        tick(tick(settle_on(w, report)->Ok_0, report, rules)->Ok_0.0, report, rules) is Ok,
        tick(tick(settle_on(w, report)->Ok_0, report, rules)->Ok_0.0, report, rules)->Ok_0.1 == (
        ActionView::Steady { announce: false }),
{
}

} // verus!
