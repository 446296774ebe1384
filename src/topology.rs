//! The observed state of every display output.

use vstd::prelude::*;

verus! {

/// The state of one output, as the display report gives it.
#[derive(Debug, Clone)]
pub struct Monitor {
    pub name: String,
    pub connected: bool,
    pub primary: bool,
    pub on: bool,
    pub highest_res: Option<String>,
}

/// What an output's state means: its name, flags and preferred mode as text.
pub struct MonitorView {
    pub name: Seq<char>,
    pub connected: bool,
    pub primary: bool,
    pub on: bool,
    pub highest_res: Option<Seq<char>>,
}

/// The text of an optional string.
pub open spec fn opt_text(o: Option<String>) -> Option<Seq<char>> {
    match o {
        Some(s) => Some(s@),
        None => None,
    }
}

impl View for Monitor {
    type V = MonitorView;

    open spec fn view(&self) -> MonitorView {
        MonitorView {
            name: self.name@,
            connected: self.connected,
            primary: self.primary,
            on: self.on,
            highest_res: opt_text(self.highest_res),
        }
    }
}

fn same_opt_text(a: &Option<String>, b: &Option<String>) -> (r: bool)
    ensures
        r == (opt_text(*a) == opt_text(*b)),
{
    match (a, b) {
        (Some(x), Some(y)) => *x == *y,
        (None, None) => true,
        _ => false,
    }
}

impl Monitor {
    /// Field-wise equality.
    pub fn same_as(&self, other: &Monitor) -> (r: bool)
        ensures
            r == (self@ == other@),
    {
        self.name == other.name && self.connected == other.connected && self.primary
            == other.primary && self.on == other.on && same_opt_text(
            &self.highest_res,
            &other.highest_res,
        )
    }
}

impl PartialEq for Monitor {
    fn eq(&self, other: &Monitor) -> (r: bool) {
        self.same_as(other)
    }
}

impl vstd::std_specs::cmp::PartialEqSpecImpl for Monitor {
    open spec fn obeys_eq_spec() -> bool {
        true
    }

    open spec fn eq_spec(&self, other: &Monitor) -> bool {
        self@ == other@
    }
}

/// A set of outputs, keyed by name: no two outputs share a name.
#[derive(Debug)]
pub struct Topology {
    monitors: Vec<Monitor>,
}

impl Topology {
    #[verifier::type_invariant]
    spec fn names_unique(&self) -> bool {
        forall|i: int, j: int|
            0 <= i < j < self.monitors.len() ==> #[trigger] self.monitors[i].name@
                != #[trigger] self.monitors[j].name@
    }

    spec fn has_name_at(&self, i: int, k: Seq<char>) -> bool {
        0 <= i < self.monitors.len() && self.monitors[i].name@ == k
    }

    proof fn lemma_view_at(&self, i: int)
        requires
            self.names_unique(),
            0 <= i < self.monitors.len(),
        ensures
            self@.contains_key(self.monitors[i].name@),
            self@[self.monitors[i].name@] == self.monitors[i]@,
    {
        let k = self.monitors[i].name@;
        assert(self.has_name_at(i, k));
        let j = choose|j: int| self.has_name_at(j, k);
        if j < i {
            assert(self.monitors[j].name@ != self.monitors[i].name@);
        } else if i < j {
            assert(self.monitors[i].name@ != self.monitors[j].name@);
        }
    }

    /// A topology with no outputs.
    pub fn new() -> (r: Topology)
        ensures
            r@ == Map::<Seq<char>, MonitorView>::empty(),
    {
        let r = Topology { monitors: Vec::new() };
        assert(r@ =~= Map::<Seq<char>, MonitorView>::empty());
        r
    }

    /// The position of the output called `name`, if there is one.
    fn find(&self, name: &String) -> (r: Option<usize>)
        ensures
            match r {
                Some(i) => i < self.monitors.len() && self.monitors[i as int].name@ == name@,
                None => !self@.contains_key(name@),
            },
    {
        let mut i: usize = 0;
        while i < self.monitors.len()
            invariant
                i <= self.monitors.len(),
                forall|j: int| 0 <= j < i ==> self.monitors[j].name@ != name@,
            decreases self.monitors.len() - i,
        {
            if self.monitors[i].name == *name {
                return Some(i);
            }
            i = i + 1;
        }
        assert(!self@.contains_key(name@)) by {
            if self@.contains_key(name@) {
                let j = choose|j: int| self.has_name_at(j, name@);
                assert(self.monitors[j].name@ != name@);
            }
        }
        None
    }

    /// The output called `name`, if there is one.
    pub fn get(&self, name: &str) -> (r: Option<&Monitor>)
        ensures
            match r {
                Some(m) => self@.contains_key(name@) && self@[name@] == m@,
                None => !self@.contains_key(name@),
            },
    {
        proof {
            use_type_invariant(self);
        }
        let key = name.to_owned();
        match self.find(&key) {
            Some(i) => {
                proof {
                    self.lemma_view_at(i as int);
                }
                Some(&self.monitors[i])
            },
            None => None,
        }
    }

    /// Records `m` under its name, replacing any output of the same name.
    pub fn insert(&mut self, m: Monitor)
        ensures
            final(self)@ == old(self)@.insert(m.name@, m@),
    {
        proof {
            use_type_invariant(&*self);
        }
        let ghost pre = *self;
        let ghost key = m.name@;
        let ghost mv = m@;
        let found = self.find(&m.name);
        let mut ms: Vec<Monitor> = Vec::new();
        std::mem::swap(&mut ms, &mut self.monitors);
        match found {
            Some(i) => {
                ms.set(i, m);
                assert forall|a: int, b: int|
                    0 <= a < b < ms.len() implies #[trigger] ms[a].name@ != #[trigger] ms[b].name@ by {
                    assert(pre.monitors[a].name@ != pre.monitors[b].name@);
                }
            },
            None => {
                ms.push(m);
                assert forall|a: int, b: int|
                    0 <= a < b < ms.len() implies #[trigger] ms[a].name@ != #[trigger] ms[b].name@ by {
                    if b == ms.len() - 1 {
                        assert(pre.has_name_at(a, ms[a].name@));
                    } else {
                        assert(pre.monitors[a].name@ != pre.monitors[b].name@);
                    }
                }
            },
        }
        self.monitors = ms;
        proof {
            use_type_invariant(&*self);
        }
        match found {
            Some(i) => {
                assert forall|k: Seq<char>| #[trigger] self@.contains_key(k) == pre@.insert(
                    key,
                    mv,
                ).contains_key(k) by {
                    if k == key {
                        assert(self.has_name_at(i as int, k));
                        assert(pre.has_name_at(i as int, k));
                    } else if self@.contains_key(k) {
                        let j = choose|j: int| self.has_name_at(j, k);
                        assert(pre.has_name_at(j, k));
                    } else if pre@.contains_key(k) {
                        let j = choose|j: int| pre.has_name_at(j, k);
                        assert(self.has_name_at(j, k));
                    }
                }
                assert forall|k: Seq<char>| #[trigger] self@.contains_key(k) implies self@[k]
                    == pre@.insert(key, mv)[k] by {
                    if k == key {
                        self.lemma_view_at(i as int);
                    } else {
                        let j = choose|j: int| self.has_name_at(j, k);
                        self.lemma_view_at(j);
                        pre.lemma_view_at(j);
                    }
                }
                assert(self@ =~= pre@.insert(key, mv));
            },
            None => {
                assert forall|k: Seq<char>| #[trigger] self@.contains_key(k) == pre@.insert(
                    key,
                    mv,
                ).contains_key(k) by {
                    if k == key {
                        assert(self.has_name_at(self.monitors.len() - 1, k));
                    } else if self@.contains_key(k) {
                        let j = choose|j: int| self.has_name_at(j, k);
                        assert(pre.has_name_at(j, k));
                    } else if pre@.contains_key(k) {
                        let j = choose|j: int| pre.has_name_at(j, k);
                        assert(self.has_name_at(j, k));
                    }
                }
                assert forall|k: Seq<char>| #[trigger] self@.contains_key(k) implies self@[k]
                    == pre@.insert(key, mv)[k] by {
                    let j = choose|j: int| self.has_name_at(j, k);
                    self.lemma_view_at(j);
                    if k != key {
                        pre.lemma_view_at(j);
                    }
                }
                assert(self@ =~= pre@.insert(key, mv));
            },
        }
    }

    /// Whether every output of `self` is in `other` with the same state.
    fn within(&self, other: &Topology) -> (r: bool)
        ensures
            r == (forall|k: Seq<char>|
                #[trigger] self@.contains_key(k) ==> other@.contains_key(k) && other@[k]
                    == self@[k]),
    {
        proof {
            use_type_invariant(self);
            use_type_invariant(other);
        }
        let mut i: usize = 0;
        while i < self.monitors.len()
            invariant
                i <= self.monitors.len(),
                self.names_unique(),
                other.names_unique(),
                forall|j: int|
                    0 <= j < i ==> other@.contains_key(#[trigger] self.monitors[j].name@)
                        && other@[self.monitors[j].name@] == self.monitors[j]@,
            decreases self.monitors.len() - i,
        {
            proof {
                self.lemma_view_at(i as int);
            }
            match other.find(&self.monitors[i].name) {
                Some(p) => {
                    proof {
                        other.lemma_view_at(p as int);
                    }
                    if !other.monitors[p].same_as(&self.monitors[i]) {
                        return false;
                    }
                },
                None => {
                    return false;
                },
            }
            i = i + 1;
        }
        assert forall|k: Seq<char>| #[trigger] self@.contains_key(k) implies other@.contains_key(k)
            && other@[k] == self@[k] by {
            let j = choose|j: int| self.has_name_at(j, k);
            self.lemma_view_at(j);
        }
        true
    }

    /// Whether the two topologies hold the same outputs in the same states.
    pub fn same_as(&self, other: &Topology) -> (r: bool)
        ensures
            r == (self@ == other@),
    {
        let r = self.within(other) && other.within(self);
        if r {
            assert(self@ =~= other@);
        }
        r
    }
}

impl View for Topology {
    type V = Map<Seq<char>, MonitorView>;

    closed spec fn view(&self) -> Map<Seq<char>, MonitorView> {
        Map::new(
            |k: Seq<char>| exists|i: int| self.has_name_at(i, k),
            |k: Seq<char>| self.monitors[choose|i: int| self.has_name_at(i, k)]@,
        )
    }
}

impl PartialEq for Topology {
    fn eq(&self, other: &Topology) -> (r: bool) {
        self.same_as(other)
    }
}

impl vstd::std_specs::cmp::PartialEqSpecImpl for Topology {
    open spec fn obeys_eq_spec() -> bool {
        true
    }

    open spec fn eq_spec(&self, other: &Topology) -> bool {
        self@ == other@
    }
}

} // verus!
