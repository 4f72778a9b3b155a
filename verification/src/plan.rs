//! The plan tree: a node with its subplans, its activation and its schedule.

use crate::behaviour::{Behaviour, Hook};
use crate::enum_cast::EnumRef;
use crate::name_order::{
    compare, precedes, precedes_asymmetric, precedes_irreflexive, precedes_total,
    precedes_transitive, Rank,
};
use crate::predicate::Predicate;
use std::collections::HashMap;
use vstd::prelude::*;

verus! {

/// `serde_value::Value`: a value of the free-form data that a plan carries.
/// Nothing is said of what it holds.
#[verifier::external_type_specification]
#[verifier::external_body]
pub struct ExValue(serde_value::Value);

/// The two kinds of value that a tree is made of: its predicates `P` and its
/// behaviours `B`. Every `Config` is one.
pub trait Kinds: Sized + 'static {
    type P: 'static;

    type B: 'static;
}

/// Names the kinds of behaviour and of predicate that a tree is made of.
pub trait Config: Sized + 'static {
    type Predicate: Predicate<Self> + 'static;

    type Behaviour: Behaviour<Self> + 'static;
}

impl<C: Config> Kinds for C {
    type P = <C as Config>::Predicate;

    type B = <C as Config>::Behaviour;
}

/// What a plan can be named by: a `&str`, a `String` or a `&String`.
pub trait IntoName: Sized {
    /// The name as a sequence of characters.
    spec fn name_chars(&self) -> Seq<char>;

    /// The name as a `String` of its own.
    fn into_name(self) -> (r: String)
        ensures
            r@ == self.name_chars(),
    ;
}

impl<'a> IntoName for &'a str {
    open spec fn name_chars(&self) -> Seq<char> {
        self@
    }

    fn into_name(self) -> (r: String) {
        self.to_owned()
    }
}

impl IntoName for String {
    open spec fn name_chars(&self) -> Seq<char> {
        self@
    }

    fn into_name(self) -> (r: String) {
        self
    }
}

impl<'a> IntoName for &'a String {
    open spec fn name_chars(&self) -> Seq<char> {
        self@
    }

    fn into_name(self) -> (r: String) {
        self.clone()
    }
}

/// A move from the subplans named in `src` to those named in `dst`, made
/// when all of `src` are active and `predicate` holds.
pub struct Transition<P> {
    pub src: Vec<String>,
    pub dst: Vec<String>,
    pub predicate: P,
}

/// A node of the plan tree.
///
/// `run_countdown` is the number of ticks until the behaviour runs next;
/// `u32::MAX` marks an inactive plan. `name` and `run_countdown` are kept by
/// the operations of the plan.
pub struct Plan<C: Kinds> {
    /// Identifies the plan among the subplans of its parent.
    pub name: String,
    /// Ticks until the next run, or `u32::MAX` while inactive.
    pub run_countdown: u32,
    /// Number of ticks between two runs; 0 switches the behaviour's runs off.
    pub run_interval: u32,
    /// Whether the plan is entered when its parent is.
    pub autostart: bool,
    /// The run-time logic, absent in a stub.
    pub behaviour: Option<Box<C::B>>,
    /// Moves between sets of subplans, tried in this order.
    pub transitions: Vec<Transition<C::P>>,
    /// The subplans, in the order of their names.
    pub plans: Vec<Plan<C>>,
    /// Free-form data.
    pub data: HashMap<String, serde_value::Value>,
}

impl<C: Kinds> Plan<C> {
    /// The plan is between its entry and its exit.
    pub open spec fn is_active(&self) -> bool {
        self.run_countdown < u32::MAX
    }

    /// The names strictly increase along `plans`.
    pub open spec fn names_sorted(plans: Seq<Plan<C>>) -> bool {
        forall|i: int, j: int|
            #![trigger plans[i], plans[j]]
            0 <= i < j < plans.len() ==> precedes(plans[i].name@, plans[j].name@)
    }

    /// No subplan is active.
    pub open spec fn quiet(&self) -> bool {
        forall|i: int| 0 <= i < self.plans@.len() ==> !(#[trigger] self.plans@[i]).is_active()
    }

    /// What holds of a plan between operations, at every level of the tree:
    /// the subplans are in the strict order of their names, an inactive plan
    /// has no active subplan, and the countdown of an active plan is at most
    /// its interval.
    pub open spec fn wf(&self) -> bool
        decreases self,
    {
        &&& Self::names_sorted(self.plans@)
        &&& forall|i: int| 0 <= i < self.plans@.len() ==> (#[trigger] self.plans@[i]).wf()
        &&& (self.is_active() || self.quiet())
        &&& (self.is_active() ==> self.run_countdown <= self.run_interval)
    }

    /// The plan holds nothing: no behaviour, no transition, no subplan.
    pub open spec fn is_bare(&self) -> bool {
        &&& self.behaviour is None
        &&& self.transitions@.len() == 0
        &&& self.plans@.len() == 0
    }

    /// The number of levels below the plan, a plan that holds nothing
    /// counting for none.
    pub open spec fn depth(&self) -> nat
        decreases self,
    {
        if self.is_bare() {
            0
        } else {
            1 + Self::max_depth(self.plans@)
        }
    }

    /// The greatest depth among `plans`.
    pub open spec fn max_depth(plans: Seq<Plan<C>>) -> nat
        decreases plans,
    {
        if plans.len() == 0 {
            0
        } else {
            let d = plans.last().depth();
            let m = Self::max_depth(plans.drop_last());
            if d > m {
                d
            } else {
                m
            }
        }
    }

    /// What every callback and every operation keeps of the plan it is
    /// handed: it is well formed, has its name, and is no deeper than before
    /// (than one level, where it held nothing).
    pub open spec fn kept_from(&self, before: &Plan<C>) -> bool {
        &&& self.wf()
        &&& self.name@ == before.name@
        &&& self.depth() <= before.depth() || self.depth() <= 1
    }

    /// Both plans agree in all but their subplans.
    pub open spec fn same_but_plans(&self, other: &Plan<C>) -> bool {
        &&& self.name == other.name
        &&& self.run_countdown == other.run_countdown
        &&& self.run_interval == other.run_interval
        &&& self.autostart == other.autostart
        &&& self.behaviour == other.behaviour
        &&& self.transitions == other.transitions
        &&& self.data == other.data
    }

    /// Both plans agree in all but their subplans and their countdown.
    pub open spec fn same_settings(&self, other: &Plan<C>) -> bool {
        &&& self.name == other.name
        &&& self.run_interval == other.run_interval
        &&& self.autostart == other.autostart
        &&& self.behaviour == other.behaviour
        &&& self.transitions == other.transitions
        &&& self.data == other.data
    }

    /// Both plans agree in all but their behaviour.
    pub open spec fn same_settings_but_behaviour(&self, other: &Plan<C>) -> bool {
        &&& self.name == other.name
        &&& self.run_countdown == other.run_countdown
        &&& self.run_interval == other.run_interval
        &&& self.autostart == other.autostart
        &&& self.transitions == other.transitions
        &&& self.plans == other.plans
        &&& self.data == other.data
    }

    /// One of `plans` has the name `name`.
    pub open spec fn has_name(plans: Seq<Plan<C>>, name: Seq<char>) -> bool {
        exists|i: int| 0 <= i < plans.len() && (#[trigger] plans[i]).name@ == name
    }

    /// The place in `plans` of the plan named `name`.
    pub open spec fn index_of(plans: Seq<Plan<C>>, name: Seq<char>) -> int {
        choose|i: int| 0 <= i < plans.len() && (#[trigger] plans[i]).name@ == name
    }

    /// `i` is the place of `name` in the order of `plans`: the names before
    /// it come before `name`, the others do not.
    pub open spec fn is_slot(plans: Seq<Plan<C>>, name: Seq<char>, i: int) -> bool {
        &&& 0 <= i <= plans.len()
        &&& forall|j: int| 0 <= j < i ==> precedes((#[trigger] plans[j]).name@, name)
        &&& forall|j: int| i <= j < plans.len() ==> !precedes((#[trigger] plans[j]).name@, name)
    }

    /// The plan is a stub as `new_stub` makes it, but for its countdown.
    pub open spec fn is_blank(&self, name: Seq<char>, autostart: bool, countdown: u32) -> bool {
        &&& self.name@ == name
        &&& self.run_countdown == countdown
        &&& self.run_interval == 0
        &&& self.autostart == autostart
        &&& self.is_bare()
        &&& self.data@ == Map::<String, serde_value::Value>::empty()
    }

    /// The plan is a stub as `new_stub` makes it.
    pub open spec fn is_stub(&self, name: Seq<char>, autostart: bool) -> bool {
        self.is_blank(name, autostart, u32::MAX)
    }

    /// The place of `name` in the order of `plans`.
    pub open spec fn slot_of(plans: Seq<Plan<C>>, name: Seq<char>) -> int {
        choose|i: int| Self::is_slot(plans, name, i)
    }

    /// The plan is `before` with the countdown `countdown`.
    pub open spec fn timed_from(&self, before: &Plan<C>, countdown: int) -> bool {
        &&& self.same_settings(before)
        &&& self.plans == before.plans
        &&& self.run_countdown == countdown
    }

    /// `other` is the plan itself or a plan somewhere below it.
    pub open spec fn holds_plan(&self, other: &Plan<C>) -> bool
        decreases self,
    {
        *other == *self || exists|i: int|
            0 <= i < self.plans@.len() && (#[trigger] self.plans@[i]).holds_plan(other)
    }

    /// In a well-formed plan every plan of the tree is well formed: it keeps
    /// its subplans in the strict order of their names, and no two of them
    /// have one name.
    pub proof fn subplans_in_order(&self, other: &Plan<C>)
        requires
            self.wf(),
            self.holds_plan(other),
        ensures
            other.wf(),
            Self::names_sorted(other.plans@),
            forall|i: int, j: int|
                #![trigger other.plans@[i], other.plans@[j]]
                0 <= i < j < other.plans@.len() ==> other.plans@[i].name@ != other.plans@[j].name@,
        decreases self,
    {
        if *other == *self {
            assert forall|i: int, j: int|
                #![trigger other.plans@[i], other.plans@[j]]
                0 <= i < j < other.plans@.len() implies other.plans@[i].name@
                != other.plans@[j].name@ by {
                assert(precedes(other.plans@[i].name@, other.plans@[j].name@));
                precedes_asymmetric(other.plans@[i].name@, other.plans@[j].name@);
            }
        } else {
            let i = choose|i: int|
                0 <= i < self.plans@.len() && (#[trigger] self.plans@[i]).holds_plan(other);
            self.plans@[i].subplans_in_order(other);
        }
    }

    /// A plan is active exactly if its countdown is below `u32::MAX`, and in
    /// a well-formed plan the countdown of every active plan of the tree is
    /// at most its interval.
    pub proof fn countdown_in_range(&self, other: &Plan<C>)
        requires
            self.wf(),
            self.holds_plan(other),
        ensures
            other.is_active() <==> other.run_countdown < u32::MAX,
            other.is_active() ==> 0 <= other.run_countdown <= other.run_interval,
    {
        self.subplans_in_order(other);
    }

    /// In a well-formed plan no plan is active below an inactive plan.
    pub proof fn inactive_below_inactive(&self, other: &Plan<C>)
        requires
            self.wf(),
            !self.is_active(),
            self.holds_plan(other),
        ensures
            !other.is_active(),
        decreases self,
    {
        if *other != *self {
            let i = choose|i: int|
                0 <= i < self.plans@.len() && (#[trigger] self.plans@[i]).holds_plan(other);
            self.plans@[i].inactive_below_inactive(other);
        }
    }

    /// A name has one place only.
    pub proof fn slot_unique(plans: Seq<Plan<C>>, name: Seq<char>, i: int, j: int)
        requires
            Self::is_slot(plans, name, i),
            Self::is_slot(plans, name, j),
        ensures
            i == j,
    {
        if i < j {
            assert(precedes(plans[i].name@, name));
        } else if j < i {
            assert(precedes(plans[j].name@, name));
        }
    }

    /// In sorted subplans a name is found at its place or nowhere.
    pub proof fn slot_holds_name(plans: Seq<Plan<C>>, name: Seq<char>, i: int)
        requires
            Self::names_sorted(plans),
            Self::is_slot(plans, name, i),
        ensures
            Self::has_name(plans, name) <==> (i < plans.len() && plans[i].name@ == name),
            Self::has_name(plans, name) ==> Self::index_of(plans, name) == i,
    {
        if Self::has_name(plans, name) {
            let k = Self::index_of(plans, name);
            precedes_irreflexive(name);
            if k < i {
                assert(precedes(plans[k].name@, name));
            } else if k > i {
                assert(precedes(plans[i].name@, plans[k].name@));
                assert(!precedes(plans[i].name@, name));
            }
        }
    }

    /// In sorted subplans every name that is absent comes before the names
    /// from its place on.
    pub proof fn slot_splits(plans: Seq<Plan<C>>, name: Seq<char>, i: int)
        requires
            Self::names_sorted(plans),
            Self::is_slot(plans, name, i),
            !Self::has_name(plans, name),
        ensures
            forall|j: int| i <= j < plans.len() ==> precedes(name, (#[trigger] plans[j]).name@),
    {
        assert forall|j: int| i <= j < plans.len() implies precedes(
            name,
            (#[trigger] plans[j]).name@,
        ) by {
            precedes_total(name, plans[j].name@);
        }
    }

    /// No plan is deeper than the deepest of its list.
    pub proof fn depth_within(plans: Seq<Plan<C>>, i: int)
        requires
            0 <= i < plans.len(),
        ensures
            plans[i].depth() <= Self::max_depth(plans),
        decreases plans.len(),
    {
        if i < plans.len() - 1 {
            Self::depth_within(plans.drop_last(), i);
        }
    }

    /// A bound on every plan of a list bounds the deepest.
    pub proof fn max_depth_bounded(plans: Seq<Plan<C>>, d: nat)
        requires
            forall|i: int| 0 <= i < plans.len() ==> (#[trigger] plans[i]).depth() <= d,
        ensures
            Self::max_depth(plans) <= d,
        decreases plans.len(),
    {
        if plans.len() > 0 {
            assert(plans.last() == plans[plans.len() - 1]);
            assert forall|i: int| 0 <= i < plans.drop_last().len() implies (
            #[trigger] plans.drop_last()[i]).depth() <= d by {
                assert(plans.drop_last()[i] == plans[i]);
            }
            Self::max_depth_bounded(plans.drop_last(), d);
        }
    }

    /// A list whose plans are each no deeper than the plan at the same
    /// place of another list is no deeper than that list.
    pub proof fn max_depth_monotone(after: Seq<Plan<C>>, before: Seq<Plan<C>>)
        requires
            after.len() == before.len(),
            forall|i: int|
                0 <= i < after.len() ==> (#[trigger] after[i]).depth() <= before[i].depth(),
        ensures
            Self::max_depth(after) <= Self::max_depth(before),
    {
        assert forall|i: int| 0 <= i < after.len() implies (#[trigger] after[i]).depth()
            <= Self::max_depth(before) by {
            Self::depth_within(before, i);
        }
        Self::max_depth_bounded(after, Self::max_depth(before));
    }

    /// ID unique among the subplans of one plan.
    pub fn name(&self) -> (r: &String)
        ensures
            r == self.name,
    {
        &self.name
    }

    /// Whether the plan is between its entry and its exit.
    pub fn active(&self) -> (r: bool)
        ensures
            r == self.is_active(),
    {
        self.run_countdown < u32::MAX
    }

    /// Number of ticks until the next run.
    pub fn run_countdown(&self) -> (r: u32)
        ensures
            r == self.run_countdown,
    {
        self.run_countdown
    }

    /// New plan with a behaviour and no subplans. It is inactive.
    pub fn new<N: IntoName>(behaviour: C::B, name: N, run_interval: u32, autostart: bool) -> (r:
        Self)
        ensures
            r.name@ == name.name_chars(),
            r.run_countdown == u32::MAX,
            r.run_interval == run_interval,
            r.autostart == autostart,
            r.behaviour == Some(Box::new(behaviour)),
            r.transitions@.len() == 0,
            r.plans@.len() == 0,
            r.data@ == Map::<String, serde_value::Value>::empty(),
            r.wf(),
    {
        let mut s = Self::new_stub(name, autostart);
        s.run_interval = run_interval;
        s.behaviour = Some(Box::new(behaviour));
        s
    }

    /// New plan without a behaviour. It is inactive.
    pub fn new_stub<N: IntoName>(name: N, autostart: bool) -> (r: Self)
        ensures
            r.is_stub(name.name_chars(), autostart),
            r.wf(),
    {
        Plan {
            name: name.into_name(),
            run_countdown: u32::MAX,
            run_interval: 0,
            autostart,
            behaviour: None,
            transitions: Vec::new(),
            plans: Vec::new(),
            data: HashMap::new(),
        }
    }

    /// Names that increase from each to the next increase along the whole
    /// list.
    pub proof fn sorted_by_neighbours(plans: Seq<Plan<C>>)
        requires
            forall|i: int|
                0 < i < plans.len() ==> precedes(plans[i - 1].name@, (#[trigger] plans[i]).name@),
        ensures
            Self::names_sorted(plans),
    {
        assert forall|i: int, j: int|
            #![trigger plans[i], plans[j]]
            0 <= i < j < plans.len() implies precedes(plans[i].name@, plans[j].name@) by {
            Self::sorted_between(plans, i, j);
        }
    }

    /// Names that increase from each to the next increase from any to any
    /// later one.
    proof fn sorted_between(plans: Seq<Plan<C>>, i: int, j: int)
        requires
            forall|i: int|
                0 < i < plans.len() ==> precedes(plans[i - 1].name@, (#[trigger] plans[i]).name@),
            0 <= i < j < plans.len(),
        ensures
            precedes(plans[i].name@, plans[j].name@),
        decreases j - i,
    {
        assert(precedes(plans[j - 1].name@, plans[j].name@));
        if i < j - 1 {
            Self::sorted_between(plans, i, j - 1);
            precedes_transitive(plans[i].name@, plans[j - 1].name@, plans[j].name@);
        }
    }

    /// Whether the plan is well formed, at every level of the tree.
    pub fn is_well_formed(&self) -> (r: bool)
        ensures
            r == self.wf(),
        decreases self,
    {
        if self.run_countdown < u32::MAX && self.run_countdown > self.run_interval {
            return false;
        }
        let n = self.plans.len();
        let mut i: usize = 0;
        while i < n
            invariant
                0 <= i <= n,
                n == self.plans@.len(),
                forall|j: int|
                    0 < j < i ==> precedes(self.plans@[j - 1].name@, (#[trigger] self.plans@[j]).name@),
                forall|j: int| 0 <= j < i ==> (#[trigger] self.plans@[j]).wf(),
                self.is_active() || forall|j: int|
                    0 <= j < i ==> !(#[trigger] self.plans@[j]).is_active(),
            decreases n - i,
        {
            if !self.plans[i].is_well_formed() {
                return false;
            }
            if !self.active() && self.plans[i].active() {
                return false;
            }
            if i > 0 {
                match compare(self.plans[i - 1].name.as_str(), self.plans[i].name.as_str()) {
                    Rank::Before => {},
                    _ => {
                        proof {
                            if Self::names_sorted(self.plans@) {
                                assert(precedes(
                                    self.plans@[i - 1].name@,
                                    self.plans@[i as int].name@,
                                ));
                            }
                        }
                        return false;
                    },
                }
            }
            i += 1;
        }
        proof {
            Self::sorted_by_neighbours(self.plans@);
        }
        true
    }

    /// Finds the priority of a subplan by name: its place in the order of
    /// the subplans, in which they run. `Ok` holds the place of the subplan
    /// of that name, `Err` the place at which one would stand.
    pub fn priority(&self, name: &str) -> (r: Result<usize, usize>)
        requires
            Self::names_sorted(self.plans@),
        ensures
            r is Ok <==> Self::has_name(self.plans@, name@),
            match r {
                Ok(i) => Self::is_slot(self.plans@, name@, i as int) && i < self.plans@.len()
                    && self.plans@[i as int].name@ == name@,
                Err(i) => Self::is_slot(self.plans@, name@, i as int),
            },
    {
        let mut lo: usize = 0;
        let mut hi: usize = self.plans.len();
        while lo < hi
            invariant
                0 <= lo <= hi <= self.plans@.len(),
                Self::names_sorted(self.plans@),
                forall|j: int| 0 <= j < lo ==> precedes((#[trigger] self.plans@[j]).name@, name@),
                forall|j: int|
                    hi <= j < self.plans@.len() ==> precedes(
                        name@,
                        (#[trigger] self.plans@[j]).name@,
                    ),
            decreases hi - lo,
        {
            let mid = lo + (hi - lo) / 2;
            match compare(self.plans[mid].name.as_str(), name) {
                Rank::Before => {
                    proof {
                        let mid_name = self.plans@[mid as int].name@;
                        assert forall|j: int| 0 <= j < mid + 1 implies precedes(
                            (#[trigger] self.plans@[j]).name@,
                            name@,
                        ) by {
                            if j < mid {
                                assert(precedes(self.plans@[j].name@, self.plans@[mid as int].name@));
                                precedes_transitive(self.plans@[j].name@, mid_name, name@);
                            }
                        }
                    }
                    lo = mid + 1;
                },
                Rank::Same => {
                    proof {
                        let plans = self.plans@;
                        precedes_irreflexive(name@);
                        assert forall|j: int| 0 <= j < mid implies precedes(
                            (#[trigger] plans[j]).name@,
                            name@,
                        ) by {
                            assert(precedes(plans[j].name@, plans[mid as int].name@));
                        }
                        assert forall|j: int| mid <= j < plans.len() implies !precedes(
                            (#[trigger] plans[j]).name@,
                            name@,
                        ) by {
                            if mid < j {
                                assert(precedes(plans[mid as int].name@, plans[j].name@));
                                precedes_asymmetric(name@, plans[j].name@);
                            }
                        }
                        assert(plans[mid as int].name@ == name@);
                    }
                    return Ok(mid);
                },
                Rank::After => {
                    proof {
                        let mid_name = self.plans@[mid as int].name@;
                        crate::name_order::rank_of_mirrored(mid_name, name@);
                        assert forall|j: int| mid <= j < self.plans@.len() implies precedes(
                            name@,
                            (#[trigger] self.plans@[j]).name@,
                        ) by {
                            if mid < j {
                                assert(precedes(self.plans@[mid as int].name@, self.plans@[j].name@));
                                precedes_transitive(name@, mid_name, self.plans@[j].name@);
                            }
                        }
                    }
                    hi = mid;
                },
            }
        }
        proof {
            let plans = self.plans@;
            assert forall|j: int| lo <= j < plans.len() implies !precedes(
                (#[trigger] plans[j]).name@,
                name@,
            ) by {
                precedes_asymmetric(name@, plans[j].name@);
            }
            if Self::has_name(plans, name@) {
                let k = Self::index_of(plans, name@);
                precedes_irreflexive(name@);
                if k < lo {
                    assert(precedes(plans[k].name@, name@));
                } else {
                    assert(precedes(name@, plans[k].name@));
                }
            }
        }
        Err(lo)
    }

    /// Returns the subplan of that name.
    pub fn get(&self, name: &str) -> (r: Option<&Self>)
        requires
            Self::names_sorted(self.plans@),
        ensures
            r is Some <==> Self::has_name(self.plans@, name@),
            r is Some ==> *r->0 == self.plans@[Self::index_of(self.plans@, name@)],
    {
        match self.priority(name) {
            Ok(pos) => {
                proof {
                    Self::slot_holds_name(self.plans@, name@, pos as int);
                }
                Some(&self.plans[pos])
            },
            Err(_) => None,
        }
    }

    /// Returns the subplan of that name, to be changed in place.
    pub fn get_mut(&mut self, name: &str) -> (r: Option<&mut Self>)
        requires
            Self::names_sorted(old(self).plans@),
        ensures
            r is Some <==> Self::has_name(old(self).plans@, name@),
            r is None ==> *final(self) == *old(self),
            r is Some ==> {
                let i = Self::index_of(old(self).plans@, name@);
                &&& *r->0 == old(self).plans@[i]
                &&& final(self).plans@ == old(self).plans@.update(i, *final(r->0))
                &&& final(self).same_but_plans(old(self))
                &&& old(self).wf() && final(r->0).wf() && final(r->0).name@ == name@ && (old(
                    self,
                ).is_active() || !final(r->0).is_active()) ==> final(self).wf()
            },
    {
        match self.priority(name) {
            Ok(pos) => {
                proof {
                    Self::slot_holds_name(self.plans@, name@, pos as int);
                }
                Some(&mut self.plans[pos])
            },
            Err(_) => None,
        }
    }

    /// Removes the subplan of that name and returns it as it was.
    pub fn remove(&mut self, name: &str) -> (r: Option<Self>)
        requires
            old(self).wf(),
        ensures
            r is Some <==> Self::has_name(old(self).plans@, name@),
            r is None ==> *final(self) == *old(self),
            r is Some ==> {
                let i = Self::index_of(old(self).plans@, name@);
                &&& r->0 == old(self).plans@[i]
                &&& final(self).plans@ == old(self).plans@.remove(i)
                &&& final(self).same_but_plans(old(self))
            },
            final(self).wf(),
            final(self).depth() <= old(self).depth(),
    {
        match self.priority(name) {
            Ok(pos) => {
                proof {
                    Self::slot_holds_name(self.plans@, name@, pos as int);
                }
                let taken = self.plans.remove(pos);
                proof {
                    let before = old(self).plans@;
                    let after = self.plans@;
                    assert forall|i: int, j: int|
                        #![trigger after[i], after[j]]
                        0 <= i < j < after.len() implies precedes(after[i].name@, after[j].name@) by {
                        let a = if i < pos { i } else { i + 1 };
                        let b = if j < pos { j } else { j + 1 };
                        assert(precedes(before[a].name@, before[b].name@));
                    }
                    assert forall|i: int| 0 <= i < after.len() implies (#[trigger] after[i]).wf() by {
                        let a = if i < pos { i } else { i + 1 };
                        assert(before[a].wf());
                    }
                    assert forall|i: int| 0 <= i < after.len() implies (#[trigger] after[i]).depth()
                        <= Self::max_depth(before) by {
                        let a = if i < pos { i } else { i + 1 };
                        Self::depth_within(before, a);
                    }
                    Self::max_depth_bounded(after, Self::max_depth(before));
                    if !self.is_active() {
                        assert forall|i: int| 0 <= i < after.len() implies !(
                        #[trigger] after[i]).is_active() by {
                            let a = if i < pos { i } else { i + 1 };
                            assert(!before[a].is_active());
                        }
                    }
                }
                Some(taken)
            },
            Err(_) => None,
        }
    }
}


impl<C: Config> Plan<C> {
    /// What every callback, run on the plan `before`, leaves of it: a
    /// well-formed plan of the same name that is no deeper, with a behaviour
    /// if it had one; a plan without behaviour is left as it is.
    pub open spec fn called_from(&self, before: &Plan<C>) -> bool {
        &&& self.wf()
        &&& self.name@ == before.name@
        &&& self.depth() <= before.depth()
        &&& before.behaviour is None ==> *self == *before
        &&& before.behaviour is Some ==> self.behaviour is Some
    }

    /// What the callback `hook` leaves of the plan `before`: the behaviour
    /// is taken out of the plan, the callback turns the behaviour and the
    /// plan into what `turns` allows, and the behaviour is put back. A plan
    /// without behaviour is left as it is.
    pub open spec fn ran(&self, before: &Plan<C>, hook: Hook) -> bool {
        match before.behaviour {
            None => *self == *before,
            Some(b) => exists|vacated: Plan<C>, after: C::Behaviour, left: Plan<C>|
                vacated.behaviour is None && vacated.same_settings_but_behaviour(before)
                    && #[trigger] b.turns(hook, &vacated, &after, &left) && self.behaviour == Some(
                    Box::new(after),
                ) && self.same_settings_but_behaviour(&left),
        }
    }

    /// What the callback `hook`, run on the plan `before`, leaves of it.
    pub open spec fn called(&self, before: &Plan<C>, hook: Hook) -> bool {
        self.called_from(before) && self.ran(before, hook)
    }

    /// What `on_entry`, run on the plan `before`, leaves of it.
    pub open spec fn called_entry(&self, before: &Plan<C>) -> bool {
        &&& self.called(before, Hook::Entry)
        &&& self.run_countdown == before.run_countdown
        &&& before.run_interval > 0 ==> self.run_interval > 0
    }

    /// What `on_exit`, run on the plan `before`, leaves of it.
    pub open spec fn called_exit(&self, before: &Plan<C>) -> bool {
        &&& self.called(before, Hook::Exit)
        &&& before.quiet() ==> self.quiet()
        &&& before.run_interval > 0 ==> self.run_interval > 0
    }

    /// What `on_run`, run on the plan `before`, leaves of it.
    pub open spec fn called_run(&self, before: &Plan<C>) -> bool {
        &&& self.called(before, Hook::Run)
        &&& before.run_interval > 0 ==> self.run_interval > 0
    }

    /// What `enter` makes of the plan `before`: an active plan is left as it
    /// is; an inactive one gets the countdown 0, then `on_entry` runs, then
    /// the subplans with `autostart` are entered.
    pub open spec fn entered_from(&self, before: &Plan<C>) -> bool
        decreases self, 1nat,
    {
        &&& before.is_active() ==> *self == *before
        &&& !before.is_active() ==> exists|started: Plan<C>, called: Plan<C>|
            started.timed_from(before, 0) && #[trigger] called.called_entry(&started)
                && self.subplans_entered(&called)
        &&& self.run_countdown == (if before.is_active() {
            before.run_countdown
        } else {
            0
        })
        &&& !before.is_active() ==> forall|i: int|
            0 <= i < self.plans@.len() && (#[trigger] self.plans@[i]).autostart
                ==> self.plans@[i].is_active()
        &&& self.wf()
        &&& self.name@ == before.name@
        &&& self.depth() <= before.depth()
        &&& before.run_interval > 0 ==> self.run_interval > 0
        &&& before.behaviour is None ==> self.same_settings(before) && self.plans@.len()
            == before.plans@.len()
        &&& before.behaviour is Some ==> self.behaviour is Some
    }

    /// The plan is `before` with each subplan entered that has `autostart`.
    pub open spec fn subplans_entered(&self, before: &Plan<C>) -> bool
        decreases self, 0nat,
    {
        &&& self.same_but_plans(before)
        &&& self.plans@.len() == before.plans@.len()
        &&& forall|i: int|
            0 <= i < self.plans@.len() ==> if before.plans@[i].autostart {
                (#[trigger] self.plans@[i]).entered_from(&before.plans@[i])
            } else {
                self.plans@[i] == before.plans@[i]
            }
    }

    /// What `exit` makes of the plan `before`: an inactive plan is left as
    /// it is; of an active one the subplans are exited, then, unless
    /// `exclude_self`, `on_exit` runs and the countdown becomes `u32::MAX`.
    pub open spec fn exited_from(&self, before: &Plan<C>, exclude_self: bool) -> bool
        decreases before, 1nat,
    {
        &&& !before.is_active() ==> *self == *before
        &&& before.is_active() && exclude_self ==> self.subplans_exited(before)
        &&& before.is_active() && !exclude_self ==> exists|left: Plan<C>, called: Plan<C>|
            left.subplans_exited(before) && #[trigger] called.called_exit(&left)
                && self.timed_from(&called, u32::MAX as int)
        &&& self.run_countdown == (if exclude_self {
            before.run_countdown
        } else {
            u32::MAX
        })
        &&& self.quiet()
        &&& self.wf()
        &&& self.name@ == before.name@
        &&& self.depth() <= before.depth()
        &&& before.run_interval > 0 ==> self.run_interval > 0
        &&& before.behaviour is None || exclude_self ==> self.same_settings(before)
            && self.plans@.len() == before.plans@.len()
        &&& before.behaviour is Some ==> self.behaviour is Some
    }

    /// The plan is `before` with each subplan exited.
    pub open spec fn subplans_exited(&self, before: &Plan<C>) -> bool
        decreases before, 0nat,
    {
        &&& self.same_but_plans(before)
        &&& self.plans@.len() == before.plans@.len()
        &&& forall|i: int|
            0 <= i < self.plans@.len() ==> (#[trigger] self.plans@[i]).exited_from(
                &before.plans@[i],
                false,
            )
    }

    /// The status that the plan reports: that of its behaviour, none for a
    /// stub.
    pub open spec fn status_of(&self) -> Option<bool> {
        match self.behaviour {
            Some(b) => b.status_of(self),
            None => None,
        }
    }

    /// The utility that the plan reports: that of its behaviour, 0 for a
    /// stub.
    pub open spec fn utility_of(&self) -> i64 {
        match self.behaviour {
            Some(b) => b.utility_of(self),
            None => 0,
        }
    }

    /// The plan is due: its behaviour runs on the next tick.
    pub open spec fn is_due(&self) -> bool {
        self.run_interval > 0 && self.run_countdown == 0
    }

    /// The countdown after a tick that began with `countdown`, for a plan
    /// that stays active.
    pub open spec fn next_countdown(countdown: u32, interval: u32) -> int {
        if interval == 0 {
            countdown as int
        } else if countdown == 0 {
            interval - 1
        } else {
            countdown - 1
        }
    }

    /// A plan that differs from a well-formed one in its behaviour and its
    /// transitions only is well formed, and as deep unless one of the two
    /// holds nothing.
    pub proof fn slots_keep_wf(&self, before: &Plan<C>)
        requires
            before.wf(),
            self.name == before.name,
            self.run_countdown == before.run_countdown,
            self.run_interval == before.run_interval,
            self.plans == before.plans,
        ensures
            self.wf(),
            !self.is_bare() && !before.is_bare() ==> self.depth() == before.depth(),
            self.depth() <= before.depth() || self.depth() <= 1,
    {
    }

    /// Status of the behaviour; a stub has none.
    pub fn status(&self) -> (r: Option<bool>)
        requires
            self.wf(),
        ensures
            r == self.status_of(),
    {
        match &self.behaviour {
            Some(b) => b.status(self),
            None => None,
        }
    }

    /// Utility of the behaviour; that of a stub is 0.
    pub fn utility(&self) -> (r: i64)
        requires
            self.wf(),
        ensures
            r == self.utility_of(),
    {
        match &self.behaviour {
            Some(b) => b.utility(self),
            None => 0,
        }
    }

    /// Hands the plan to `on_entry` of its behaviour, the slot being empty
    /// meanwhile.
    fn call_entry(&mut self)
        requires
            old(self).wf(),
        ensures
            final(self).called_entry(old(self)),
    {
        let behaviour = self.behaviour.take();
        match behaviour {
            Some(mut b) => {
                let ghost vacated = *self;
                let ghost before = *b;
                proof {
                    vacated.slots_keep_wf(old(self));
                }
                b.on_entry(self);
                let ghost left = *self;
                let ghost after = *b;
                self.behaviour = Some(b);
                proof {
                    self.slots_keep_wf(&left);
                    assert(before.turns(Hook::Entry, &vacated, &after, &left));
                    assert(old(self).behaviour == Some(Box::new(before)));
                    assert(self.ran(old(self), Hook::Entry));
                }
            },
            None => {},
        }
    }

    /// Hands the plan to `on_exit` of its behaviour, the slot being empty
    /// meanwhile.
    fn call_exit(&mut self)
        requires
            old(self).wf(),
        ensures
            final(self).called_exit(old(self)),
    {
        let behaviour = self.behaviour.take();
        match behaviour {
            Some(mut b) => {
                let ghost vacated = *self;
                let ghost before = *b;
                proof {
                    vacated.slots_keep_wf(old(self));
                }
                b.on_exit(self);
                let ghost left = *self;
                let ghost after = *b;
                self.behaviour = Some(b);
                proof {
                    self.slots_keep_wf(&left);
                    assert(before.turns(Hook::Exit, &vacated, &after, &left));
                    assert(old(self).behaviour == Some(Box::new(before)));
                    assert(self.ran(old(self), Hook::Exit));
                }
            },
            None => {},
        }
    }

    /// Hands the plan to `on_prepare` of its behaviour, the slot being empty
    /// meanwhile.
    pub(crate) fn call_prepare(&mut self)
        requires
            old(self).wf(),
        ensures
            final(self).called(old(self), Hook::Prepare),
    {
        let behaviour = self.behaviour.take();
        match behaviour {
            Some(mut b) => {
                let ghost vacated = *self;
                let ghost before = *b;
                proof {
                    vacated.slots_keep_wf(old(self));
                }
                b.on_prepare(self);
                let ghost left = *self;
                let ghost after = *b;
                self.behaviour = Some(b);
                proof {
                    self.slots_keep_wf(&left);
                    assert(before.turns(Hook::Prepare, &vacated, &after, &left));
                    assert(old(self).behaviour == Some(Box::new(before)));
                    assert(self.ran(old(self), Hook::Prepare));
                }
            },
            None => {},
        }
    }

    /// Hands the plan to `on_run` of its behaviour, the slot being empty
    /// meanwhile.
    pub(crate) fn call_run(&mut self)
        requires
            old(self).wf(),
        ensures
            final(self).called_run(old(self)),
    {
        let behaviour = self.behaviour.take();
        match behaviour {
            Some(mut b) => {
                let ghost vacated = *self;
                let ghost before = *b;
                proof {
                    vacated.slots_keep_wf(old(self));
                }
                b.on_run(self);
                let ghost left = *self;
                let ghost after = *b;
                self.behaviour = Some(b);
                proof {
                    self.slots_keep_wf(&left);
                    assert(before.turns(Hook::Run, &vacated, &after, &left));
                    assert(old(self).behaviour == Some(Box::new(before)));
                    assert(self.ran(old(self), Hook::Run));
                }
            },
            None => {},
        }
    }

    /// A well-formed plan of which one subplan is replaced by a well-formed
    /// one of the same name, no deeper, and inactive if the plan is, is well
    /// formed and no deeper.
    pub proof fn subplan_replaced(&self, before: &Plan<C>, i: int)
        requires
            before.wf(),
            0 <= i < before.plans@.len(),
            self.same_but_plans(before),
            self.plans@ == before.plans@.update(i, self.plans@[i]),
            self.plans@[i].wf(),
            self.plans@[i].name@ == before.plans@[i].name@,
            self.plans@[i].depth() <= before.plans@[i].depth(),
            self.is_active() || !self.plans@[i].is_active(),
        ensures
            self.wf(),
            self.depth() <= before.depth(),
    {
        let a = self.plans@;
        let b = before.plans@;
        assert forall|x: int, y: int|
            #![trigger a[x], a[y]]
            0 <= x < y < a.len() implies precedes(a[x].name@, a[y].name@) by {
            assert(precedes(b[x].name@, b[y].name@));
        }
        assert forall|x: int| 0 <= x < a.len() implies (#[trigger] a[x]).wf() by {
            if x != i {
                assert(b[x].wf());
            }
        }
        if !self.is_active() {
            assert forall|x: int| 0 <= x < a.len() implies !(#[trigger] a[x]).is_active() by {
                if x != i {
                    assert(!b[x].is_active());
                }
            }
        }
        assert forall|x: int| 0 <= x < a.len() implies (#[trigger] a[x]).depth() <= b[x].depth() by {}
        Self::max_depth_monotone(a, b);
    }

    /// `enter` leaves an active plan as it is.
    pub proof fn entered_as_is(&self)
        requires
            self.wf(),
            self.is_active(),
        ensures
            self.entered_from(self),
    {
    }

    /// `exit` leaves an inactive plan as it is.
    pub proof fn exited_as_is(&self)
        requires
            self.wf(),
            !self.is_active(),
        ensures
            self.exited_from(self, false),
    {
    }

    /// Enters the plan if it is not active: the countdown starts at 0,
    /// `on_entry` runs, then every subplan with `autostart` is entered in
    /// turn. Returns whether the plan was entered; an active plan is left
    /// as it is.
    pub fn enter(&mut self) -> (r: bool)
        requires
            old(self).wf(),
        ensures
            r == !old(self).is_active(),
            !r ==> *final(self) == *old(self),
            final(self).entered_from(old(self)),
        decreases old(self).depth(),
    {
        if self.active() {
            return false;
        }
        self.run_countdown = 0;
        let ghost started = *self;
        self.call_entry();
        let ghost called = *self;
        let n = self.plans.len();
        let mut i: usize = 0;
        while i < n
            invariant
                0 <= i <= n,
                n == self.plans@.len(),
                n == called.plans@.len(),
                self.wf(),
                self.same_but_plans(&called),
                self.run_countdown == 0,
                self.depth() <= called.depth(),
                forall|j: int|
                    0 <= j < i ==> if called.plans@[j].autostart {
                        (#[trigger] self.plans@[j]).entered_from(&called.plans@[j])
                    } else {
                        self.plans@[j] == called.plans@[j]
                    },
                forall|j: int| i <= j < n ==> #[trigger] self.plans@[j] == called.plans@[j],
                forall|j: int|
                    0 <= j < i && (#[trigger] self.plans@[j]).autostart
                        ==> self.plans@[j].is_active(),
                called.depth() <= old(self).depth(),
            decreases n - i,
        {
            if self.plans[i].autostart && !self.plans[i].active() {
                let ghost before = *self;
                proof {
                    Self::depth_within(self.plans@, i as int);
                }
                self.plans[i].enter();
                proof {
                    self.subplan_replaced(&before, i as int);
                }
            } else {
                proof {
                    if self.plans@[i as int].is_active() {
                        self.plans@[i as int].entered_as_is();
                    }
                }
            }
            i += 1;
        }
        proof {
            assert(self.subplans_entered(&called));
            assert(started.timed_from(old(self), 0) && called.called_entry(&started)
                && self.subplans_entered(&called));
        }
        true
    }

    /// Exits the plan if it is active: every active subplan is exited in
    /// turn, then, unless `exclude_self`, `on_exit` runs and the plan becomes
    /// inactive. Returns whether the plan was active; an inactive plan is
    /// left as it is.
    pub fn exit(&mut self, exclude_self: bool) -> (r: bool)
        requires
            old(self).wf(),
        ensures
            r == old(self).is_active(),
            !r ==> *final(self) == *old(self),
            final(self).exited_from(old(self), exclude_self),
        decreases old(self).depth(),
    {
        if !self.active() {
            return false;
        }
        let n = self.plans.len();
        let mut i: usize = 0;
        while i < n
            invariant
                0 <= i <= n,
                n == self.plans@.len(),
                n == old(self).plans@.len(),
                self.wf(),
                self.same_but_plans(old(self)),
                self.depth() <= old(self).depth(),
                forall|j: int| 0 <= j < i ==> !(#[trigger] self.plans@[j]).is_active(),
                forall|j: int|
                    0 <= j < i ==> (#[trigger] self.plans@[j]).exited_from(
                        &old(self).plans@[j],
                        false,
                    ),
                forall|j: int| i <= j < n ==> #[trigger] self.plans@[j] == old(self).plans@[j],
            decreases n - i,
        {
            if self.plans[i].active() {
                let ghost before = *self;
                proof {
                    Self::depth_within(self.plans@, i as int);
                }
                self.plans[i].exit(false);
                proof {
                    self.subplan_replaced(&before, i as int);
                }
            } else {
                proof {
                    self.plans@[i as int].exited_as_is();
                }
            }
            i += 1;
        }
        let ghost left = *self;
        proof {
            assert(left.subplans_exited(old(self)));
        }
        if !exclude_self {
            self.call_exit();
            let ghost called = *self;
            self.run_countdown = u32::MAX;
            proof {
                assert(left.subplans_exited(old(self)) && called.called_exit(&left)
                    && self.timed_from(&called, u32::MAX as int));
            }
        }
        true
    }

    /// A well-formed plan that gets a well-formed subplan of a new name at
    /// the place of that name, inactive if the plan is, is well formed, and
    /// no deeper than it was or than one level more than the subplan.
    pub proof fn subplan_added(&self, before: &Plan<C>, i: int)
        requires
            before.wf(),
            0 <= i <= before.plans@.len(),
            self.same_but_plans(before),
            self.plans@ == before.plans@.insert(i, self.plans@[i]),
            Self::is_slot(before.plans@, self.plans@[i].name@, i),
            !Self::has_name(before.plans@, self.plans@[i].name@),
            self.plans@[i].wf(),
            self.is_active() || !self.plans@[i].is_active(),
        ensures
            self.wf(),
            self.depth() <= before.depth() || self.depth() <= 1 + self.plans@[i].depth(),
    {
        let a = self.plans@;
        let b = before.plans@;
        let name = a[i].name@;
        Self::slot_splits(b, name, i);
        assert forall|x: int, y: int|
            #![trigger a[x], a[y]]
            0 <= x < y < a.len() implies precedes(a[x].name@, a[y].name@) by {
            let bx = if x < i { x } else { x - 1 };
            let by = if y < i { y } else { y - 1 };
            if x == i {
                assert(precedes(name, b[by].name@));
            } else if y == i {
                assert(precedes(b[bx].name@, name));
            } else {
                assert(precedes(b[bx].name@, b[by].name@));
            }
        }
        assert forall|x: int| 0 <= x < a.len() implies (#[trigger] a[x]).wf() by {
            if x != i {
                let bx = if x < i { x } else { x - 1 };
                assert(b[bx].wf());
            }
        }
        if !self.is_active() {
            assert forall|x: int| 0 <= x < a.len() implies !(#[trigger] a[x]).is_active() by {
                if x != i {
                    let bx = if x < i { x } else { x - 1 };
                    assert(!b[bx].is_active());
                }
            }
        }
        let d: nat = if Self::max_depth(b) > a[i].depth() { Self::max_depth(b) } else { a[i].depth() };
        assert forall|x: int| 0 <= x < a.len() implies (#[trigger] a[x]).depth() <= d by {
            if x != i {
                let bx = if x < i { x } else { x - 1 };
                Self::depth_within(b, bx);
            }
        }
        Self::max_depth_bounded(a, d);
    }

    /// The place that `is_slot` tells of is the place of the name.
    pub proof fn slot_exists(plans: Seq<Plan<C>>, name: Seq<char>, i: int)
        requires
            Self::is_slot(plans, name, i),
        ensures
            Self::slot_of(plans, name) == i,
    {
        Self::slot_unique(plans, name, i, Self::slot_of(plans, name));
    }

    /// Enters the subplan of that name, which is made as a stub if there is
    /// none, and returns it. An inactive plan enters no subplan and returns
    /// `None`.
    pub fn enter_plan(&mut self, name: &str) -> (r: Option<&mut Self>)
        requires
            old(self).wf(),
        ensures
            r is Some <==> old(self).is_active(),
            r is None ==> *final(self) == *old(self),
            r is Some ==> {
                let i = Self::slot_of(old(self).plans@, name@);
                &&& Self::is_slot(old(self).plans@, name@, i)
                &&& final(self).same_but_plans(old(self))
                &&& if Self::has_name(old(self).plans@, name@) {
                    &&& final(self).plans@ == old(self).plans@.update(i, *final(r->0))
                    &&& r->0.entered_from(&old(self).plans@[i])
                } else {
                    &&& final(self).plans@ == old(self).plans@.insert(i, *final(r->0))
                    &&& r->0.is_blank(name@, false, 0)
                    &&& r->0.wf()
                }
                &&& final(r->0).wf() && final(r->0).name@ == name@ ==> final(self).wf()
            },
    {
        if !self.active() {
            return None;
        }
        let pos = match self.priority(name) {
            Ok(pos) => {
                proof {
                    Self::slot_exists(self.plans@, name@, pos as int);
                }
                pos
            },
            Err(pos) => {
                proof {
                    Self::slot_exists(self.plans@, name@, pos as int);
                    Self::slot_splits(self.plans@, name@, pos as int);
                }
                self.plans.insert(pos, Self::new_stub(name, false));
                pos
            },
        };
        let plan = &mut self.plans[pos];
        plan.enter();
        Some(plan)
    }

    /// Exits the subplan of that name and returns it; `None` if there is
    /// none.
    pub fn exit_plan(&mut self, name: &str) -> (r: Option<&mut Self>)
        requires
            old(self).wf(),
        ensures
            r is Some <==> Self::has_name(old(self).plans@, name@),
            r is None ==> *final(self) == *old(self),
            r is Some ==> {
                let i = Self::index_of(old(self).plans@, name@);
                &&& final(self).same_but_plans(old(self))
                &&& final(self).plans@ == old(self).plans@.update(i, *final(r->0))
                &&& r->0.exited_from(&old(self).plans@[i], false)
                &&& final(r->0).wf() && final(r->0).name@ == name@ && (old(self).is_active()
                    || !final(r->0).is_active()) ==> final(self).wf()
            },
    {
        match self.priority(name) {
            Ok(pos) => {
                proof {
                    Self::slot_holds_name(self.plans@, name@, pos as int);
                }
                let plan = &mut self.plans[pos];
                plan.exit(false);
                Some(plan)
            },
            Err(_) => None,
        }
    }

    /// What `enter_plan` with `name` makes of the plan `before`, once the
    /// subplan that it returns is let go unchanged.
    pub open spec fn with_entered(&self, before: &Plan<C>, name: Seq<char>) -> bool {
        if !before.is_active() {
            *self == *before
        } else {
            let i = Self::slot_of(before.plans@, name);
            &&& self.same_but_plans(before)
            &&& 0 <= i < self.plans@.len()
            &&& if Self::has_name(before.plans@, name) {
                &&& self.plans@ == before.plans@.update(i, self.plans@[i])
                &&& self.plans@[i].entered_from(&before.plans@[i])
            } else {
                &&& self.plans@ == before.plans@.insert(i, self.plans@[i])
                &&& self.plans@[i].is_blank(name, false, 0)
            }
        }
    }

    /// What `exit_plan` with `name` makes of the plan `before`, once the
    /// subplan that it returns is let go unchanged.
    pub open spec fn with_exited(&self, before: &Plan<C>, name: Seq<char>) -> bool {
        if !Self::has_name(before.plans@, name) {
            *self == *before
        } else {
            let i = Self::index_of(before.plans@, name);
            &&& self.same_but_plans(before)
            &&& self.plans@ == before.plans@.update(i, self.plans@[i])
            &&& self.plans@[i].exited_from(&before.plans@[i], false)
        }
    }

    /// Entering a subplan keeps a well-formed plan well formed; a subplan of
    /// that name is there and active afterwards if the plan is active.
    pub proof fn with_entered_kept(&self, before: &Plan<C>, name: Seq<char>)
        requires
            before.wf(),
            self.with_entered(before, name),
        ensures
            self.kept_from(before),
            !before.is_bare() ==> self.depth() <= before.depth(),
            self.same_but_plans(before),
            before.is_active() ==> Self::has_name(self.plans@, name) && self.plans@[Self::index_of(
                self.plans@,
                name,
            )].is_active(),
    {
        if before.is_active() {
            let i = Self::slot_of(before.plans@, name);
            Self::existing_slot(before.plans@, name);
            if Self::has_name(before.plans@, name) {
                Self::slot_holds_name(before.plans@, name, i);
                self.subplan_replaced(before, i);
            } else {
                assert(self.plans@[i].depth() == 0);
                assert(self.plans@[i].wf());
                self.subplan_added(before, i);
            }
            assert(self.plans@[i].name@ == name);
            assert(Self::names_sorted(self.plans@));
            let k = Self::index_of(self.plans@, name);
            if k != i {
                precedes_irreflexive(name);
                if k < i {
                    assert(precedes(self.plans@[k].name@, self.plans@[i].name@));
                } else {
                    assert(precedes(self.plans@[i].name@, self.plans@[k].name@));
                }
            }
        }
    }

    /// Exiting a subplan keeps a well-formed plan well formed and no deeper.
    pub proof fn with_exited_kept(&self, before: &Plan<C>, name: Seq<char>)
        requires
            before.wf(),
            self.with_exited(before, name),
        ensures
            self.wf(),
            self.depth() <= before.depth(),
            self.same_but_plans(before),
            self.plans@.len() == before.plans@.len(),
    {
        if Self::has_name(before.plans@, name) {
            let i = Self::index_of(before.plans@, name);
            self.subplan_replaced(before, i);
        }
    }

    /// In sorted subplans every name has its place.
    pub proof fn existing_slot(plans: Seq<Plan<C>>, name: Seq<char>)
        requires
            Self::names_sorted(plans),
        ensures
            Self::is_slot(plans, name, Self::slot_of(plans, name)),
        decreases plans.len(),
    {
        if plans.len() == 0 {
            assert(Self::is_slot(plans, name, 0));
        } else {
            let front = plans.drop_last();
            assert forall|i: int, j: int|
                #![trigger front[i], front[j]]
                0 <= i < j < front.len() implies precedes(front[i].name@, front[j].name@) by {
                assert(precedes(plans[i].name@, plans[j].name@));
            }
            Self::existing_slot(front, name);
            let k = Self::slot_of(front, name);
            let n = plans.len() - 1;
            if precedes(plans[n].name@, name) {
                assert forall|j: int| 0 <= j < n + 1 implies precedes(
                    (#[trigger] plans[j]).name@,
                    name,
                ) by {
                    if j < n {
                        assert(precedes(plans[j].name@, plans[n].name@));
                        precedes_transitive(plans[j].name@, plans[n].name@, name);
                    }
                }
                assert(Self::is_slot(plans, name, n + 1));
            } else {
                assert forall|j: int| 0 <= j < k implies precedes(
                    (#[trigger] plans[j]).name@,
                    name,
                ) by {
                    assert(precedes(front[j].name@, name));
                }
                assert forall|j: int| k <= j < plans.len() implies !precedes(
                    (#[trigger] plans[j]).name@,
                    name,
                ) by {
                    if j < n {
                        assert(!precedes(front[j].name@, name));
                    }
                }
                assert(Self::is_slot(plans, name, k));
            }
        }
    }

    /// `enter_plan`, for a caller that does not use the subplan.
    pub(crate) fn enter_named(&mut self, name: &str)
        requires
            old(self).wf(),
        ensures
            final(self).with_entered(old(self), name@),
            final(self).wf(),
    {
        let ghost i = Self::slot_of(self.plans@, name@);
        let _ = self.enter_plan(name);
        proof {
            if old(self).is_active() {
                if !Self::has_name(old(self).plans@, name@) {
                    assert(self.plans@[i].is_blank(name@, false, 0));
                } else {
                    assert(self.plans@[i].entered_from(&old(self).plans@[i]));
                }
            }
            self.with_entered_kept(old(self), name@);
        }
    }

    /// `exit_plan`, for a caller that does not use the subplan.
    pub(crate) fn exit_named(&mut self, name: &str)
        requires
            old(self).wf(),
        ensures
            final(self).with_exited(old(self), name@),
            final(self).wf(),
    {
        let _ = self.exit_plan(name);
        proof {
            self.with_exited_kept(old(self), name@);
        }
    }

    /// Inserts `plan` as a subplan, at the place of its name and in place
    /// of a subplan of that name, and returns it.
    ///
    /// In an active plan a subplan with `autostart` is entered first; for an
    /// inactive plan an active subplan is exited first. A subplan that gives
    /// way is exited before it is let go.
    pub fn insert(&mut self, plan: Self) -> (r: &mut Self)
        requires
            old(self).wf(),
            plan.wf(),
        ensures
            Self::is_slot(old(self).plans@, plan.name@, Self::slot_of(old(self).plans@, plan.name@)),
            final(self).same_but_plans(old(self)),
            final(self).plans@ == (if Self::has_name(old(self).plans@, plan.name@) {
                old(self).plans@.update(Self::slot_of(old(self).plans@, plan.name@), *final(r))
            } else {
                old(self).plans@.insert(Self::slot_of(old(self).plans@, plan.name@), *final(r))
            }),
            if old(self).is_active() {
                if plan.autostart {
                    r.entered_from(&plan)
                } else {
                    *r == plan
                }
            } else {
                r.exited_from(&plan, false)
            },
            final(r).wf() && final(r).name@ == plan.name@ && (final(r).is_active() ==> old(
                self,
            ).is_active()) ==> final(self).wf(),
    {
        let mut plan = plan;
        if self.active() {
            if !plan.active() && plan.autostart {
                plan.enter();
            }
        } else if plan.active() {
            plan.exit(false);
        }
        match self.priority(plan.name.as_str()) {
            Ok(pos) => {
                proof {
                    Self::slot_exists(self.plans@, plan.name@, pos as int);
                }
                core::mem::swap(&mut self.plans[pos], &mut plan);
                plan.exit(false);
                &mut self.plans[pos]
            },
            Err(pos) => {
                proof {
                    Self::slot_exists(self.plans@, plan.name@, pos as int);
                    Self::slot_splits(self.plans@, plan.name@, pos as int);
                }
                self.plans.insert(pos, plan);
                &mut self.plans[pos]
            },
        }
    }

    /// `plans` with `plan` put at the place of its name, in place of the plan
    /// of that name if there is one.
    pub open spec fn put(plans: Seq<Plan<C>>, plan: Plan<C>) -> Seq<Plan<C>> {
        let i = Self::slot_of(plans, plan.name@);
        if Self::has_name(plans, plan.name@) {
            plans.update(i, plan)
        } else {
            plans.insert(i, plan)
        }
    }

    /// The plans of `plans` put together one after another, each at the
    /// place of its name; of two plans of one name the later stays.
    pub open spec fn gathered(plans: Seq<Plan<C>>) -> Seq<Plan<C>> {
        plans.fold_left(Seq::<Plan<C>>::empty(), |all: Seq<Plan<C>>, plan: Plan<C>| Self::put(all, plan))
    }

    /// Plans that stand in the order of their names are put together as
    /// they stand.
    pub proof fn gathered_in_order(plans: Seq<Plan<C>>)
        requires
            Self::names_sorted(plans),
        ensures
            Self::gathered(plans) == plans,
        decreases plans.len(),
    {
        if plans.len() > 0 {
            let front = plans.drop_last();
            let last = plans.last();
            assert forall|i: int, j: int|
                #![trigger front[i], front[j]]
                0 <= i < j < front.len() implies precedes(front[i].name@, front[j].name@) by {
                assert(precedes(plans[i].name@, plans[j].name@));
            }
            Self::gathered_in_order(front);
            assert forall|j: int| 0 <= j < front.len() implies precedes(
                (#[trigger] front[j]).name@,
                last.name@,
            ) by {
                assert(precedes(plans[j].name@, plans[plans.len() - 1].name@));
            }
            assert(Self::is_slot(front, last.name@, front.len() as int));
            Self::slot_exists(front, last.name@, front.len() as int);
            Self::slot_holds_name(front, last.name@, front.len() as int);
            assert(Self::put(front, last) =~= plans);
        }
    }

    /// Puts a plan together from its parts. The plan is inactive, as its
    /// subplans are to be; the subplans are put in the order of their names,
    /// and of two subplans of one name the later stays.
    pub fn from_parts(
        name: &str,
        run_interval: u32,
        autostart: bool,
        behaviour: Option<Box<C::Behaviour>>,
        transitions: Vec<Transition<C::Predicate>>,
        plans: Vec<Plan<C>>,
        data: HashMap<String, serde_value::Value>,
    ) -> (r: Self)
        requires
            forall|i: int|
                0 <= i < plans@.len() ==> (#[trigger] plans@[i]).wf() && !plans@[i].is_active(),
        ensures
            r.name@ == name@,
            r.run_countdown == u32::MAX,
            r.run_interval == run_interval,
            r.autostart == autostart,
            r.behaviour == behaviour,
            r.transitions == transitions,
            r.data == data,
            r.plans@ == Self::gathered(plans@),
            r.wf(),
    {
        let mut plan = Self::new_stub(name, autostart);
        plan.run_interval = run_interval;
        plan.behaviour = behaviour;
        plan.transitions = transitions;
        plan.data = data;
        let ghost put = |all: Seq<Plan<C>>, plan: Plan<C>| Self::put(all, plan);
        let ghost empty = Seq::<Plan<C>>::empty();
        let mut rest = plans;
        let ghost mut done: Seq<Plan<C>> = Seq::empty();
        while rest.len() > 0
            invariant
                done + rest@ =~= plans@,
                plan.plans@ == done.fold_left(empty, put),
                plan.wf(),
                !plan.is_active(),
                plan.name@ == name@,
                plan.run_interval == run_interval,
                plan.autostart == autostart,
                plan.behaviour == behaviour,
                plan.transitions == transitions,
                plan.data == data,
                put == |all: Seq<Plan<C>>, plan: Plan<C>| Self::put(all, plan),
                empty == Seq::<Plan<C>>::empty(),
                forall|i: int|
                    0 <= i < plans@.len() ==> (#[trigger] plans@[i]).wf() && !plans@[i].is_active(),
            decreases rest@.len(),
        {
            let ghost first = rest@[0];
            assert(first == plans@[done.len() as int]);
            let child = rest.remove(0);
            let ghost before = plan.plans@;
            plan.insert(child);
            proof {
                first.exited_as_is();
                assert(plan.plans@ == Self::put(before, first));
                assert(done.push(first).drop_last() =~= done);
                done = done.push(first);
            }
        }
        proof {
            assert(done =~= plans@);
        }
        plan
    }

    /// The behaviour as a `B`, if it is of that variant.
    pub fn cast<B>(&self) -> (r: Option<&B>) where C::Behaviour: EnumRef<B>
        ensures
            match r {
                Some(b) => self.behaviour is Some && self.behaviour->0.held() == Some(*b),
                None => self.behaviour is None || self.behaviour->0.held() is None,
            },
    {
        match &self.behaviour {
            Some(b) => b.enum_ref(),
            None => None,
        }
    }

    /// The behaviour as a `B`, if it is of that variant, to be changed in
    /// place.
    pub fn cast_mut<B>(&mut self) -> (r: Option<&mut B>) where C::Behaviour: EnumRef<B>
        ensures
            final(self).same_settings_but_behaviour(old(self)),
            match r {
                Some(b) => old(self).behaviour is Some && old(self).behaviour->0.held() == Some(*b)
                    && final(self).behaviour is Some && final(self).behaviour->0.held() == Some(
                    *final(b),
                ),
                None => final(self).behaviour == old(self).behaviour && (old(self).behaviour is None
                    || old(self).behaviour->0.held() is None),
            },
    {
        match &mut self.behaviour {
            Some(b) => b.enum_mut(),
            None => None,
        }
    }

    /// The behaviour of the subplan of that name as a `B`.
    pub fn get_cast<B>(&self, name: &str) -> (r: Option<&B>) where C::Behaviour: EnumRef<B>
        requires
            Self::names_sorted(self.plans@),
        ensures
            match r {
                Some(b) => Self::has_name(self.plans@, name@) && {
                    let p = self.plans@[Self::index_of(self.plans@, name@)];
                    p.behaviour is Some && p.behaviour->0.held() == Some(*b)
                },
                None => !Self::has_name(self.plans@, name@) || {
                    let p = self.plans@[Self::index_of(self.plans@, name@)];
                    p.behaviour is None || p.behaviour->0.held() is None
                },
            },
    {
        match self.get(name) {
            Some(plan) => plan.cast::<B>(),
            None => None,
        }
    }

    /// The behaviour of the subplan of that name as a `B`, to be changed in
    /// place.
    pub fn get_cast_mut<B>(&mut self, name: &str) -> (r: Option<&mut B>) where
        C::Behaviour: EnumRef<B>,

        requires
            Self::names_sorted(old(self).plans@),
        ensures
            final(self).same_but_plans(old(self)),
            final(self).plans@.len() == old(self).plans@.len(),
            match r {
                Some(b) => Self::has_name(old(self).plans@, name@) && {
                    let i = Self::index_of(old(self).plans@, name@);
                    let p = old(self).plans@[i];
                    let q = final(self).plans@[i];
                    &&& p.behaviour is Some && p.behaviour->0.held() == Some(*b)
                    &&& q.behaviour is Some && q.behaviour->0.held() == Some(*final(b))
                    &&& final(self).plans@ == old(self).plans@.update(i, q)
                    &&& q.same_settings_but_behaviour(&p)
                },
                None => final(self).plans@ =~= old(self).plans@ && (!Self::has_name(
                    old(self).plans@,
                    name@,
                ) || {
                    let p = old(self).plans@[Self::index_of(old(self).plans@, name@)];
                    p.behaviour is None || p.behaviour->0.held() is None
                }),
            },
    {
        match self.get_mut(name) {
            Some(plan) => plan.cast_mut::<B>(),
            None => None,
        }
    }
}

} // verus!
