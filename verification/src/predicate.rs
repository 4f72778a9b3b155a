//! Predicates over a plan and a list of names of its subplans: constants,
//! logical connectives, and what the statuses of the subplans add up to.

use crate::behaviour::Behaviour;
use crate::enum_cast::{any_mut, cast_ref, seen_as, EnumCast, EnumRef};
use crate::plan::{Config, Kinds, Plan};
use vstd::prelude::*;

verus! {

/// A boolean function of a plan and of the names that a transition starts
/// from; an empty list of names stands for all subplans.
pub trait Predicate<C: Kinds>: Sized {
    /// What `evaluate` returns. An implementation states it here.
    open spec fn holds(&self, plan: &Plan<C>, src: Seq<String>) -> bool {
        false
    }

    fn evaluate(&self, plan: &Plan<C>, src: &[String]) -> (r: bool)
        requires
            plan.wf(),
        ensures
            r == self.holds(plan, src@),
    ;
}

/// Every member of `s` is true.
pub open spec fn all_true(s: Seq<bool>) -> bool {
    forall|i: int| 0 <= i < s.len() ==> s[i]
}

/// Some member of `s` is true.
pub open spec fn any_true(s: Seq<bool>) -> bool {
    exists|i: int| 0 <= i < s.len() && s[i]
}

/// The number of members of `s` that are true.
pub open spec fn count_true(s: Seq<bool>) -> nat {
    s.filter(|b: bool| b).len()
}

/// An odd number of members of `s` are true.
pub open spec fn odd_true(s: Seq<bool>) -> bool {
    count_true(s) % 2 == 1
}

/// What each predicate of `list` says of `plan` and `src`.
pub open spec fn verdicts<C: Kinds, P: Predicate<C>>(
    list: Seq<P>,
    plan: &Plan<C>,
    src: Seq<String>,
) -> Seq<bool> {
    Seq::new(list.len(), |i: int| list[i].holds(plan, src))
}

/// Counting one member more adds it to the count.
pub proof fn count_true_step(s: Seq<bool>, i: int)
    requires
        0 <= i < s.len(),
    ensures
        count_true(s.take(i + 1)) == count_true(s.take(i)) + if s[i] {
            1nat
        } else {
            0nat
        },
        count_true(s.take(0)) == 0,
{
    assert(s.take(i + 1) =~= s.take(i).push(s[i]));
    s.take(i).lemma_filter_len_push(|b: bool| b, s[i]);
    s.take(0).lemma_filter_len(|b: bool| b);
}

/// Whether all predicates of `list` hold, the first that fails ending the
/// search.
pub fn evaluate_all<C: Kinds, P: Predicate<C>>(list: &Vec<P>, plan: &Plan<C>, src: &[String]) -> (r:
    bool)
    requires
        plan.wf(),
    ensures
        r == all_true(verdicts(list@, plan, src@)),
{
    let mut i: usize = 0;
    while i < list.len()
        invariant
            0 <= i <= list@.len(),
            plan.wf(),
            forall|j: int| 0 <= j < i ==> verdicts(list@, plan, src@)[j],
        decreases list@.len() - i,
    {
        if !list[i].evaluate(plan, src) {
            assert(!verdicts(list@, plan, src@)[i as int]);
            return false;
        }
        i += 1;
    }
    true
}

/// Whether a predicate of `list` holds, the first that does ending the
/// search.
pub fn evaluate_any<C: Kinds, P: Predicate<C>>(list: &Vec<P>, plan: &Plan<C>, src: &[String]) -> (r:
    bool)
    requires
        plan.wf(),
    ensures
        r == any_true(verdicts(list@, plan, src@)),
{
    let mut i: usize = 0;
    while i < list.len()
        invariant
            0 <= i <= list@.len(),
            plan.wf(),
            forall|j: int| 0 <= j < i ==> !verdicts(list@, plan, src@)[j],
        decreases list@.len() - i,
    {
        if list[i].evaluate(plan, src) {
            assert(verdicts(list@, plan, src@)[i as int]);
            return true;
        }
        i += 1;
    }
    false
}

/// Whether an odd number of the predicates of `list` hold.
pub fn evaluate_odd<C: Kinds, P: Predicate<C>>(list: &Vec<P>, plan: &Plan<C>, src: &[String]) -> (r:
    bool)
    requires
        plan.wf(),
    ensures
        r == odd_true(verdicts(list@, plan, src@)),
{
    let ghost v = verdicts(list@, plan, src@);
    let mut odd = false;
    let mut i: usize = 0;
    while i < list.len()
        invariant
            0 <= i <= list@.len(),
            plan.wf(),
            v == verdicts(list@, plan, src@),
            odd == (count_true(v.take(i as int)) % 2 == 1),
        decreases list@.len() - i,
    {
        proof {
            count_true_step(v, i as int);
        }
        if list[i].evaluate(plan, src) {
            odd = !odd;
        }
        i += 1;
    }
    assert(v.take(i as int) =~= v);
    odd
}

/// Holds always.
pub struct True;

/// Holds never.
pub struct False;

/// Holds if all of its predicates hold.
pub struct And<P>(pub Vec<P>);

/// Holds if one of its predicates holds.
pub struct Or<P>(pub Vec<P>);

/// Holds if an odd number of its predicates hold.
pub struct Xor<P>(pub Vec<P>);

/// Holds if its predicate does not.
pub struct Not<P>(pub Box<P>);

/// Holds unless all of its predicates hold.
pub struct Nand<P>(pub Vec<P>);

/// Holds if none of its predicates holds.
pub struct Nor<P>(pub Vec<P>);

/// Holds if an even number of its predicates hold.
pub struct Xnor<P>(pub Vec<P>);

/// Holds if every subplan in question has succeeded.
pub struct AllSuccess;

/// Holds if a subplan in question has succeeded.
pub struct AnySuccess;

/// Holds if every subplan in question has failed.
pub struct AllFailure;

/// Holds if a subplan in question has failed.
pub struct AnyFailure;

impl<C: Kinds> Predicate<C> for True {
    open spec fn holds(&self, plan: &Plan<C>, src: Seq<String>) -> bool {
        true
    }

    fn evaluate(&self, plan: &Plan<C>, src: &[String]) -> (r: bool) {
        true
    }
}

impl<C: Kinds> Predicate<C> for False {
    open spec fn holds(&self, plan: &Plan<C>, src: Seq<String>) -> bool {
        false
    }

    fn evaluate(&self, plan: &Plan<C>, src: &[String]) -> (r: bool) {
        false
    }
}

impl<C: Kinds, P: Predicate<C>> Predicate<C> for And<P> {
    open spec fn holds(&self, plan: &Plan<C>, src: Seq<String>) -> bool {
        all_true(verdicts(self.0@, plan, src))
    }

    fn evaluate(&self, plan: &Plan<C>, src: &[String]) -> (r: bool) {
        evaluate_all(&self.0, plan, src)
    }
}

impl<C: Kinds, P: Predicate<C>> Predicate<C> for Or<P> {
    open spec fn holds(&self, plan: &Plan<C>, src: Seq<String>) -> bool {
        any_true(verdicts(self.0@, plan, src))
    }

    fn evaluate(&self, plan: &Plan<C>, src: &[String]) -> (r: bool) {
        evaluate_any(&self.0, plan, src)
    }
}

impl<C: Kinds, P: Predicate<C>> Predicate<C> for Xor<P> {
    open spec fn holds(&self, plan: &Plan<C>, src: Seq<String>) -> bool {
        odd_true(verdicts(self.0@, plan, src))
    }

    fn evaluate(&self, plan: &Plan<C>, src: &[String]) -> (r: bool) {
        evaluate_odd(&self.0, plan, src)
    }
}

impl<C: Kinds, P: Predicate<C>> Predicate<C> for Not<P> {
    open spec fn holds(&self, plan: &Plan<C>, src: Seq<String>) -> bool {
        !self.0.holds(plan, src)
    }

    fn evaluate(&self, plan: &Plan<C>, src: &[String]) -> (r: bool) {
        !self.0.evaluate(plan, src)
    }
}

impl<C: Kinds, P: Predicate<C>> Predicate<C> for Nand<P> {
    open spec fn holds(&self, plan: &Plan<C>, src: Seq<String>) -> bool {
        !all_true(verdicts(self.0@, plan, src))
    }

    fn evaluate(&self, plan: &Plan<C>, src: &[String]) -> (r: bool) {
        !evaluate_all(&self.0, plan, src)
    }
}

impl<C: Kinds, P: Predicate<C>> Predicate<C> for Nor<P> {
    open spec fn holds(&self, plan: &Plan<C>, src: Seq<String>) -> bool {
        !any_true(verdicts(self.0@, plan, src))
    }

    fn evaluate(&self, plan: &Plan<C>, src: &[String]) -> (r: bool) {
        !evaluate_any(&self.0, plan, src)
    }
}

impl<C: Kinds, P: Predicate<C>> Predicate<C> for Xnor<P> {
    open spec fn holds(&self, plan: &Plan<C>, src: Seq<String>) -> bool {
        !odd_true(verdicts(self.0@, plan, src))
    }

    fn evaluate(&self, plan: &Plan<C>, src: &[String]) -> (r: bool) {
        !evaluate_odd(&self.0, plan, src)
    }
}

/// The subplan at place `i` is in question: no names are given, or its name
/// is among them.
pub open spec fn in_question<C: Kinds>(plan: &Plan<C>, src: Seq<String>, i: int) -> bool {
    &&& 0 <= i < plan.plans@.len()
    &&& src.len() == 0 || exists|k: int| 0 <= k < src.len() && (#[trigger] src[k])@ == plan.plans@[i].name@
}

/// What a status counts for where a status in progress counts for
/// `none_val`.
pub open spec fn counted(status: Option<bool>, none_val: bool) -> bool {
    match status {
        Some(b) => b,
        None => none_val,
    }
}

/// Every subplan in question has the status `status`.
pub open spec fn every_status<C: Config>(plan: &Plan<C>, src: Seq<String>, status: Option<bool>) -> bool
{
    forall|i: int| in_question(plan, src, i) ==> (#[trigger] plan.plans@[i]).status_of() == status
}

/// A subplan in question has the status `status`.
pub open spec fn some_status<C: Config>(plan: &Plan<C>, src: Seq<String>, status: Option<bool>) -> bool
{
    exists|i: int| in_question(plan, src, i) && (#[trigger] plan.plans@[i]).status_of() == status
}

/// Whether the status of every subplan in question counts for true.
fn all_success<C: Config>(plan: &Plan<C>, src: &[String], none_val: bool) -> (r: bool)
    requires
        plan.wf(),
    ensures
        r == forall|i: int|
            in_question(plan, src@, i) ==> counted((#[trigger] plan.plans@[i]).status_of(), none_val),
{
    if src.len() == 0 {
        let mut i: usize = 0;
        while i < plan.plans.len()
            invariant
                0 <= i <= plan.plans@.len(),
                plan.wf(),
                src@.len() == 0,
                forall|j: int| 0 <= j < i ==> counted((#[trigger] plan.plans@[j]).status_of(), none_val),
            decreases plan.plans@.len() - i,
        {
            let counts = match plan.plans[i].status() {
                Some(b) => b,
                None => none_val,
            };
            if !counts {
                assert(in_question(plan, src@, i as int));
                return false;
            }
            i += 1;
        }
        true
    } else {
        let mut k: usize = 0;
        while k < src.len()
            invariant
                0 <= k <= src@.len(),
                plan.wf(),
                src@.len() > 0,
                forall|i: int, j: int|
                    0 <= j < k && 0 <= i < plan.plans@.len() && (#[trigger] src@[j])@
                        == plan.plans@[i].name@ ==> counted(
                        (#[trigger] plan.plans@[i]).status_of(),
                        none_val,
                    ),
            decreases src@.len() - k,
        {
            match plan.get(src[k].as_str()) {
                Some(p) => {
                    let counts = match p.status() {
                        Some(b) => b,
                        None => none_val,
                    };
                    if !counts {
                        assert(in_question(plan, src@, Plan::<C>::index_of(plan.plans@, src@[k as int]@)));
                        return false;
                    }
                    proof {
                        let found = Plan::<C>::index_of(plan.plans@, src@[k as int]@);
                        assert forall|i: int|
                            0 <= i < plan.plans@.len() && src@[k as int]@
                                == plan.plans@[i].name@ implies i == found by {
                            Plan::<C>::same_name_same_place(plan.plans@, i, found);
                        }
                    }
                },
                None => {},
            }
            k += 1;
        }
        true
    }
}

/// Whether the status of a subplan in question counts for true.
fn any_success<C: Config>(plan: &Plan<C>, src: &[String], none_val: bool) -> (r: bool)
    requires
        plan.wf(),
    ensures
        r == exists|i: int|
            in_question(plan, src@, i) && counted((#[trigger] plan.plans@[i]).status_of(), none_val),
{
    if src.len() == 0 {
        let mut i: usize = 0;
        while i < plan.plans.len()
            invariant
                0 <= i <= plan.plans@.len(),
                plan.wf(),
                src@.len() == 0,
                forall|j: int| 0 <= j < i ==> !counted((#[trigger] plan.plans@[j]).status_of(), none_val),
            decreases plan.plans@.len() - i,
        {
            let counts = match plan.plans[i].status() {
                Some(b) => b,
                None => none_val,
            };
            if counts {
                assert(in_question(plan, src@, i as int));
                return true;
            }
            i += 1;
        }
        false
    } else {
        let mut k: usize = 0;
        while k < src.len()
            invariant
                0 <= k <= src@.len(),
                plan.wf(),
                src@.len() > 0,
                forall|i: int, j: int|
                    0 <= j < k && 0 <= i < plan.plans@.len() && (#[trigger] src@[j])@
                        == plan.plans@[i].name@ ==> !counted(
                        (#[trigger] plan.plans@[i]).status_of(),
                        none_val,
                    ),
            decreases src@.len() - k,
        {
            match plan.get(src[k].as_str()) {
                Some(p) => {
                    let counts = match p.status() {
                        Some(b) => b,
                        None => none_val,
                    };
                    if counts {
                        assert(in_question(plan, src@, Plan::<C>::index_of(plan.plans@, src@[k as int]@)));
                        return true;
                    }
                    proof {
                        let found = Plan::<C>::index_of(plan.plans@, src@[k as int]@);
                        assert forall|i: int|
                            0 <= i < plan.plans@.len() && src@[k as int]@
                                == plan.plans@[i].name@ implies i == found by {
                            Plan::<C>::same_name_same_place(plan.plans@, i, found);
                        }
                    }
                },
                None => {},
            }
            k += 1;
        }
        false
    }
}

impl<C: Config> Predicate<C> for AllSuccess {
    open spec fn holds(&self, plan: &Plan<C>, src: Seq<String>) -> bool {
        every_status(plan, src, Some(true))
    }

    fn evaluate(&self, plan: &Plan<C>, src: &[String]) -> (r: bool) {
        all_success(plan, src, false)
    }
}

impl<C: Config> Predicate<C> for AnySuccess {
    open spec fn holds(&self, plan: &Plan<C>, src: Seq<String>) -> bool {
        some_status(plan, src, Some(true))
    }

    fn evaluate(&self, plan: &Plan<C>, src: &[String]) -> (r: bool) {
        any_success(plan, src, false)
    }
}

impl<C: Config> Predicate<C> for AllFailure {
    open spec fn holds(&self, plan: &Plan<C>, src: Seq<String>) -> bool {
        every_status(plan, src, Some(false))
    }

    fn evaluate(&self, plan: &Plan<C>, src: &[String]) -> (r: bool) {
        !any_success(plan, src, true)
    }
}

impl<C: Config> Predicate<C> for AnyFailure {
    open spec fn holds(&self, plan: &Plan<C>, src: Seq<String>) -> bool {
        some_status(plan, src, Some(false))
    }

    fn evaluate(&self, plan: &Plan<C>, src: &[String]) -> (r: bool) {
        !all_success(plan, src, true)
    }
}

/// The predicates of this library as one type, closed under the
/// connectives.
pub enum Predicates {
    True(True),
    False(False),
    And(And<Predicates>),
    Or(Or<Predicates>),
    Xor(Xor<Predicates>),
    Not(Not<Predicates>),
    Nand(Nand<Predicates>),
    Nor(Nor<Predicates>),
    Xnor(Xnor<Predicates>),
    AllSuccess(AllSuccess),
    AnySuccess(AnySuccess),
    AllFailure(AllFailure),
    AnyFailure(AnyFailure),
}

/// What the predicate `p` says of `plan` and `src`.
pub open spec fn predicates_hold<C: Config>(p: &Predicates, plan: &Plan<C>, src: Seq<String>) -> bool
    decreases p, 0nat
{
    match p {
        Predicates::True(_) => true,
        Predicates::False(_) => false,
        Predicates::And(a) => all_true(predicates_verdicts(a.0@, plan, src)),
        Predicates::Or(a) => any_true(predicates_verdicts(a.0@, plan, src)),
        Predicates::Xor(a) => odd_true(predicates_verdicts(a.0@, plan, src)),
        Predicates::Not(a) => !predicates_hold(&*a.0, plan, src),
        Predicates::Nand(a) => !all_true(predicates_verdicts(a.0@, plan, src)),
        Predicates::Nor(a) => !any_true(predicates_verdicts(a.0@, plan, src)),
        Predicates::Xnor(a) => !odd_true(predicates_verdicts(a.0@, plan, src)),
        Predicates::AllSuccess(_) => every_status(plan, src, Some(true)),
        Predicates::AnySuccess(_) => some_status(plan, src, Some(true)),
        Predicates::AllFailure(_) => every_status(plan, src, Some(false)),
        Predicates::AnyFailure(_) => some_status(plan, src, Some(false)),
    }
}

/// What each predicate of `list` says of `plan` and `src`.
pub open spec fn predicates_verdicts<C: Config>(
    list: Seq<Predicates>,
    plan: &Plan<C>,
    src: Seq<String>,
) -> Seq<bool>
    decreases list, 1nat
{
    Seq::new(
        list.len(),
        |i: int|
            if 0 <= i < list.len() {
                predicates_hold(&list[i], plan, src)
            } else {
                false
            },
    )
}

/// Whether `p` holds of `plan` and `src`.
fn evaluate_predicates<C: Config>(p: &Predicates, plan: &Plan<C>, src: &[String]) -> (r: bool)
    requires
        plan.wf(),
    ensures
        r == predicates_hold(p, plan, src@),
    decreases p, 0nat
{
    match p {
        Predicates::True(_) => true,
        Predicates::False(_) => false,
        Predicates::And(a) => all_of_predicates(&a.0, plan, src),
        Predicates::Or(a) => any_of_predicates(&a.0, plan, src),
        Predicates::Xor(a) => odd_of_predicates(&a.0, plan, src),
        Predicates::Not(a) => !evaluate_predicates(&*a.0, plan, src),
        Predicates::Nand(a) => !all_of_predicates(&a.0, plan, src),
        Predicates::Nor(a) => !any_of_predicates(&a.0, plan, src),
        Predicates::Xnor(a) => !odd_of_predicates(&a.0, plan, src),
        Predicates::AllSuccess(_) => all_success(plan, src, false),
        Predicates::AnySuccess(_) => any_success(plan, src, false),
        Predicates::AllFailure(_) => !any_success(plan, src, true),
        Predicates::AnyFailure(_) => !all_success(plan, src, true),
    }
}

/// Whether all of `list` hold, the first that fails ending the search.
fn all_of_predicates<C: Config>(list: &Vec<Predicates>, plan: &Plan<C>, src: &[String]) -> (r: bool)
    requires
        plan.wf(),
    ensures
        r == all_true(predicates_verdicts(list@, plan, src@)),
    decreases list@, 1nat
{
    let mut i: usize = 0;
    while i < list.len()
        invariant
            0 <= i <= list@.len(),
            plan.wf(),
            forall|j: int| 0 <= j < i ==> predicates_verdicts(list@, plan, src@)[j],
        decreases list@.len() - i,
    {
        if !evaluate_predicates(&list[i], plan, src) {
            assert(!predicates_verdicts(list@, plan, src@)[i as int]);
            return false;
        }
        i += 1;
    }
    true
}

/// Whether one of `list` holds, the first that does ending the search.
fn any_of_predicates<C: Config>(list: &Vec<Predicates>, plan: &Plan<C>, src: &[String]) -> (r: bool)
    requires
        plan.wf(),
    ensures
        r == any_true(predicates_verdicts(list@, plan, src@)),
    decreases list@, 1nat
{
    let mut i: usize = 0;
    while i < list.len()
        invariant
            0 <= i <= list@.len(),
            plan.wf(),
            forall|j: int| 0 <= j < i ==> !predicates_verdicts(list@, plan, src@)[j],
        decreases list@.len() - i,
    {
        if evaluate_predicates(&list[i], plan, src) {
            assert(predicates_verdicts(list@, plan, src@)[i as int]);
            return true;
        }
        i += 1;
    }
    false
}

/// Whether an odd number of `list` hold.
fn odd_of_predicates<C: Config>(list: &Vec<Predicates>, plan: &Plan<C>, src: &[String]) -> (r: bool)
    requires
        plan.wf(),
    ensures
        r == odd_true(predicates_verdicts(list@, plan, src@)),
    decreases list@, 1nat
{
    let ghost v = predicates_verdicts(list@, plan, src@);
    let mut odd = false;
    let mut i: usize = 0;
    while i < list.len()
        invariant
            0 <= i <= list@.len(),
            plan.wf(),
            v == predicates_verdicts(list@, plan, src@),
            odd == (count_true(v.take(i as int)) % 2 == 1),
        decreases list@.len() - i,
    {
        proof {
            count_true_step(v, i as int);
        }
        if evaluate_predicates(&list[i], plan, src) {
            odd = !odd;
        }
        i += 1;
    }
    assert(v.take(i as int) =~= v);
    odd
}

impl<C: Config> Predicate<C> for Predicates {
    open spec fn holds(&self, plan: &Plan<C>, src: Seq<String>) -> bool {
        predicates_hold(self, plan, src)
    }

    fn evaluate(&self, plan: &Plan<C>, src: &[String]) -> (r: bool) {
        evaluate_predicates(self, plan, src)
    }
}

/// A predicate wrapped in `Predicates` says what it says by itself.
pub proof fn predicates_agree<C: Config>(p: &Predicates, plan: &Plan<C>, src: Seq<String>)
    ensures
        match p {
            Predicates::True(a) => p.holds(plan, src) == a.holds(plan, src),
            Predicates::False(a) => p.holds(plan, src) == a.holds(plan, src),
            Predicates::And(a) => p.holds(plan, src) == a.holds(plan, src),
            Predicates::Or(a) => p.holds(plan, src) == a.holds(plan, src),
            Predicates::Xor(a) => p.holds(plan, src) == a.holds(plan, src),
            Predicates::Not(a) => p.holds(plan, src) == a.holds(plan, src),
            Predicates::Nand(a) => p.holds(plan, src) == a.holds(plan, src),
            Predicates::Nor(a) => p.holds(plan, src) == a.holds(plan, src),
            Predicates::Xnor(a) => p.holds(plan, src) == a.holds(plan, src),
            Predicates::AllSuccess(a) => p.holds(plan, src) == a.holds(plan, src),
            Predicates::AnySuccess(a) => p.holds(plan, src) == a.holds(plan, src),
            Predicates::AllFailure(a) => p.holds(plan, src) == a.holds(plan, src),
            Predicates::AnyFailure(a) => p.holds(plan, src) == a.holds(plan, src),
        },
{
    match p {
        Predicates::And(a) => {
            assert(predicates_verdicts(a.0@, plan, src) =~= verdicts(a.0@, plan, src));
        },
        Predicates::Or(a) => {
            assert(predicates_verdicts(a.0@, plan, src) =~= verdicts(a.0@, plan, src));
        },
        Predicates::Xor(a) => {
            assert(predicates_verdicts(a.0@, plan, src) =~= verdicts(a.0@, plan, src));
        },
        Predicates::Nand(a) => {
            assert(predicates_verdicts(a.0@, plan, src) =~= verdicts(a.0@, plan, src));
        },
        Predicates::Nor(a) => {
            assert(predicates_verdicts(a.0@, plan, src) =~= verdicts(a.0@, plan, src));
        },
        Predicates::Xnor(a) => {
            assert(predicates_verdicts(a.0@, plan, src) =~= verdicts(a.0@, plan, src));
        },
        _ => {},
    }
}

impl From<True> for Predicates {
    fn from(value: True) -> (r: Self) {
        Predicates::True(value)
    }
}

impl vstd::std_specs::convert::FromSpecImpl<True> for Predicates {
    open spec fn obeys_from_spec() -> bool {
        true
    }

    open spec fn from_spec(value: True) -> Self {
        Predicates::True(value)
    }
}

impl EnumRef<True> for Predicates {
    open spec fn held(&self) -> Option<True> {
        match self {
            Predicates::True(x) => Some(*x),
            _ => None,
        }
    }

    fn enum_ref(&self) -> (r: Option<&True>) {
        match self {
            Predicates::True(x) => Some(x),
            _ => None,
        }
    }

    fn enum_mut(&mut self) -> (r: Option<&mut True>) {
        match self {
            Predicates::True(x) => Some(x),
            _ => None,
        }
    }
}

impl From<False> for Predicates {
    fn from(value: False) -> (r: Self) {
        Predicates::False(value)
    }
}

impl vstd::std_specs::convert::FromSpecImpl<False> for Predicates {
    open spec fn obeys_from_spec() -> bool {
        true
    }

    open spec fn from_spec(value: False) -> Self {
        Predicates::False(value)
    }
}

impl EnumRef<False> for Predicates {
    open spec fn held(&self) -> Option<False> {
        match self {
            Predicates::False(x) => Some(*x),
            _ => None,
        }
    }

    fn enum_ref(&self) -> (r: Option<&False>) {
        match self {
            Predicates::False(x) => Some(x),
            _ => None,
        }
    }

    fn enum_mut(&mut self) -> (r: Option<&mut False>) {
        match self {
            Predicates::False(x) => Some(x),
            _ => None,
        }
    }
}

impl From<And<Predicates>> for Predicates {
    fn from(value: And<Predicates>) -> (r: Self) {
        Predicates::And(value)
    }
}

impl vstd::std_specs::convert::FromSpecImpl<And<Predicates>> for Predicates {
    open spec fn obeys_from_spec() -> bool {
        true
    }

    open spec fn from_spec(value: And<Predicates>) -> Self {
        Predicates::And(value)
    }
}

impl EnumRef<And<Predicates>> for Predicates {
    open spec fn held(&self) -> Option<And<Predicates>> {
        match self {
            Predicates::And(x) => Some(*x),
            _ => None,
        }
    }

    fn enum_ref(&self) -> (r: Option<&And<Predicates>>) {
        match self {
            Predicates::And(x) => Some(x),
            _ => None,
        }
    }

    fn enum_mut(&mut self) -> (r: Option<&mut And<Predicates>>) {
        match self {
            Predicates::And(x) => Some(x),
            _ => None,
        }
    }
}

impl From<Or<Predicates>> for Predicates {
    fn from(value: Or<Predicates>) -> (r: Self) {
        Predicates::Or(value)
    }
}

impl vstd::std_specs::convert::FromSpecImpl<Or<Predicates>> for Predicates {
    open spec fn obeys_from_spec() -> bool {
        true
    }

    open spec fn from_spec(value: Or<Predicates>) -> Self {
        Predicates::Or(value)
    }
}

impl EnumRef<Or<Predicates>> for Predicates {
    open spec fn held(&self) -> Option<Or<Predicates>> {
        match self {
            Predicates::Or(x) => Some(*x),
            _ => None,
        }
    }

    fn enum_ref(&self) -> (r: Option<&Or<Predicates>>) {
        match self {
            Predicates::Or(x) => Some(x),
            _ => None,
        }
    }

    fn enum_mut(&mut self) -> (r: Option<&mut Or<Predicates>>) {
        match self {
            Predicates::Or(x) => Some(x),
            _ => None,
        }
    }
}

impl From<Xor<Predicates>> for Predicates {
    fn from(value: Xor<Predicates>) -> (r: Self) {
        Predicates::Xor(value)
    }
}

impl vstd::std_specs::convert::FromSpecImpl<Xor<Predicates>> for Predicates {
    open spec fn obeys_from_spec() -> bool {
        true
    }

    open spec fn from_spec(value: Xor<Predicates>) -> Self {
        Predicates::Xor(value)
    }
}

impl EnumRef<Xor<Predicates>> for Predicates {
    open spec fn held(&self) -> Option<Xor<Predicates>> {
        match self {
            Predicates::Xor(x) => Some(*x),
            _ => None,
        }
    }

    fn enum_ref(&self) -> (r: Option<&Xor<Predicates>>) {
        match self {
            Predicates::Xor(x) => Some(x),
            _ => None,
        }
    }

    fn enum_mut(&mut self) -> (r: Option<&mut Xor<Predicates>>) {
        match self {
            Predicates::Xor(x) => Some(x),
            _ => None,
        }
    }
}

impl From<Not<Predicates>> for Predicates {
    fn from(value: Not<Predicates>) -> (r: Self) {
        Predicates::Not(value)
    }
}

impl vstd::std_specs::convert::FromSpecImpl<Not<Predicates>> for Predicates {
    open spec fn obeys_from_spec() -> bool {
        true
    }

    open spec fn from_spec(value: Not<Predicates>) -> Self {
        Predicates::Not(value)
    }
}

impl EnumRef<Not<Predicates>> for Predicates {
    open spec fn held(&self) -> Option<Not<Predicates>> {
        match self {
            Predicates::Not(x) => Some(*x),
            _ => None,
        }
    }

    fn enum_ref(&self) -> (r: Option<&Not<Predicates>>) {
        match self {
            Predicates::Not(x) => Some(x),
            _ => None,
        }
    }

    fn enum_mut(&mut self) -> (r: Option<&mut Not<Predicates>>) {
        match self {
            Predicates::Not(x) => Some(x),
            _ => None,
        }
    }
}

impl From<Nand<Predicates>> for Predicates {
    fn from(value: Nand<Predicates>) -> (r: Self) {
        Predicates::Nand(value)
    }
}

impl vstd::std_specs::convert::FromSpecImpl<Nand<Predicates>> for Predicates {
    open spec fn obeys_from_spec() -> bool {
        true
    }

    open spec fn from_spec(value: Nand<Predicates>) -> Self {
        Predicates::Nand(value)
    }
}

impl EnumRef<Nand<Predicates>> for Predicates {
    open spec fn held(&self) -> Option<Nand<Predicates>> {
        match self {
            Predicates::Nand(x) => Some(*x),
            _ => None,
        }
    }

    fn enum_ref(&self) -> (r: Option<&Nand<Predicates>>) {
        match self {
            Predicates::Nand(x) => Some(x),
            _ => None,
        }
    }

    fn enum_mut(&mut self) -> (r: Option<&mut Nand<Predicates>>) {
        match self {
            Predicates::Nand(x) => Some(x),
            _ => None,
        }
    }
}

impl From<Nor<Predicates>> for Predicates {
    fn from(value: Nor<Predicates>) -> (r: Self) {
        Predicates::Nor(value)
    }
}

impl vstd::std_specs::convert::FromSpecImpl<Nor<Predicates>> for Predicates {
    open spec fn obeys_from_spec() -> bool {
        true
    }

    open spec fn from_spec(value: Nor<Predicates>) -> Self {
        Predicates::Nor(value)
    }
}

impl EnumRef<Nor<Predicates>> for Predicates {
    open spec fn held(&self) -> Option<Nor<Predicates>> {
        match self {
            Predicates::Nor(x) => Some(*x),
            _ => None,
        }
    }

    fn enum_ref(&self) -> (r: Option<&Nor<Predicates>>) {
        match self {
            Predicates::Nor(x) => Some(x),
            _ => None,
        }
    }

    fn enum_mut(&mut self) -> (r: Option<&mut Nor<Predicates>>) {
        match self {
            Predicates::Nor(x) => Some(x),
            _ => None,
        }
    }
}

impl From<Xnor<Predicates>> for Predicates {
    fn from(value: Xnor<Predicates>) -> (r: Self) {
        Predicates::Xnor(value)
    }
}

impl vstd::std_specs::convert::FromSpecImpl<Xnor<Predicates>> for Predicates {
    open spec fn obeys_from_spec() -> bool {
        true
    }

    open spec fn from_spec(value: Xnor<Predicates>) -> Self {
        Predicates::Xnor(value)
    }
}

impl EnumRef<Xnor<Predicates>> for Predicates {
    open spec fn held(&self) -> Option<Xnor<Predicates>> {
        match self {
            Predicates::Xnor(x) => Some(*x),
            _ => None,
        }
    }

    fn enum_ref(&self) -> (r: Option<&Xnor<Predicates>>) {
        match self {
            Predicates::Xnor(x) => Some(x),
            _ => None,
        }
    }

    fn enum_mut(&mut self) -> (r: Option<&mut Xnor<Predicates>>) {
        match self {
            Predicates::Xnor(x) => Some(x),
            _ => None,
        }
    }
}

impl From<AllSuccess> for Predicates {
    fn from(value: AllSuccess) -> (r: Self) {
        Predicates::AllSuccess(value)
    }
}

impl vstd::std_specs::convert::FromSpecImpl<AllSuccess> for Predicates {
    open spec fn obeys_from_spec() -> bool {
        true
    }

    open spec fn from_spec(value: AllSuccess) -> Self {
        Predicates::AllSuccess(value)
    }
}

impl EnumRef<AllSuccess> for Predicates {
    open spec fn held(&self) -> Option<AllSuccess> {
        match self {
            Predicates::AllSuccess(x) => Some(*x),
            _ => None,
        }
    }

    fn enum_ref(&self) -> (r: Option<&AllSuccess>) {
        match self {
            Predicates::AllSuccess(x) => Some(x),
            _ => None,
        }
    }

    fn enum_mut(&mut self) -> (r: Option<&mut AllSuccess>) {
        match self {
            Predicates::AllSuccess(x) => Some(x),
            _ => None,
        }
    }
}

impl From<AnySuccess> for Predicates {
    fn from(value: AnySuccess) -> (r: Self) {
        Predicates::AnySuccess(value)
    }
}

impl vstd::std_specs::convert::FromSpecImpl<AnySuccess> for Predicates {
    open spec fn obeys_from_spec() -> bool {
        true
    }

    open spec fn from_spec(value: AnySuccess) -> Self {
        Predicates::AnySuccess(value)
    }
}

impl EnumRef<AnySuccess> for Predicates {
    open spec fn held(&self) -> Option<AnySuccess> {
        match self {
            Predicates::AnySuccess(x) => Some(*x),
            _ => None,
        }
    }

    fn enum_ref(&self) -> (r: Option<&AnySuccess>) {
        match self {
            Predicates::AnySuccess(x) => Some(x),
            _ => None,
        }
    }

    fn enum_mut(&mut self) -> (r: Option<&mut AnySuccess>) {
        match self {
            Predicates::AnySuccess(x) => Some(x),
            _ => None,
        }
    }
}

impl From<AllFailure> for Predicates {
    fn from(value: AllFailure) -> (r: Self) {
        Predicates::AllFailure(value)
    }
}

impl vstd::std_specs::convert::FromSpecImpl<AllFailure> for Predicates {
    open spec fn obeys_from_spec() -> bool {
        true
    }

    open spec fn from_spec(value: AllFailure) -> Self {
        Predicates::AllFailure(value)
    }
}

impl EnumRef<AllFailure> for Predicates {
    open spec fn held(&self) -> Option<AllFailure> {
        match self {
            Predicates::AllFailure(x) => Some(*x),
            _ => None,
        }
    }

    fn enum_ref(&self) -> (r: Option<&AllFailure>) {
        match self {
            Predicates::AllFailure(x) => Some(x),
            _ => None,
        }
    }

    fn enum_mut(&mut self) -> (r: Option<&mut AllFailure>) {
        match self {
            Predicates::AllFailure(x) => Some(x),
            _ => None,
        }
    }
}

impl From<AnyFailure> for Predicates {
    fn from(value: AnyFailure) -> (r: Self) {
        Predicates::AnyFailure(value)
    }
}

impl vstd::std_specs::convert::FromSpecImpl<AnyFailure> for Predicates {
    open spec fn obeys_from_spec() -> bool {
        true
    }

    open spec fn from_spec(value: AnyFailure) -> Self {
        Predicates::AnyFailure(value)
    }
}

impl EnumRef<AnyFailure> for Predicates {
    open spec fn held(&self) -> Option<AnyFailure> {
        match self {
            Predicates::AnyFailure(x) => Some(*x),
            _ => None,
        }
    }

    fn enum_ref(&self) -> (r: Option<&AnyFailure>) {
        match self {
            Predicates::AnyFailure(x) => Some(x),
            _ => None,
        }
    }

    fn enum_mut(&mut self) -> (r: Option<&mut AnyFailure>) {
        match self {
            Predicates::AnyFailure(x) => Some(x),
            _ => None,
        }
    }
}

impl EnumCast for Predicates {
    fn cast<T: 'static>(&self) -> (r: Option<&T>)
        ensures
            match self {
                Predicates::True(x) => seen_as::<True, T>(x, r),
                Predicates::False(x) => seen_as::<False, T>(x, r),
                Predicates::And(x) => seen_as::<And<Predicates>, T>(x, r),
                Predicates::Or(x) => seen_as::<Or<Predicates>, T>(x, r),
                Predicates::Xor(x) => seen_as::<Xor<Predicates>, T>(x, r),
                Predicates::Not(x) => seen_as::<Not<Predicates>, T>(x, r),
                Predicates::Nand(x) => seen_as::<Nand<Predicates>, T>(x, r),
                Predicates::Nor(x) => seen_as::<Nor<Predicates>, T>(x, r),
                Predicates::Xnor(x) => seen_as::<Xnor<Predicates>, T>(x, r),
                Predicates::AllSuccess(x) => seen_as::<AllSuccess, T>(x, r),
                Predicates::AnySuccess(x) => seen_as::<AnySuccess, T>(x, r),
                Predicates::AllFailure(x) => seen_as::<AllFailure, T>(x, r),
                Predicates::AnyFailure(x) => seen_as::<AnyFailure, T>(x, r),
            },
    {
        match self {
            Predicates::True(x) => cast_ref::<True, T>(x),
            Predicates::False(x) => cast_ref::<False, T>(x),
            Predicates::And(x) => cast_ref::<And<Predicates>, T>(x),
            Predicates::Or(x) => cast_ref::<Or<Predicates>, T>(x),
            Predicates::Xor(x) => cast_ref::<Xor<Predicates>, T>(x),
            Predicates::Not(x) => cast_ref::<Not<Predicates>, T>(x),
            Predicates::Nand(x) => cast_ref::<Nand<Predicates>, T>(x),
            Predicates::Nor(x) => cast_ref::<Nor<Predicates>, T>(x),
            Predicates::Xnor(x) => cast_ref::<Xnor<Predicates>, T>(x),
            Predicates::AllSuccess(x) => cast_ref::<AllSuccess, T>(x),
            Predicates::AnySuccess(x) => cast_ref::<AnySuccess, T>(x),
            Predicates::AllFailure(x) => cast_ref::<AllFailure, T>(x),
            Predicates::AnyFailure(x) => cast_ref::<AnyFailure, T>(x),
        }
    }

    fn cast_mut<T: 'static>(&mut self) -> Option<&mut T> {
        match self {
            Predicates::True(x) => any_mut::<True, T>(x),
            Predicates::False(x) => any_mut::<False, T>(x),
            Predicates::And(x) => any_mut::<And<Predicates>, T>(x),
            Predicates::Or(x) => any_mut::<Or<Predicates>, T>(x),
            Predicates::Xor(x) => any_mut::<Xor<Predicates>, T>(x),
            Predicates::Not(x) => any_mut::<Not<Predicates>, T>(x),
            Predicates::Nand(x) => any_mut::<Nand<Predicates>, T>(x),
            Predicates::Nor(x) => any_mut::<Nor<Predicates>, T>(x),
            Predicates::Xnor(x) => any_mut::<Xnor<Predicates>, T>(x),
            Predicates::AllSuccess(x) => any_mut::<AllSuccess, T>(x),
            Predicates::AnySuccess(x) => any_mut::<AnySuccess, T>(x),
            Predicates::AllFailure(x) => any_mut::<AllFailure, T>(x),
            Predicates::AnyFailure(x) => any_mut::<AnyFailure, T>(x),
        }
    }

    fn from_any<T: 'static>(t: T) -> Option<Self> {
        let mut slot = Some(t);
        if let Some(hit) = any_mut::<Option<T>, Option<True>>(&mut slot) {
            return match hit.take() {
                Some(x) => Some(Predicates::from(x)),
                None => None,
            };
        }
        if let Some(hit) = any_mut::<Option<T>, Option<False>>(&mut slot) {
            return match hit.take() {
                Some(x) => Some(Predicates::from(x)),
                None => None,
            };
        }
        if let Some(hit) = any_mut::<Option<T>, Option<And<Predicates>>>(&mut slot) {
            return match hit.take() {
                Some(x) => Some(Predicates::from(x)),
                None => None,
            };
        }
        if let Some(hit) = any_mut::<Option<T>, Option<Or<Predicates>>>(&mut slot) {
            return match hit.take() {
                Some(x) => Some(Predicates::from(x)),
                None => None,
            };
        }
        if let Some(hit) = any_mut::<Option<T>, Option<Xor<Predicates>>>(&mut slot) {
            return match hit.take() {
                Some(x) => Some(Predicates::from(x)),
                None => None,
            };
        }
        if let Some(hit) = any_mut::<Option<T>, Option<Not<Predicates>>>(&mut slot) {
            return match hit.take() {
                Some(x) => Some(Predicates::from(x)),
                None => None,
            };
        }
        if let Some(hit) = any_mut::<Option<T>, Option<Nand<Predicates>>>(&mut slot) {
            return match hit.take() {
                Some(x) => Some(Predicates::from(x)),
                None => None,
            };
        }
        if let Some(hit) = any_mut::<Option<T>, Option<Nor<Predicates>>>(&mut slot) {
            return match hit.take() {
                Some(x) => Some(Predicates::from(x)),
                None => None,
            };
        }
        if let Some(hit) = any_mut::<Option<T>, Option<Xnor<Predicates>>>(&mut slot) {
            return match hit.take() {
                Some(x) => Some(Predicates::from(x)),
                None => None,
            };
        }
        if let Some(hit) = any_mut::<Option<T>, Option<AllSuccess>>(&mut slot) {
            return match hit.take() {
                Some(x) => Some(Predicates::from(x)),
                None => None,
            };
        }
        if let Some(hit) = any_mut::<Option<T>, Option<AnySuccess>>(&mut slot) {
            return match hit.take() {
                Some(x) => Some(Predicates::from(x)),
                None => None,
            };
        }
        if let Some(hit) = any_mut::<Option<T>, Option<AllFailure>>(&mut slot) {
            return match hit.take() {
                Some(x) => Some(Predicates::from(x)),
                None => None,
            };
        }
        if let Some(hit) = any_mut::<Option<T>, Option<AnyFailure>>(&mut slot) {
            return match hit.take() {
                Some(x) => Some(Predicates::from(x)),
                None => None,
            };
        }
        None
    }
}

} // verus!
