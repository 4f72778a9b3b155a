//! The logic that a plan runs while it is active, and the behaviours that
//! compose others.

use crate::enum_cast::{any_mut, cast_ref, seen_as, EnumCast, EnumRef};
use crate::plan::{Config, Kinds, Plan};
use crate::predicate::{every_status, some_status, AllFailure, AllSuccess, AnyFailure, AnySuccess, Predicate};
use vstd::prelude::*;

verus! {

/// One of the four callbacks of a behaviour.
pub enum Hook {
    /// `on_entry`
    Entry,
    /// `on_exit`
    Exit,
    /// `on_prepare`
    Prepare,
    /// `on_run`
    Run,
}

/// Run-time logic of a plan.
///
/// `status` and `utility` report on the plan; they may be asked while the
/// plan is inactive. The four callbacks follow the life of the plan:
/// `on_entry`, then `on_prepare` and `on_run` on each tick on which the plan
/// is due, then `on_exit`.
///
/// While a callback runs, the plan that owns the behaviour has an empty
/// behaviour slot: the behaviour is handed the plan and may call any of its
/// operations. What a callback may make of the behaviour and of the plan is
/// stated by `turns`. Every callback leaves the plan well formed, under its
/// name, and no deeper than it was (it may add subplans that hold nothing),
/// so that entering, exiting and ticking a tree come to an end.
pub trait Behaviour<C: Kinds>: Sized {
    /// What `status` returns. An implementation states it here.
    open spec fn status_of(&self, plan: &Plan<C>) -> Option<bool> {
        None
    }

    /// State of the plan's objective: `None` in progress, `Some(true)`
    /// success, `Some(false)` failure.
    fn status(&self, plan: &Plan<C>) -> (r: Option<bool>)
        requires
            plan.wf(),
        ensures
            r == self.status_of(plan),
    ;

    /// What `utility` returns. An implementation states it here.
    open spec fn utility_of(&self, plan: &Plan<C>) -> i64 {
        0
    }

    /// Value of the plan under current circumstances; 0 where the behaviour
    /// has no say.
    fn utility(&self, plan: &Plan<C>) -> (r: i64)
        requires
            plan.wf(),
        ensures
            r == self.utility_of(plan),
    ;

    /// What the callback `hook`, run on this behaviour and on `plan`, may
    /// leave: the behaviour `after` and the plan `left`. An implementation
    /// states it here; a callback that does nothing leaves both as they are.
    open spec fn turns(&self, hook: Hook, plan: &Plan<C>, after: &Self, left: &Plan<C>) -> bool {
        *after == *self && *left == *plan
    }

    /// Runs once when the plan becomes active. It leaves the plan's
    /// countdown as it is.
    fn on_entry(&mut self, plan: &mut Plan<C>)
        requires
            old(plan).wf(),
        ensures
            old(self).turns(Hook::Entry, old(plan), final(self), final(plan)),
            final(plan).kept_from(old(plan)),
            final(plan).run_countdown == old(plan).run_countdown,
            old(plan).run_interval > 0 ==> final(plan).run_interval > 0,
    ;

    /// Runs once when the plan becomes inactive. Where no subplan was
    /// active, none is afterwards.
    fn on_exit(&mut self, plan: &mut Plan<C>)
        requires
            old(plan).wf(),
        ensures
            old(self).turns(Hook::Exit, old(plan), final(self), final(plan)),
            final(plan).kept_from(old(plan)),
            old(plan).quiet() ==> final(plan).quiet(),
            old(plan).run_interval > 0 ==> final(plan).run_interval > 0,
    ;

    /// Runs before the subplans on each tick on which the plan is due. It
    /// may exit the plan.
    fn on_prepare(&mut self, plan: &mut Plan<C>)
        requires
            old(plan).wf(),
        ensures
            old(self).turns(Hook::Prepare, old(plan), final(self), final(plan)),
            final(plan).kept_from(old(plan)),
    ;

    /// Runs after the subplans on each tick on which the plan is due. It
    /// leaves a positive interval positive.
    fn on_run(&mut self, plan: &mut Plan<C>)
        requires
            old(plan).wf(),
        ensures
            old(self).turns(Hook::Run, old(plan), final(self), final(plan)),
            final(plan).kept_from(old(plan)),
            old(plan).run_interval > 0 ==> final(plan).run_interval > 0,
    ;
}

/// The status that two verdicts add up to: failure if the verdict on failure
/// holds, else success if the verdict on success holds, else in progress.
pub open spec fn status_by(success: bool, failure: bool) -> Option<bool> {
    if failure {
        Some(false)
    } else if success {
        Some(true)
    } else {
        None
    }
}

/// Returns `Some(false)` if `f` holds of the plan and all its subplans,
/// `Some(true)` if `t` does, otherwise `None`.
pub fn evaluate_status<C: Kinds, T: Predicate<C>, F: Predicate<C>>(plan: &Plan<C>, t: &T, f: &F) -> (r:
    Option<bool>)
    requires
        plan.wf(),
    ensures
        r == status_by(
            t.holds(plan, Seq::<String>::empty()),
            f.holds(plan, Seq::<String>::empty()),
        ),
{
    let none: Vec<String> = Vec::new();
    if f.evaluate(plan, none.as_slice()) {
        Some(false)
    } else if t.evaluate(plan, none.as_slice()) {
        Some(true)
    } else {
        None
    }
}

/// Behaviour whose status is `evaluate_status` of its two predicates: the
/// first for success, the second for failure.
pub struct EvaluateStatus<C: Kinds>(pub C::P, pub C::P);

impl<C: Config> Behaviour<C> for EvaluateStatus<C> {
    open spec fn status_of(&self, plan: &Plan<C>) -> Option<bool> {
        status_by(
            self.0.holds(plan, Seq::<String>::empty()),
            self.1.holds(plan, Seq::<String>::empty()),
        )
    }

    fn status(&self, plan: &Plan<C>) -> (r: Option<bool>) {
        evaluate_status(plan, &self.0, &self.1)
    }

    fn utility(&self, plan: &Plan<C>) -> (r: i64) {
        0
    }

    fn on_entry(&mut self, plan: &mut Plan<C>) {
    }

    fn on_exit(&mut self, plan: &mut Plan<C>) {
    }

    fn on_prepare(&mut self, plan: &mut Plan<C>) {
    }

    fn on_run(&mut self, plan: &mut Plan<C>) {
    }
}

/// Behaviour that succeeds when all subplans have succeeded and fails when
/// one has failed.
pub struct AllSuccessStatus;

impl<C: Config> Behaviour<C> for AllSuccessStatus {
    open spec fn status_of(&self, plan: &Plan<C>) -> Option<bool> {
        status_by(
            every_status(plan, Seq::<String>::empty(), Some(true)),
            some_status(plan, Seq::<String>::empty(), Some(false)),
        )
    }

    fn status(&self, plan: &Plan<C>) -> (r: Option<bool>) {
        evaluate_status(plan, &AllSuccess, &AnyFailure)
    }

    fn utility(&self, plan: &Plan<C>) -> (r: i64) {
        0
    }

    fn on_entry(&mut self, plan: &mut Plan<C>) {
    }

    fn on_exit(&mut self, plan: &mut Plan<C>) {
    }

    fn on_prepare(&mut self, plan: &mut Plan<C>) {
    }

    fn on_run(&mut self, plan: &mut Plan<C>) {
    }
}

/// Behaviour that succeeds when one subplan has succeeded and fails when
/// all have failed.
pub struct AnySuccessStatus;

impl<C: Config> Behaviour<C> for AnySuccessStatus {
    open spec fn status_of(&self, plan: &Plan<C>) -> Option<bool> {
        status_by(
            some_status(plan, Seq::<String>::empty(), Some(true)),
            every_status(plan, Seq::<String>::empty(), Some(false)),
        )
    }

    fn status(&self, plan: &Plan<C>) -> (r: Option<bool>) {
        evaluate_status(plan, &AnySuccess, &AllFailure)
    }

    fn utility(&self, plan: &Plan<C>) -> (r: i64) {
        0
    }

    fn on_entry(&mut self, plan: &mut Plan<C>) {
    }

    fn on_exit(&mut self, plan: &mut Plan<C>) {
    }

    fn on_prepare(&mut self, plan: &mut Plan<C>) {
    }

    fn on_run(&mut self, plan: &mut Plan<C>) {
    }
}

/// The status `status` as `ModifyStatus` hands it on: a status in progress
/// as it is, any other as `replace` if that is given, else turned round.
pub open spec fn modified(status: Option<bool>, replace: Option<bool>) -> Option<bool> {
    match status {
        None => None,
        Some(x) => Some(
            match replace {
                Some(r) => r,
                None => !x,
            },
        ),
    }
}

/// Wraps a behaviour and changes its status: to the second field if that
/// is given, else to its opposite. A status in progress stays.
pub struct ModifyStatus<C: Kinds>(pub Box<C::B>, pub Option<bool>);

impl<C: Config> Behaviour<C> for ModifyStatus<C> {
    open spec fn status_of(&self, plan: &Plan<C>) -> Option<bool> {
        modified(self.0.status_of(plan), self.1)
    }

    fn status(&self, plan: &Plan<C>) -> (r: Option<bool>) {
        match self.0.status(plan) {
            None => None,
            Some(x) => Some(
                match self.1 {
                    Some(r) => r,
                    None => !x,
                },
            ),
        }
    }

    open spec fn utility_of(&self, plan: &Plan<C>) -> i64 {
        self.0.utility_of(plan)
    }

    fn utility(&self, plan: &Plan<C>) -> (r: i64) {
        self.0.utility(plan)
    }

    /// Every callback goes to the inner behaviour; the second field stays.
    open spec fn turns(&self, hook: Hook, plan: &Plan<C>, after: &Self, left: &Plan<C>) -> bool {
        self.0.turns(hook, plan, &*after.0, left) && after.1 == self.1
    }

    fn on_entry(&mut self, plan: &mut Plan<C>) {
        self.0.on_entry(plan);
    }

    fn on_exit(&mut self, plan: &mut Plan<C>) {
        self.0.on_exit(plan);
    }

    fn on_prepare(&mut self, plan: &mut Plan<C>) {
        self.0.on_prepare(plan);
    }

    fn on_run(&mut self, plan: &mut Plan<C>) {
        self.0.on_run(plan);
    }
}

/// The status that a list of statuses adds up to: failure if one is a
/// failure, else in progress if one is in progress, else success.
pub open spec fn joint_status(statuses: Seq<Option<bool>>) -> Option<bool> {
    if exists|i: int| 0 <= i < statuses.len() && statuses[i] == Some(false) {
        Some(false)
    } else if exists|i: int| 0 <= i < statuses.len() && statuses[i] is None {
        None
    } else {
        Some(true)
    }
}

/// The sum of `values`.
pub open spec fn sum(values: Seq<i64>) -> int
    decreases values.len(),
{
    if values.len() == 0 {
        0
    } else {
        sum(values.drop_last()) + values.last()
    }
}

/// `v` brought into the range of `i64`.
pub open spec fn clamp(v: int) -> int {
    if v < i64::MIN {
        i64::MIN as int
    } else if v > i64::MAX {
        i64::MAX as int
    } else {
        v
    }
}

/// The sum of the first members of `values` is as far from 0 as their
/// number allows.
proof fn sum_bounded(values: Seq<i64>, n: int)
    requires
        0 <= n <= values.len(),
    ensures
        -0x8000_0000_0000_0000 * n <= sum(values.take(n)) <= 0x8000_0000_0000_0000 * n,
        n < values.len() ==> sum(values.take(n + 1)) == sum(values.take(n)) + values[n],
    decreases n,
{
    if n > 0 {
        sum_bounded(values, n - 1);
        assert(values.take(n).drop_last() =~= values.take(n - 1));
    }
    if n < values.len() {
        assert(values.take(n + 1).drop_last() =~= values.take(n));
    }
}

/// The sum of `values`, brought into the range of `i64`.
pub fn clamped_sum(values: &Vec<i64>) -> (r: i64)
    ensures
        r == clamp(sum(values@)),
{
    let mut total: i128 = 0;
    let mut i: usize = 0;
    while i < values.len()
        invariant
            0 <= i <= values@.len(),
            total == sum(values@.take(i as int)),
        decreases values@.len() - i,
    {
        proof {
            sum_bounded(values@, i as int);
            sum_bounded(values@, i as int + 1);
            assert(i < usize::MAX);
            assert(0x8000_0000_0000_0000 * (i as int + 1) <= 0x8000_0000_0000_0000
                * 0x1_0000_0000_0000_0000) by (nonlinear_arith)
                requires
                    i as int + 1 <= 0x1_0000_0000_0000_0000,
            ;
        }
        total = total + values[i] as i128;
        i += 1;
    }
    assert(values@.take(i as int) =~= values@);
    if total < i64::MIN as i128 {
        i64::MIN
    } else if total > i64::MAX as i128 {
        i64::MAX
    } else {
        total as i64
    }
}

/// What each behaviour of `list` reports for `plan`.
pub open spec fn statuses<C: Config>(list: Seq<C::Behaviour>, plan: &Plan<C>) -> Seq<Option<bool>>
{
    Seq::new(list.len(), |i: int| list[i].status_of(plan))
}

/// The utility that each behaviour of `list` reports for `plan`.
pub open spec fn utilities<C: Config>(list: Seq<C::Behaviour>, plan: &Plan<C>) -> Seq<i64> {
    Seq::new(list.len(), |i: int| list[i].utility_of(plan))
}

/// What the callback `hook`, run on the first `n` behaviours of `list` one
/// after another, may leave: the behaviours `after` and the plan `left`.
pub open spec fn turns_in_turn<C: Config>(
    list: Seq<C::Behaviour>,
    hook: Hook,
    plan: &Plan<C>,
    after: Seq<C::Behaviour>,
    left: &Plan<C>,
    n: int,
) -> bool
    decreases n,
{
    if n <= 0 {
        *left == *plan
    } else {
        exists|mid: Plan<C>|
            turns_in_turn(list, hook, plan, after, &mid, n - 1) && #[trigger] list[n - 1].turns(
                hook,
                &mid,
                &after[n - 1],
                left,
            )
    }
}

/// What the first `n` behaviours may leave depends on the first `n` places
/// of `after` only.
pub proof fn turns_in_turn_prefix<C: Config>(
    list: Seq<C::Behaviour>,
    hook: Hook,
    plan: &Plan<C>,
    after: Seq<C::Behaviour>,
    other: Seq<C::Behaviour>,
    left: &Plan<C>,
    n: int,
)
    requires
        0 <= n <= after.len(),
        n <= other.len(),
        forall|j: int| 0 <= j < n ==> after[j] == other[j],
        turns_in_turn(list, hook, plan, after, left, n),
    ensures
        turns_in_turn(list, hook, plan, other, left, n),
    decreases n,
{
    if n > 0 {
        let mid = choose|mid: Plan<C>|
            turns_in_turn(list, hook, plan, after, &mid, n - 1) && #[trigger] list[n - 1].turns(
                hook,
                &mid,
                &after[n - 1],
                left,
            );
        turns_in_turn_prefix(list, hook, plan, after, other, &mid, n - 1);
        assert(turns_in_turn(list, hook, plan, other, &mid, n - 1) && list[n - 1].turns(
            hook,
            &mid,
            &other[n - 1],
            left,
        ));
    }
}

/// Behaviours that share one plan. The status is success if all succeed,
/// failure if one fails; the utility is the sum, within the range of `i64`.
/// Each callback goes to every behaviour in turn.
pub struct MultiBehaviour<C: Kinds>(pub Vec<C::B>);

impl<C: Config> Behaviour<C> for MultiBehaviour<C> {
    open spec fn status_of(&self, plan: &Plan<C>) -> Option<bool> {
        joint_status(statuses(self.0@, plan))
    }

    fn status(&self, plan: &Plan<C>) -> (r: Option<bool>) {
        let ghost all = statuses(self.0@, plan);
        let mut status = Some(true);
        let mut i: usize = 0;
        while i < self.0.len()
            invariant
                0 <= i <= self.0@.len(),
                plan.wf(),
                all == statuses(self.0@, plan),
                forall|j: int| 0 <= j < i ==> all[j] != Some(false),
                status == (if exists|j: int| 0 <= j < i && all[j] is None {
                    None
                } else {
                    Some(true)
                }),
            decreases self.0@.len() - i,
        {
            match self.0[i].status(plan) {
                Some(true) => {},
                Some(false) => {
                    assert(all[i as int] == Some(false));
                    return Some(false);
                },
                None => {
                    assert(all[i as int] is None);
                    status = None;
                },
            }
            i += 1;
        }
        status
    }

    open spec fn utility_of(&self, plan: &Plan<C>) -> i64 {
        clamp(sum(utilities(self.0@, plan))) as i64
    }

    fn utility(&self, plan: &Plan<C>) -> (r: i64) {
        let mut values: Vec<i64> = Vec::new();
        let mut i: usize = 0;
        while i < self.0.len()
            invariant
                0 <= i <= self.0@.len(),
                plan.wf(),
                values@ =~= utilities(self.0@, plan).take(i as int),
            decreases self.0@.len() - i,
        {
            values.push(self.0[i].utility(plan));
            i += 1;
        }
        assert(values@ =~= utilities(self.0@, plan));
        clamped_sum(&values)
    }

    /// Every callback goes to each behaviour in turn, each being handed the
    /// plan as the one before left it.
    open spec fn turns(&self, hook: Hook, plan: &Plan<C>, after: &Self, left: &Plan<C>) -> bool {
        after.0@.len() == self.0@.len() && turns_in_turn(
            self.0@,
            hook,
            plan,
            after.0@,
            left,
            self.0@.len() as int,
        )
    }

    fn on_entry(&mut self, plan: &mut Plan<C>) {
        let n = self.0.len();
        let mut i: usize = 0;
        while i < n
            invariant
                0 <= i <= n,
                n == self.0@.len(),
                n == old(self).0@.len(),
                plan.kept_from(old(plan)),
                plan.run_countdown == old(plan).run_countdown,
                old(plan).run_interval > 0 ==> plan.run_interval > 0,
                forall|j: int| i <= j < n ==> self.0@[j] == old(self).0@[j],
                turns_in_turn(old(self).0@, Hook::Entry, old(plan), self.0@, plan, i as int),
            decreases n - i,
        {
            let ghost mid = *plan;
            let ghost done = self.0@;
            self.0[i].on_entry(plan);
            proof {
                turns_in_turn_prefix(
                    old(self).0@,
                    Hook::Entry,
                    old(plan),
                    done,
                    self.0@,
                    &mid,
                    i as int,
                );
                let k = i as int + 1;
                assert(turns_in_turn(old(self).0@, Hook::Entry, old(plan), self.0@, &mid, k - 1)
                    && old(self).0@[k - 1].turns(Hook::Entry, &mid, &self.0@[k - 1], plan));
                assert(turns_in_turn(old(self).0@, Hook::Entry, old(plan), self.0@, plan, k));
            }
            i += 1;
        }
    }

    fn on_exit(&mut self, plan: &mut Plan<C>) {
        let n = self.0.len();
        let mut i: usize = 0;
        while i < n
            invariant
                0 <= i <= n,
                n == self.0@.len(),
                n == old(self).0@.len(),
                plan.kept_from(old(plan)),
                old(plan).quiet() ==> plan.quiet(),
                old(plan).run_interval > 0 ==> plan.run_interval > 0,
                forall|j: int| i <= j < n ==> self.0@[j] == old(self).0@[j],
                turns_in_turn(old(self).0@, Hook::Exit, old(plan), self.0@, plan, i as int),
            decreases n - i,
        {
            let ghost mid = *plan;
            let ghost done = self.0@;
            self.0[i].on_exit(plan);
            proof {
                turns_in_turn_prefix(
                    old(self).0@,
                    Hook::Exit,
                    old(plan),
                    done,
                    self.0@,
                    &mid,
                    i as int,
                );
                let k = i as int + 1;
                assert(turns_in_turn(old(self).0@, Hook::Exit, old(plan), self.0@, &mid, k - 1)
                    && old(self).0@[k - 1].turns(Hook::Exit, &mid, &self.0@[k - 1], plan));
                assert(turns_in_turn(old(self).0@, Hook::Exit, old(plan), self.0@, plan, k));
            }
            i += 1;
        }
    }

    fn on_prepare(&mut self, plan: &mut Plan<C>) {
        let n = self.0.len();
        let mut i: usize = 0;
        while i < n
            invariant
                0 <= i <= n,
                n == self.0@.len(),
                n == old(self).0@.len(),
                plan.kept_from(old(plan)),
                forall|j: int| i <= j < n ==> self.0@[j] == old(self).0@[j],
                turns_in_turn(old(self).0@, Hook::Prepare, old(plan), self.0@, plan, i as int),
            decreases n - i,
        {
            let ghost mid = *plan;
            let ghost done = self.0@;
            self.0[i].on_prepare(plan);
            proof {
                turns_in_turn_prefix(
                    old(self).0@,
                    Hook::Prepare,
                    old(plan),
                    done,
                    self.0@,
                    &mid,
                    i as int,
                );
                let k = i as int + 1;
                assert(turns_in_turn(old(self).0@, Hook::Prepare, old(plan), self.0@, &mid, k - 1)
                    && old(self).0@[k - 1].turns(Hook::Prepare, &mid, &self.0@[k - 1], plan));
                assert(turns_in_turn(old(self).0@, Hook::Prepare, old(plan), self.0@, plan, k));
            }
            i += 1;
        }
    }

    fn on_run(&mut self, plan: &mut Plan<C>) {
        let n = self.0.len();
        let mut i: usize = 0;
        while i < n
            invariant
                0 <= i <= n,
                n == self.0@.len(),
                n == old(self).0@.len(),
                plan.kept_from(old(plan)),
                old(plan).run_interval > 0 ==> plan.run_interval > 0,
                forall|j: int| i <= j < n ==> self.0@[j] == old(self).0@[j],
                turns_in_turn(old(self).0@, Hook::Run, old(plan), self.0@, plan, i as int),
            decreases n - i,
        {
            let ghost mid = *plan;
            let ghost done = self.0@;
            self.0[i].on_run(plan);
            proof {
                turns_in_turn_prefix(
                    old(self).0@,
                    Hook::Run,
                    old(plan),
                    done,
                    self.0@,
                    &mid,
                    i as int,
                );
                let k = i as int + 1;
                assert(turns_in_turn(old(self).0@, Hook::Run, old(plan), self.0@, &mid, k - 1)
                    && old(self).0@[k - 1].turns(Hook::Run, &mid, &self.0@[k - 1], plan));
                assert(turns_in_turn(old(self).0@, Hook::Run, old(plan), self.0@, plan, k));
            }
            i += 1;
        }
    }
}

/// Runs a behaviour again and again: until its status is `retry`, for at
/// most `iterations` rounds, and while `condition` holds.
///
/// The status is in progress while rounds are left; it becomes `retry` when
/// the inner status does, and the opposite when the rounds run out or the
/// condition fails. Each inner status other than `retry` ends one round: the
/// inner behaviour is exited and entered again.
pub struct RepeatBehaviour<C: Kinds> {
    /// The behaviour that is repeated; its status marks each round.
    pub behaviour: Box<C::B>,
    /// The rounds stop when this no longer holds; absent, it always holds.
    pub condition: Option<C::P>,
    /// The number of rounds after which the rounds stop.
    pub iterations: usize,
    /// The inner status that ends the rounds.
    pub retry: bool,
    /// The rounds that are left. `on_entry` sets it.
    pub count_down: usize,
    /// The status of the whole. `on_entry` sets it.
    pub status: Option<bool>,
}

impl<C: Config> RepeatBehaviour<C> {
    /// The rounds are over for `plan`: none is left, or the condition fails.
    pub open spec fn halts(&self, plan: &Plan<C>) -> bool {
        self.count_down == 0 || match self.condition {
            Some(c) => !c.holds(plan, Seq::<String>::empty()),
            None => false,
        }
    }

    /// The behaviour is as `on_entry` leaves it: in progress, with all its
    /// rounds left.
    pub open spec fn armed(&self) -> bool {
        self.status is None && self.count_down == self.iterations
    }

    /// Both behaviours agree in what they are set up with.
    pub open spec fn same_setup(&self, other: &Self) -> bool {
        &&& self.condition == other.condition
        &&& self.iterations == other.iterations
        &&& self.retry == other.retry
    }

    /// Repeats `behaviour` without end until it fails.
    pub fn new(behaviour: C::Behaviour) -> (r: Self)
        ensures
            r.behaviour == Box::new(behaviour),
            r.condition is None,
            r.iterations == usize::MAX,
            r.retry == false,
            r.count_down == 0,
            r.status is None,
    {
        Self {
            behaviour: Box::new(behaviour),
            condition: None,
            iterations: usize::MAX,
            retry: false,
            count_down: 0,
            status: None,
        }
    }

    /// Takes note of the inner status after a run. A status other than
    /// `retry` ends a round: one round less is left, and the result is true,
    /// for the inner behaviour is to be exited and entered again. The status
    /// `retry` becomes the status of the whole.
    pub fn settle(&mut self, inner: Option<bool>) -> (again: bool)
        ensures
            again == (inner is Some && inner != Some(old(self).retry)),
            final(self).behaviour == old(self).behaviour,
            final(self).same_setup(old(self)),
            final(self).status == (if inner == Some(old(self).retry) {
                inner
            } else {
                old(self).status
            }),
            final(self).count_down == (if again && old(self).count_down > 0 {
                old(self).count_down - 1
            } else {
                old(self).count_down as int
            }),
    {
        match inner {
            Some(status) => {
                if status != self.retry {
                    if self.count_down > 0 {
                        self.count_down -= 1;
                    }
                    true
                } else {
                    self.status = Some(self.retry);
                    false
                }
            },
            None => false,
        }
    }

    /// What a run makes of a behaviour in progress: the inner behaviour
    /// runs, and its status then settles what follows.
    pub open spec fn ran_round(&self, plan: &Plan<C>, after: &Self, left: &Plan<C>) -> bool {
        exists|ran: C::Behaviour, mid: Plan<C>| #[trigger]
            self.behaviour.turns(Hook::Run, plan, &ran, &mid) && after.same_setup(self)
                && self.settled(&ran, &mid, after, left)
    }

    /// What follows the run of the inner behaviour, which left `ran` and
    /// `mid`. A status other than `retry` ends a round: one round less is
    /// left, and the inner behaviour is exited and entered again. The status
    /// `retry` becomes the status of the whole. Without a status nothing
    /// follows.
    pub open spec fn settled(
        &self,
        ran: &C::Behaviour,
        mid: &Plan<C>,
        after: &Self,
        left: &Plan<C>,
    ) -> bool {
        let inner = ran.status_of(mid);
        if inner is Some && inner != Some(self.retry) {
            &&& after.status == self.status
            &&& after.count_down == (if self.count_down > 0 {
                self.count_down - 1
            } else {
                0
            })
            &&& exists|out: C::Behaviour, between: Plan<C>| #[trigger]
                ran.turns(Hook::Exit, mid, &out, &between) && out.turns(
                    Hook::Entry,
                    &between,
                    &*after.behaviour,
                    left,
                )
        } else {
            &&& after.status == (if inner == Some(self.retry) {
                inner
            } else {
                self.status
            })
            &&& after.count_down == self.count_down
            &&& *after.behaviour == *ran
            &&& *left == *mid
        }
    }

    /// A repeat of no rounds that has been entered stops at its first
    /// preparation, whatever the plan: `on_prepare` then sets the status
    /// opposite to `retry`.
    pub proof fn no_rounds_halt(&self, plan: &Plan<C>)
        requires
            self.armed(),
            self.iterations == 0,
        ensures
            self.status is None,
            self.halts(plan),
    {
    }
}

impl<C: Config> Behaviour<C> for RepeatBehaviour<C> {
    open spec fn status_of(&self, plan: &Plan<C>) -> Option<bool> {
        self.status
    }

    fn status(&self, plan: &Plan<C>) -> (r: Option<bool>) {
        self.status
    }

    open spec fn utility_of(&self, plan: &Plan<C>) -> i64 {
        self.behaviour.utility_of(plan)
    }

    fn utility(&self, plan: &Plan<C>) -> (r: i64) {
        self.behaviour.utility(plan)
    }

    /// `on_entry` puts the behaviour in progress with all its rounds left and
    /// enters the inner behaviour; `on_exit` exits the inner behaviour.
    /// `on_prepare` does nothing once there is a status; it sets the status
    /// opposite to `retry` if the rounds are over; else it prepares the inner
    /// behaviour. `on_run` does nothing once there is a status; else it makes
    /// one round.
    open spec fn turns(&self, hook: Hook, plan: &Plan<C>, after: &Self, left: &Plan<C>) -> bool {
        match hook {
            Hook::Entry => after.armed() && after.same_setup(self) && self.behaviour.turns(
                Hook::Entry,
                plan,
                &*after.behaviour,
                left,
            ),
            Hook::Exit => after.same_setup(self) && after.status == self.status && after.count_down
                == self.count_down && self.behaviour.turns(
                Hook::Exit,
                plan,
                &*after.behaviour,
                left,
            ),
            Hook::Prepare => after.same_setup(self) && after.count_down == self.count_down
                && if self.status is Some {
                *after == *self && *left == *plan
            } else if self.halts(plan) {
                after.status == Some(!self.retry) && after.behaviour == self.behaviour && *left
                    == *plan
            } else {
                after.status is None && self.behaviour.turns(
                    Hook::Prepare,
                    plan,
                    &*after.behaviour,
                    left,
                )
            },
            Hook::Run => if self.status is Some {
                *after == *self && *left == *plan
            } else {
                self.ran_round(plan, after, left)
            },
        }
    }

    fn on_entry(&mut self, plan: &mut Plan<C>) {
        self.status = None;
        self.count_down = self.iterations;
        self.behaviour.on_entry(plan);
    }

    fn on_exit(&mut self, plan: &mut Plan<C>) {
        self.behaviour.on_exit(plan);
    }

    fn on_prepare(&mut self, plan: &mut Plan<C>) {
        if self.status.is_some() {
            return;
        }
        if self.count_down == 0 {
            self.status = Some(!self.retry);
            return;
        }
        let holds = match &self.condition {
            Some(c) => {
                let none: Vec<String> = Vec::new();
                c.evaluate(plan, none.as_slice())
            },
            None => true,
        };
        if !holds {
            self.status = Some(!self.retry);
            return;
        }
        self.behaviour.on_prepare(plan);
    }

    fn on_run(&mut self, plan: &mut Plan<C>) {
        if self.status.is_some() {
            return;
        }
        let ghost inner = *self.behaviour;
        self.behaviour.on_run(plan);
        let ghost ran = *self.behaviour;
        let ghost mid = *plan;
        let status = self.behaviour.status(plan);
        if self.settle(status) {
            self.behaviour.on_exit(plan);
            let ghost out = *self.behaviour;
            let ghost between = *plan;
            self.behaviour.on_entry(plan);
            proof {
                assert(ran.turns(Hook::Exit, &mid, &out, &between) && out.turns(
                    Hook::Entry,
                    &between,
                    &*self.behaviour,
                    plan,
                ));
            }
        }
        proof {
            assert(old(self).settled(&ran, &mid, self, plan));
            assert(inner.turns(Hook::Run, old(plan), &ran, &mid) && self.same_setup(old(self))
                && old(self).settled(&ran, &mid, self, plan));
        }
    }
}

/// The subplan at place `i` is the first that is active.
pub open spec fn is_first_active<C: Kinds>(plans: Seq<Plan<C>>, i: int) -> bool {
    &&& 0 <= i < plans.len()
    &&& plans[i].is_active()
    &&& forall|j: int| 0 <= j < i ==> !(#[trigger] plans[j]).is_active()
}

/// The place of the first active subplan.
pub open spec fn first_active<C: Kinds>(plans: Seq<Plan<C>>) -> Option<int> {
    if exists|i: int| is_first_active(plans, i) {
        Some(choose|i: int| is_first_active(plans, i))
    } else {
        None
    }
}

/// Finds the first active subplan.
pub fn find_active<C: Kinds>(plans: &Vec<Plan<C>>) -> (r: Option<usize>)
    ensures
        match r {
            Some(i) => first_active(plans@) == Some(i as int) && is_first_active(plans@, i as int),
            None => first_active(plans@) is None && forall|j: int|
                0 <= j < plans@.len() ==> !(#[trigger] plans@[j]).is_active(),
        },
{
    let mut i: usize = 0;
    while i < plans.len()
        invariant
            0 <= i <= plans@.len(),
            forall|j: int| 0 <= j < i ==> !(#[trigger] plans@[j]).is_active(),
        decreases plans@.len() - i,
    {
        if plans[i].active() {
            proof {
                assert(is_first_active(plans@, i as int));
                let k = choose|k: int| is_first_active(plans@, k);
                if k < i {
                    assert(!plans@[k].is_active());
                } else if i < k {
                    assert(!plans@[i as int].is_active());
                }
            }
            return Some(i);
        }
        i += 1;
    }
    proof {
        if exists|k: int| is_first_active(plans@, k) {
            let k = choose|k: int| is_first_active(plans@, k);
            assert(!plans@[k].is_active());
        }
    }
    None
}

/// The subplan named `name` is there, inactive, and has no status or the
/// status `jump_val`: a step of the sequence to go back to.
pub open spec fn regressed<C: Config>(plan: &Plan<C>, name: Seq<char>, jump_val: bool) -> bool
{
    &&& Plan::<C>::has_name(plan.plans@, name)
    &&& {
        let p = plan.plans@[Plan::<C>::index_of(plan.plans@, name)];
        !p.is_active() && (p.status_of() is None || p.status_of() == Some(jump_val))
    }
}

/// `i` is the first place of `visited` whose subplan has regressed.
pub open spec fn is_first_regressed<C: Config>(
    plan: &Plan<C>,
    visited: Seq<String>,
    jump_val: bool,
    i: int,
) -> bool
{
    &&& 0 <= i < visited.len()
    &&& regressed(plan, visited[i]@, jump_val)
    &&& forall|j: int| 0 <= j < i ==> !regressed(plan, (#[trigger] visited[j])@, jump_val)
}

/// No subplan named in `visited` has regressed.
pub open spec fn none_regressed<C: Config>(plan: &Plan<C>, visited: Seq<String>, jump_val: bool) -> bool
{
    forall|j: int| 0 <= j < visited.len() ==> !regressed(plan, (#[trigger] visited[j])@, jump_val)
}

/// Finds the first name of `visited` whose subplan has regressed.
pub fn find_regressed<C: Config>(plan: &Plan<C>, visited: &Vec<String>, jump_val: bool) -> (r: Option<
    usize,
>)
    requires
        plan.wf(),
    ensures
        match r {
            Some(i) => is_first_regressed(plan, visited@, jump_val, i as int),
            None => none_regressed(plan, visited@, jump_val),
        },
{
    let mut i: usize = 0;
    while i < visited.len()
        invariant
            0 <= i <= visited@.len(),
            plan.wf(),
            forall|j: int| 0 <= j < i ==> !regressed(plan, (#[trigger] visited@[j])@, jump_val),
        decreases visited@.len() - i,
    {
        let hit = match plan.get(visited[i].as_str()) {
            Some(x) => !x.active() && match x.status() {
                Some(s) => s == jump_val,
                None => true,
            },
            None => false,
        };
        if hit {
            return Some(i);
        }
        i += 1;
    }
    None
}

/// `base` with the name of the first active subplan of `plan` at its end,
/// unless it ends in that name or no subplan is active.
pub open spec fn noted<C: Kinds>(base: Seq<String>, plan: &Plan<C>) -> Seq<String> {
    match first_active(plan.plans@) {
        Some(i) => if base.len() > 0 && base.last()@ == plan.plans@[i].name@ {
            base
        } else {
            base.push(plan.plans@[i].name)
        },
        None => base,
    }
}

/// What going back to the subplan named `name` makes of the plan `before`:
/// its subplans are exited, then that subplan is entered.
pub open spec fn jumped_from<C: Config>(after: &Plan<C>, before: &Plan<C>, name: Seq<char>) -> bool {
    exists|exited: Plan<C>|
        exited.exited_from(before, true) && #[trigger] after.with_entered(&exited, name)
}

/// What one step of a sequence makes of the names `visited` and of `plan`:
/// the names `after` and the plan `left`. If a visited subplan has
/// regressed, the plan goes back to the first such subplan and the names are
/// cut back to those before it; else the plan is left as it is. Then the
/// name of the first active subplan is noted.
pub open spec fn stepped<C: Config>(
    visited: Seq<String>,
    plan: &Plan<C>,
    jump_val: bool,
    after: Seq<String>,
    left: &Plan<C>,
) -> bool {
    &&& left.kept_from(plan)
    &&& left.same_but_plans(plan)
    &&& none_regressed(plan, visited, jump_val) ==> *left == *plan && after == noted(visited, left)
    &&& forall|i: int|
        is_first_regressed(plan, visited, jump_val, i) ==> after == noted(visited.take(i), left)
            && jumped_from(left, plan, visited[i]@)
}

/// One step of a sequence over the subplans of `plan`, of which `visited`
/// names those that have been the active one, in the order in which they
/// became so.
///
/// If a visited subplan has regressed, all subplans are exited, the first
/// such subplan is entered, and `visited` is cut back to the names before
/// it. Then the name of the first active subplan is added to `visited`,
/// unless `visited` ends in it.
pub fn check_visited_status_and_jump<C: Config>(
    plan: &mut Plan<C>,
    visited: &mut Vec<String>,
    jump_val: bool,
)
    requires
        old(plan).wf(),
    ensures
        stepped(old(visited)@, old(plan), jump_val, final(visited)@, final(plan)),
{
    let pos = find_regressed(plan, visited, jump_val);
    if let Some(pos) = pos {
        proof {
            assert forall|i: int|
                is_first_regressed(old(plan), old(visited)@, jump_val, i) implies i == pos by {
                if i < pos {
                    assert(!regressed(plan, visited@[i]@, jump_val));
                } else if pos < i {
                    assert(!regressed(plan, visited@[pos as int]@, jump_val));
                }
            }
        }
        plan.exit(true);
        let ghost exited = *plan;
        plan.enter_named(visited[pos].as_str());
        proof {
            plan.with_entered_kept(&exited, visited@[pos as int]@);
            assert(exited.exited_from(old(plan), true) && plan.with_entered(
                &exited,
                visited@[pos as int]@,
            ));
        }
        visited.truncate(pos);
    } else {
        proof {
            assert forall|i: int|
                is_first_regressed(old(plan), old(visited)@, jump_val, i) implies false by {
                assert(!regressed(plan, visited@[i]@, jump_val));
            }
        }
    }
    let active = match find_active(&plan.plans) {
        Some(i) => i,
        None => {
            return;
        },
    };
    if visited.len() > 0 {
        if visited[visited.len() - 1] == plan.plans[active].name {
            return;
        }
    }
    visited.push(plan.plans[active].name.clone());
}

/// Goes through the subplans one after another until one fails.
///
/// The plan is to hold transitions that lead from each subplan to the next
/// on success, with one subplan active at a time. If a subplan that was
/// visited is no longer a success, the sequence goes back to it. The field
/// names the visited subplans.
pub struct SequenceBehaviour(pub Vec<String>);

impl Default for SequenceBehaviour {
    fn default() -> (r: Self)
        ensures
            r.0@.len() == 0,
    {
        SequenceBehaviour(Vec::new())
    }
}

impl<C: Config> Behaviour<C> for SequenceBehaviour {
    open spec fn status_of(&self, plan: &Plan<C>) -> Option<bool> {
        AllSuccessStatus.status_of(plan)
    }

    fn status(&self, plan: &Plan<C>) -> (r: Option<bool>) {
        AllSuccessStatus.status(plan)
    }

    fn utility(&self, plan: &Plan<C>) -> (r: i64) {
        0
    }

    fn on_entry(&mut self, plan: &mut Plan<C>) {
    }

    fn on_exit(&mut self, plan: &mut Plan<C>) {
    }

    /// Only `on_prepare` does anything: it makes one step of the sequence.
    open spec fn turns(&self, hook: Hook, plan: &Plan<C>, after: &Self, left: &Plan<C>) -> bool {
        match hook {
            Hook::Prepare => stepped(self.0@, plan, false, after.0@, left),
            _ => *after == *self && *left == *plan,
        }
    }

    fn on_prepare(&mut self, plan: &mut Plan<C>) {
        check_visited_status_and_jump(plan, &mut self.0, false);
    }

    fn on_run(&mut self, plan: &mut Plan<C>) {
    }
}

/// Goes through the subplans one after another until one succeeds.
///
/// The plan is to hold transitions that lead from each subplan to the next
/// on failure, with one subplan active at a time. If a subplan that was
/// visited is no longer a failure, the sequence goes back to it. The field
/// names the visited subplans.
pub struct FallbackBehaviour(pub Vec<String>);

impl Default for FallbackBehaviour {
    fn default() -> (r: Self)
        ensures
            r.0@.len() == 0,
    {
        FallbackBehaviour(Vec::new())
    }
}

impl<C: Config> Behaviour<C> for FallbackBehaviour {
    open spec fn status_of(&self, plan: &Plan<C>) -> Option<bool> {
        AnySuccessStatus.status_of(plan)
    }

    fn status(&self, plan: &Plan<C>) -> (r: Option<bool>) {
        AnySuccessStatus.status(plan)
    }

    fn utility(&self, plan: &Plan<C>) -> (r: i64) {
        0
    }

    fn on_entry(&mut self, plan: &mut Plan<C>) {
    }

    fn on_exit(&mut self, plan: &mut Plan<C>) {
    }

    /// Only `on_prepare` does anything: it makes one step of the sequence.
    open spec fn turns(&self, hook: Hook, plan: &Plan<C>, after: &Self, left: &Plan<C>) -> bool {
        match hook {
            Hook::Prepare => stepped(self.0@, plan, true, after.0@, left),
            _ => *after == *self && *left == *plan,
        }
    }

    fn on_prepare(&mut self, plan: &mut Plan<C>) {
        check_visited_status_and_jump(plan, &mut self.0, true);
    }

    fn on_run(&mut self, plan: &mut Plan<C>) {
    }
}

/// The place in `values` of the greatest value, the first of several.
pub fn first_max(values: &Vec<i64>) -> (r: Option<usize>)
    ensures
        r is None <==> values@.len() == 0,
        r is Some ==> {
            let i = r->0 as int;
            &&& 0 <= i < values@.len()
            &&& forall|j: int| 0 <= j < values@.len() ==> values@[j] <= values@[i]
            &&& forall|j: int| 0 <= j < i ==> values@[j] < values@[i]
        },
{
    if values.len() == 0 {
        return None;
    }
    let mut best: usize = 0;
    let mut i: usize = 1;
    while i < values.len()
        invariant
            0 <= best < i <= values@.len(),
            forall|j: int| 0 <= j < i ==> values@[j] <= values@[best as int],
            forall|j: int| 0 <= j < best ==> values@[j] < values@[best as int],
        decreases values@.len() - i,
    {
        if values[i] > values[best] {
            best = i;
        }
        i += 1;
    }
    Some(best)
}

/// The plan at place `i` has the highest utility of `plans`, and is the
/// first that has it.
pub open spec fn is_best<C: Config>(plans: Seq<Plan<C>>, i: int) -> bool {
    &&& 0 <= i < plans.len()
    &&& forall|j: int| 0 <= j < plans.len() ==> (#[trigger] plans[j]).utility_of() <= plans[i].utility_of()
    &&& forall|j: int| 0 <= j < i ==> (#[trigger] plans[j]).utility_of() < plans[i].utility_of()
}

/// The place of the first plan of the highest utility.
pub open spec fn best_place<C: Config>(plans: Seq<Plan<C>>) -> int {
    choose|i: int| is_best(plans, i)
}

/// Only one place is that of the first plan of the highest utility.
pub proof fn best_is_one<C: Config>(plans: Seq<Plan<C>>, i: int)
    requires
        is_best(plans, i),
    ensures
        best_place(plans) == i,
{
    let k = best_place(plans);
    if k < i {
        assert(plans[k].utility_of() < plans[i].utility_of());
        assert(plans[i].utility_of() <= plans[k].utility_of());
    } else if i < k {
        assert(plans[i].utility_of() < plans[k].utility_of());
        assert(plans[k].utility_of() <= plans[i].utility_of());
    }
}

/// Finds the plan of the highest utility, the first of several, and
/// returns it with its utility.
pub fn max_utility<C: Config>(plans: &[Plan<C>]) -> (r: Option<(&Plan<C>, i64)>)
    requires
        forall|i: int| 0 <= i < plans@.len() ==> (#[trigger] plans@[i]).wf(),
    ensures
        match r {
            Some((best, utility)) => {
                &&& is_best(plans@, best_place(plans@))
                &&& *best == plans@[best_place(plans@)]
                &&& utility == best.utility_of()
            },
            None => plans@.len() == 0,
        },
{
    let mut values: Vec<i64> = Vec::new();
    let mut i: usize = 0;
    while i < plans.len()
        invariant
            0 <= i <= plans@.len(),
            values@.len() == i,
            forall|i: int| 0 <= i < plans@.len() ==> (#[trigger] plans@[i]).wf(),
            forall|j: int| 0 <= j < i ==> values@[j] == (#[trigger] plans@[j]).utility_of(),
        decreases plans@.len() - i,
    {
        values.push(plans[i].utility());
        i += 1;
    }
    match first_max(&values) {
        Some(best) => {
            proof {
                assert(is_best(plans@, best as int));
                best_is_one(plans@, best as int);
            }
            Some((&plans[best], values[best]))
        },
        None => None,
    }
}

/// What choosing the subplan at place `best` makes of the plan `before`:
/// nothing if that is the first active subplan; else the first active
/// subplan is exited, if there is one, and the chosen subplan is entered.
pub open spec fn chosen_from<C: Config>(after: &Plan<C>, before: &Plan<C>, best: int) -> bool {
    match first_active(before.plans@) {
        Some(i) => if i == best {
            *after == *before
        } else {
            exists|exited: Plan<C>|
                exited.with_exited(before, before.plans@[i].name@) && #[trigger] after.with_entered(
                    &exited,
                    before.plans@[best].name@,
                )
        },
        None => after.with_entered(before, before.plans@[best].name@),
    }
}

/// Keeps the subplan of the highest utility active, and no other.
///
/// The plan is to hold no transitions, with one subplan active at a time.
pub struct MaxUtilBehaviour;

impl<C: Config> Behaviour<C> for MaxUtilBehaviour {
    /// The status of the first active subplan.
    open spec fn status_of(&self, plan: &Plan<C>) -> Option<bool> {
        match first_active(plan.plans@) {
            Some(i) => plan.plans@[i].status_of(),
            None => None,
        }
    }

    fn status(&self, plan: &Plan<C>) -> (r: Option<bool>) {
        match find_active(&plan.plans) {
            Some(i) => plan.plans[i].status(),
            None => None,
        }
    }

    /// The highest utility among the subplans, 0 without subplans.
    open spec fn utility_of(&self, plan: &Plan<C>) -> i64 {
        if plan.plans@.len() == 0 {
            0
        } else {
            plan.plans@[best_place(plan.plans@)].utility_of()
        }
    }

    fn utility(&self, plan: &Plan<C>) -> (r: i64) {
        match max_utility(plan.plans.as_slice()) {
            Some((_, util)) => util,
            None => 0,
        }
    }

    /// Only `on_prepare` does anything: it chooses the first subplan of the
    /// highest utility; without subplans it leaves the plan as it is.
    open spec fn turns(&self, hook: Hook, plan: &Plan<C>, after: &Self, left: &Plan<C>) -> bool {
        match hook {
            Hook::Prepare => left.same_but_plans(plan) && if plan.plans@.len() == 0 {
                *left == *plan
            } else {
                chosen_from(left, plan, best_place(plan.plans@))
            },
            _ => *left == *plan,
        }
    }

    fn on_entry(&mut self, plan: &mut Plan<C>) {
    }

    fn on_exit(&mut self, plan: &mut Plan<C>) {
    }

    fn on_run(&mut self, plan: &mut Plan<C>) {
    }

    /// Enters the subplan of the highest utility, after exiting the first
    /// active subplan if that is another.
    fn on_prepare(&mut self, plan: &mut Plan<C>) {
        let best = match max_utility(plan.plans.as_slice()) {
            Some((p, _)) => p.name().clone(),
            None => {
                return;
            },
        };
        let ghost place = best_place(plan.plans@);
        match find_active(&plan.plans) {
            Some(i) => {
                if plan.plans[i].name == best {
                    proof {
                        Plan::<C>::same_name_same_place(plan.plans@, i as int, place);
                    }
                    return;
                }
                let active = plan.plans[i].name.clone();
                plan.exit_named(active.as_str());
                proof {
                    plan.with_exited_kept(old(plan), active@);
                }
            },
            None => {},
        }
        let ghost exited = *plan;
        plan.enter_named(best.as_str());
        proof {
            plan.with_entered_kept(&exited, best@);
        }
    }
}

/// The behaviours of this library as one type.
pub enum Behaviours<C: Kinds> {
    AllSuccessStatus(AllSuccessStatus),
    AnySuccessStatus(AnySuccessStatus),
    EvaluateStatus(EvaluateStatus<C>),
    ModifyStatus(ModifyStatus<C>),
    MultiBehaviour(MultiBehaviour<C>),
    RepeatBehaviour(RepeatBehaviour<C>),
    SequenceBehaviour(SequenceBehaviour),
    FallbackBehaviour(FallbackBehaviour),
    MaxUtilBehaviour(MaxUtilBehaviour),
}

impl<C: Config> Behaviour<C> for Behaviours<C> {
    open spec fn status_of(&self, plan: &Plan<C>) -> Option<bool> {
        match self {
            Behaviours::AllSuccessStatus(b) => b.status_of(plan),
            Behaviours::AnySuccessStatus(b) => b.status_of(plan),
            Behaviours::EvaluateStatus(b) => b.status_of(plan),
            Behaviours::ModifyStatus(b) => b.status_of(plan),
            Behaviours::MultiBehaviour(b) => b.status_of(plan),
            Behaviours::RepeatBehaviour(b) => b.status_of(plan),
            Behaviours::SequenceBehaviour(b) => b.status_of(plan),
            Behaviours::FallbackBehaviour(b) => b.status_of(plan),
            Behaviours::MaxUtilBehaviour(b) => b.status_of(plan),
        }
    }

    fn status(&self, plan: &Plan<C>) -> (r: Option<bool>) {
        match self {
            Behaviours::AllSuccessStatus(b) => b.status(plan),
            Behaviours::AnySuccessStatus(b) => b.status(plan),
            Behaviours::EvaluateStatus(b) => b.status(plan),
            Behaviours::ModifyStatus(b) => b.status(plan),
            Behaviours::MultiBehaviour(b) => b.status(plan),
            Behaviours::RepeatBehaviour(b) => b.status(plan),
            Behaviours::SequenceBehaviour(b) => b.status(plan),
            Behaviours::FallbackBehaviour(b) => b.status(plan),
            Behaviours::MaxUtilBehaviour(b) => b.status(plan),
        }
    }

    open spec fn utility_of(&self, plan: &Plan<C>) -> i64 {
        match self {
            Behaviours::AllSuccessStatus(b) => b.utility_of(plan),
            Behaviours::AnySuccessStatus(b) => b.utility_of(plan),
            Behaviours::EvaluateStatus(b) => b.utility_of(plan),
            Behaviours::ModifyStatus(b) => b.utility_of(plan),
            Behaviours::MultiBehaviour(b) => b.utility_of(plan),
            Behaviours::RepeatBehaviour(b) => b.utility_of(plan),
            Behaviours::SequenceBehaviour(b) => b.utility_of(plan),
            Behaviours::FallbackBehaviour(b) => b.utility_of(plan),
            Behaviours::MaxUtilBehaviour(b) => b.utility_of(plan),
        }
    }

    fn utility(&self, plan: &Plan<C>) -> (r: i64) {
        match self {
            Behaviours::AllSuccessStatus(b) => b.utility(plan),
            Behaviours::AnySuccessStatus(b) => b.utility(plan),
            Behaviours::EvaluateStatus(b) => b.utility(plan),
            Behaviours::ModifyStatus(b) => b.utility(plan),
            Behaviours::MultiBehaviour(b) => b.utility(plan),
            Behaviours::RepeatBehaviour(b) => b.utility(plan),
            Behaviours::SequenceBehaviour(b) => b.utility(plan),
            Behaviours::FallbackBehaviour(b) => b.utility(plan),
            Behaviours::MaxUtilBehaviour(b) => b.utility(plan),
        }
    }

    /// Every callback goes to the behaviour that is held, which stays of
    /// its kind.
    open spec fn turns(&self, hook: Hook, plan: &Plan<C>, after: &Self, left: &Plan<C>) -> bool {
        match (self, after) {
            (Behaviours::AllSuccessStatus(b), Behaviours::AllSuccessStatus(a)) => b.turns(hook, plan, a, left),
            (Behaviours::AnySuccessStatus(b), Behaviours::AnySuccessStatus(a)) => b.turns(hook, plan, a, left),
            (Behaviours::EvaluateStatus(b), Behaviours::EvaluateStatus(a)) => b.turns(hook, plan, a, left),
            (Behaviours::ModifyStatus(b), Behaviours::ModifyStatus(a)) => b.turns(hook, plan, a, left),
            (Behaviours::MultiBehaviour(b), Behaviours::MultiBehaviour(a)) => b.turns(hook, plan, a, left),
            (Behaviours::RepeatBehaviour(b), Behaviours::RepeatBehaviour(a)) => b.turns(hook, plan, a, left),
            (Behaviours::SequenceBehaviour(b), Behaviours::SequenceBehaviour(a)) => b.turns(hook, plan, a, left),
            (Behaviours::FallbackBehaviour(b), Behaviours::FallbackBehaviour(a)) => b.turns(hook, plan, a, left),
            (Behaviours::MaxUtilBehaviour(b), Behaviours::MaxUtilBehaviour(a)) => b.turns(hook, plan, a, left),
            _ => false,
        }
    }

    fn on_entry(&mut self, plan: &mut Plan<C>) {
        match self {
            Behaviours::AllSuccessStatus(b) => b.on_entry(plan),
            Behaviours::AnySuccessStatus(b) => b.on_entry(plan),
            Behaviours::EvaluateStatus(b) => b.on_entry(plan),
            Behaviours::ModifyStatus(b) => b.on_entry(plan),
            Behaviours::MultiBehaviour(b) => b.on_entry(plan),
            Behaviours::RepeatBehaviour(b) => b.on_entry(plan),
            Behaviours::SequenceBehaviour(b) => b.on_entry(plan),
            Behaviours::FallbackBehaviour(b) => b.on_entry(plan),
            Behaviours::MaxUtilBehaviour(b) => b.on_entry(plan),
        }
    }

    fn on_exit(&mut self, plan: &mut Plan<C>) {
        match self {
            Behaviours::AllSuccessStatus(b) => b.on_exit(plan),
            Behaviours::AnySuccessStatus(b) => b.on_exit(plan),
            Behaviours::EvaluateStatus(b) => b.on_exit(plan),
            Behaviours::ModifyStatus(b) => b.on_exit(plan),
            Behaviours::MultiBehaviour(b) => b.on_exit(plan),
            Behaviours::RepeatBehaviour(b) => b.on_exit(plan),
            Behaviours::SequenceBehaviour(b) => b.on_exit(plan),
            Behaviours::FallbackBehaviour(b) => b.on_exit(plan),
            Behaviours::MaxUtilBehaviour(b) => b.on_exit(plan),
        }
    }

    fn on_prepare(&mut self, plan: &mut Plan<C>) {
        match self {
            Behaviours::AllSuccessStatus(b) => b.on_prepare(plan),
            Behaviours::AnySuccessStatus(b) => b.on_prepare(plan),
            Behaviours::EvaluateStatus(b) => b.on_prepare(plan),
            Behaviours::ModifyStatus(b) => b.on_prepare(plan),
            Behaviours::MultiBehaviour(b) => b.on_prepare(plan),
            Behaviours::RepeatBehaviour(b) => b.on_prepare(plan),
            Behaviours::SequenceBehaviour(b) => b.on_prepare(plan),
            Behaviours::FallbackBehaviour(b) => b.on_prepare(plan),
            Behaviours::MaxUtilBehaviour(b) => b.on_prepare(plan),
        }
    }

    fn on_run(&mut self, plan: &mut Plan<C>) {
        match self {
            Behaviours::AllSuccessStatus(b) => b.on_run(plan),
            Behaviours::AnySuccessStatus(b) => b.on_run(plan),
            Behaviours::EvaluateStatus(b) => b.on_run(plan),
            Behaviours::ModifyStatus(b) => b.on_run(plan),
            Behaviours::MultiBehaviour(b) => b.on_run(plan),
            Behaviours::RepeatBehaviour(b) => b.on_run(plan),
            Behaviours::SequenceBehaviour(b) => b.on_run(plan),
            Behaviours::FallbackBehaviour(b) => b.on_run(plan),
            Behaviours::MaxUtilBehaviour(b) => b.on_run(plan),
        }
    }
}

impl<C: Kinds> From<AllSuccessStatus> for Behaviours<C> {
    fn from(value: AllSuccessStatus) -> (r: Self) {
        Behaviours::AllSuccessStatus(value)
    }
}

impl<C: Kinds> vstd::std_specs::convert::FromSpecImpl<AllSuccessStatus> for Behaviours<C> {
    open spec fn obeys_from_spec() -> bool {
        true
    }

    open spec fn from_spec(value: AllSuccessStatus) -> Self {
        Behaviours::AllSuccessStatus(value)
    }
}

impl<C: Kinds> EnumRef<AllSuccessStatus> for Behaviours<C> {
    open spec fn held(&self) -> Option<AllSuccessStatus> {
        match self {
            Behaviours::AllSuccessStatus(x) => Some(*x),
            _ => None,
        }
    }

    fn enum_ref(&self) -> (r: Option<&AllSuccessStatus>) {
        match self {
            Behaviours::AllSuccessStatus(x) => Some(x),
            _ => None,
        }
    }

    fn enum_mut(&mut self) -> (r: Option<&mut AllSuccessStatus>) {
        match self {
            Behaviours::AllSuccessStatus(x) => Some(x),
            _ => None,
        }
    }
}

impl<C: Kinds> From<AnySuccessStatus> for Behaviours<C> {
    fn from(value: AnySuccessStatus) -> (r: Self) {
        Behaviours::AnySuccessStatus(value)
    }
}

impl<C: Kinds> vstd::std_specs::convert::FromSpecImpl<AnySuccessStatus> for Behaviours<C> {
    open spec fn obeys_from_spec() -> bool {
        true
    }

    open spec fn from_spec(value: AnySuccessStatus) -> Self {
        Behaviours::AnySuccessStatus(value)
    }
}

impl<C: Kinds> EnumRef<AnySuccessStatus> for Behaviours<C> {
    open spec fn held(&self) -> Option<AnySuccessStatus> {
        match self {
            Behaviours::AnySuccessStatus(x) => Some(*x),
            _ => None,
        }
    }

    fn enum_ref(&self) -> (r: Option<&AnySuccessStatus>) {
        match self {
            Behaviours::AnySuccessStatus(x) => Some(x),
            _ => None,
        }
    }

    fn enum_mut(&mut self) -> (r: Option<&mut AnySuccessStatus>) {
        match self {
            Behaviours::AnySuccessStatus(x) => Some(x),
            _ => None,
        }
    }
}

impl<C: Kinds> From<EvaluateStatus<C>> for Behaviours<C> {
    fn from(value: EvaluateStatus<C>) -> (r: Self) {
        Behaviours::EvaluateStatus(value)
    }
}

impl<C: Kinds> vstd::std_specs::convert::FromSpecImpl<EvaluateStatus<C>> for Behaviours<C> {
    open spec fn obeys_from_spec() -> bool {
        true
    }

    open spec fn from_spec(value: EvaluateStatus<C>) -> Self {
        Behaviours::EvaluateStatus(value)
    }
}

impl<C: Kinds> EnumRef<EvaluateStatus<C>> for Behaviours<C> {
    open spec fn held(&self) -> Option<EvaluateStatus<C>> {
        match self {
            Behaviours::EvaluateStatus(x) => Some(*x),
            _ => None,
        }
    }

    fn enum_ref(&self) -> (r: Option<&EvaluateStatus<C>>) {
        match self {
            Behaviours::EvaluateStatus(x) => Some(x),
            _ => None,
        }
    }

    fn enum_mut(&mut self) -> (r: Option<&mut EvaluateStatus<C>>) {
        match self {
            Behaviours::EvaluateStatus(x) => Some(x),
            _ => None,
        }
    }
}

impl<C: Kinds> From<ModifyStatus<C>> for Behaviours<C> {
    fn from(value: ModifyStatus<C>) -> (r: Self) {
        Behaviours::ModifyStatus(value)
    }
}

impl<C: Kinds> vstd::std_specs::convert::FromSpecImpl<ModifyStatus<C>> for Behaviours<C> {
    open spec fn obeys_from_spec() -> bool {
        true
    }

    open spec fn from_spec(value: ModifyStatus<C>) -> Self {
        Behaviours::ModifyStatus(value)
    }
}

impl<C: Kinds> EnumRef<ModifyStatus<C>> for Behaviours<C> {
    open spec fn held(&self) -> Option<ModifyStatus<C>> {
        match self {
            Behaviours::ModifyStatus(x) => Some(*x),
            _ => None,
        }
    }

    fn enum_ref(&self) -> (r: Option<&ModifyStatus<C>>) {
        match self {
            Behaviours::ModifyStatus(x) => Some(x),
            _ => None,
        }
    }

    fn enum_mut(&mut self) -> (r: Option<&mut ModifyStatus<C>>) {
        match self {
            Behaviours::ModifyStatus(x) => Some(x),
            _ => None,
        }
    }
}

impl<C: Kinds> From<MultiBehaviour<C>> for Behaviours<C> {
    fn from(value: MultiBehaviour<C>) -> (r: Self) {
        Behaviours::MultiBehaviour(value)
    }
}

impl<C: Kinds> vstd::std_specs::convert::FromSpecImpl<MultiBehaviour<C>> for Behaviours<C> {
    open spec fn obeys_from_spec() -> bool {
        true
    }

    open spec fn from_spec(value: MultiBehaviour<C>) -> Self {
        Behaviours::MultiBehaviour(value)
    }
}

impl<C: Kinds> EnumRef<MultiBehaviour<C>> for Behaviours<C> {
    open spec fn held(&self) -> Option<MultiBehaviour<C>> {
        match self {
            Behaviours::MultiBehaviour(x) => Some(*x),
            _ => None,
        }
    }

    fn enum_ref(&self) -> (r: Option<&MultiBehaviour<C>>) {
        match self {
            Behaviours::MultiBehaviour(x) => Some(x),
            _ => None,
        }
    }

    fn enum_mut(&mut self) -> (r: Option<&mut MultiBehaviour<C>>) {
        match self {
            Behaviours::MultiBehaviour(x) => Some(x),
            _ => None,
        }
    }
}

impl<C: Kinds> From<RepeatBehaviour<C>> for Behaviours<C> {
    fn from(value: RepeatBehaviour<C>) -> (r: Self) {
        Behaviours::RepeatBehaviour(value)
    }
}

impl<C: Kinds> vstd::std_specs::convert::FromSpecImpl<RepeatBehaviour<C>> for Behaviours<C> {
    open spec fn obeys_from_spec() -> bool {
        true
    }

    open spec fn from_spec(value: RepeatBehaviour<C>) -> Self {
        Behaviours::RepeatBehaviour(value)
    }
}

impl<C: Kinds> EnumRef<RepeatBehaviour<C>> for Behaviours<C> {
    open spec fn held(&self) -> Option<RepeatBehaviour<C>> {
        match self {
            Behaviours::RepeatBehaviour(x) => Some(*x),
            _ => None,
        }
    }

    fn enum_ref(&self) -> (r: Option<&RepeatBehaviour<C>>) {
        match self {
            Behaviours::RepeatBehaviour(x) => Some(x),
            _ => None,
        }
    }

    fn enum_mut(&mut self) -> (r: Option<&mut RepeatBehaviour<C>>) {
        match self {
            Behaviours::RepeatBehaviour(x) => Some(x),
            _ => None,
        }
    }
}

impl<C: Kinds> From<SequenceBehaviour> for Behaviours<C> {
    fn from(value: SequenceBehaviour) -> (r: Self) {
        Behaviours::SequenceBehaviour(value)
    }
}

impl<C: Kinds> vstd::std_specs::convert::FromSpecImpl<SequenceBehaviour> for Behaviours<C> {
    open spec fn obeys_from_spec() -> bool {
        true
    }

    open spec fn from_spec(value: SequenceBehaviour) -> Self {
        Behaviours::SequenceBehaviour(value)
    }
}

impl<C: Kinds> EnumRef<SequenceBehaviour> for Behaviours<C> {
    open spec fn held(&self) -> Option<SequenceBehaviour> {
        match self {
            Behaviours::SequenceBehaviour(x) => Some(*x),
            _ => None,
        }
    }

    fn enum_ref(&self) -> (r: Option<&SequenceBehaviour>) {
        match self {
            Behaviours::SequenceBehaviour(x) => Some(x),
            _ => None,
        }
    }

    fn enum_mut(&mut self) -> (r: Option<&mut SequenceBehaviour>) {
        match self {
            Behaviours::SequenceBehaviour(x) => Some(x),
            _ => None,
        }
    }
}

impl<C: Kinds> From<FallbackBehaviour> for Behaviours<C> {
    fn from(value: FallbackBehaviour) -> (r: Self) {
        Behaviours::FallbackBehaviour(value)
    }
}

impl<C: Kinds> vstd::std_specs::convert::FromSpecImpl<FallbackBehaviour> for Behaviours<C> {
    open spec fn obeys_from_spec() -> bool {
        true
    }

    open spec fn from_spec(value: FallbackBehaviour) -> Self {
        Behaviours::FallbackBehaviour(value)
    }
}

impl<C: Kinds> EnumRef<FallbackBehaviour> for Behaviours<C> {
    open spec fn held(&self) -> Option<FallbackBehaviour> {
        match self {
            Behaviours::FallbackBehaviour(x) => Some(*x),
            _ => None,
        }
    }

    fn enum_ref(&self) -> (r: Option<&FallbackBehaviour>) {
        match self {
            Behaviours::FallbackBehaviour(x) => Some(x),
            _ => None,
        }
    }

    fn enum_mut(&mut self) -> (r: Option<&mut FallbackBehaviour>) {
        match self {
            Behaviours::FallbackBehaviour(x) => Some(x),
            _ => None,
        }
    }
}

impl<C: Kinds> From<MaxUtilBehaviour> for Behaviours<C> {
    fn from(value: MaxUtilBehaviour) -> (r: Self) {
        Behaviours::MaxUtilBehaviour(value)
    }
}

impl<C: Kinds> vstd::std_specs::convert::FromSpecImpl<MaxUtilBehaviour> for Behaviours<C> {
    open spec fn obeys_from_spec() -> bool {
        true
    }

    open spec fn from_spec(value: MaxUtilBehaviour) -> Self {
        Behaviours::MaxUtilBehaviour(value)
    }
}

impl<C: Kinds> EnumRef<MaxUtilBehaviour> for Behaviours<C> {
    open spec fn held(&self) -> Option<MaxUtilBehaviour> {
        match self {
            Behaviours::MaxUtilBehaviour(x) => Some(*x),
            _ => None,
        }
    }

    fn enum_ref(&self) -> (r: Option<&MaxUtilBehaviour>) {
        match self {
            Behaviours::MaxUtilBehaviour(x) => Some(x),
            _ => None,
        }
    }

    fn enum_mut(&mut self) -> (r: Option<&mut MaxUtilBehaviour>) {
        match self {
            Behaviours::MaxUtilBehaviour(x) => Some(x),
            _ => None,
        }
    }
}

impl<C: Kinds> EnumCast for Behaviours<C> {
    fn cast<T: 'static>(&self) -> (r: Option<&T>)
        ensures
            match self {
                Behaviours::AllSuccessStatus(x) => seen_as::<AllSuccessStatus, T>(x, r),
                Behaviours::AnySuccessStatus(x) => seen_as::<AnySuccessStatus, T>(x, r),
                Behaviours::EvaluateStatus(x) => seen_as::<EvaluateStatus<C>, T>(x, r),
                Behaviours::ModifyStatus(x) => seen_as::<ModifyStatus<C>, T>(x, r),
                Behaviours::MultiBehaviour(x) => seen_as::<MultiBehaviour<C>, T>(x, r),
                Behaviours::RepeatBehaviour(x) => seen_as::<RepeatBehaviour<C>, T>(x, r),
                Behaviours::SequenceBehaviour(x) => seen_as::<SequenceBehaviour, T>(x, r),
                Behaviours::FallbackBehaviour(x) => seen_as::<FallbackBehaviour, T>(x, r),
                Behaviours::MaxUtilBehaviour(x) => seen_as::<MaxUtilBehaviour, T>(x, r),
            },
    {
        match self {
            Behaviours::AllSuccessStatus(x) => cast_ref::<AllSuccessStatus, T>(x),
            Behaviours::AnySuccessStatus(x) => cast_ref::<AnySuccessStatus, T>(x),
            Behaviours::EvaluateStatus(x) => cast_ref::<EvaluateStatus<C>, T>(x),
            Behaviours::ModifyStatus(x) => cast_ref::<ModifyStatus<C>, T>(x),
            Behaviours::MultiBehaviour(x) => cast_ref::<MultiBehaviour<C>, T>(x),
            Behaviours::RepeatBehaviour(x) => cast_ref::<RepeatBehaviour<C>, T>(x),
            Behaviours::SequenceBehaviour(x) => cast_ref::<SequenceBehaviour, T>(x),
            Behaviours::FallbackBehaviour(x) => cast_ref::<FallbackBehaviour, T>(x),
            Behaviours::MaxUtilBehaviour(x) => cast_ref::<MaxUtilBehaviour, T>(x),
        }
    }

    fn cast_mut<T: 'static>(&mut self) -> Option<&mut T> {
        match self {
            Behaviours::AllSuccessStatus(x) => any_mut::<AllSuccessStatus, T>(x),
            Behaviours::AnySuccessStatus(x) => any_mut::<AnySuccessStatus, T>(x),
            Behaviours::EvaluateStatus(x) => any_mut::<EvaluateStatus<C>, T>(x),
            Behaviours::ModifyStatus(x) => any_mut::<ModifyStatus<C>, T>(x),
            Behaviours::MultiBehaviour(x) => any_mut::<MultiBehaviour<C>, T>(x),
            Behaviours::RepeatBehaviour(x) => any_mut::<RepeatBehaviour<C>, T>(x),
            Behaviours::SequenceBehaviour(x) => any_mut::<SequenceBehaviour, T>(x),
            Behaviours::FallbackBehaviour(x) => any_mut::<FallbackBehaviour, T>(x),
            Behaviours::MaxUtilBehaviour(x) => any_mut::<MaxUtilBehaviour, T>(x),
        }
    }

    fn from_any<T: 'static>(t: T) -> Option<Self> {
        let mut slot = Some(t);
        if let Some(hit) = any_mut::<Option<T>, Option<AllSuccessStatus>>(&mut slot) {
            return match hit.take() {
                Some(x) => Some(Behaviours::from(x)),
                None => None,
            };
        }
        if let Some(hit) = any_mut::<Option<T>, Option<AnySuccessStatus>>(&mut slot) {
            return match hit.take() {
                Some(x) => Some(Behaviours::from(x)),
                None => None,
            };
        }
        if let Some(hit) = any_mut::<Option<T>, Option<EvaluateStatus<C>>>(&mut slot) {
            return match hit.take() {
                Some(x) => Some(Behaviours::from(x)),
                None => None,
            };
        }
        if let Some(hit) = any_mut::<Option<T>, Option<ModifyStatus<C>>>(&mut slot) {
            return match hit.take() {
                Some(x) => Some(Behaviours::from(x)),
                None => None,
            };
        }
        if let Some(hit) = any_mut::<Option<T>, Option<MultiBehaviour<C>>>(&mut slot) {
            return match hit.take() {
                Some(x) => Some(Behaviours::from(x)),
                None => None,
            };
        }
        if let Some(hit) = any_mut::<Option<T>, Option<RepeatBehaviour<C>>>(&mut slot) {
            return match hit.take() {
                Some(x) => Some(Behaviours::from(x)),
                None => None,
            };
        }
        if let Some(hit) = any_mut::<Option<T>, Option<SequenceBehaviour>>(&mut slot) {
            return match hit.take() {
                Some(x) => Some(Behaviours::from(x)),
                None => None,
            };
        }
        if let Some(hit) = any_mut::<Option<T>, Option<FallbackBehaviour>>(&mut slot) {
            return match hit.take() {
                Some(x) => Some(Behaviours::from(x)),
                None => None,
            };
        }
        if let Some(hit) = any_mut::<Option<T>, Option<MaxUtilBehaviour>>(&mut slot) {
            return match hit.take() {
                Some(x) => Some(Behaviours::from(x)),
                None => None,
            };
        }
        None
    }
}

} // verus!
