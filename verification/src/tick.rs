//! One tick of a plan: its transitions, its behaviour and its subplans.

use crate::name_order::{precedes, precedes_irreflexive};
use crate::behaviour::Hook;
use crate::plan::{Config, Plan, Transition};
use crate::predicate::Predicate;
use vstd::prelude::*;

verus! {

/// One step of a transition: a subplan to exit or to enter, by its name.
pub enum Move {
    Exit(Seq<char>),
    Enter(Seq<char>),
}

/// `list` holds a string equal to `name`.
pub open spec fn holds_name(list: Seq<String>, name: Seq<char>) -> bool {
    exists|i: int| 0 <= i < list.len() && (#[trigger] list[i])@ == name
}

/// Whether `list` holds a string equal to `name`.
pub fn list_holds(list: &Vec<String>, name: &String) -> (r: bool)
    ensures
        r == holds_name(list@, name@),
{
    let mut i: usize = 0;
    while i < list.len()
        invariant
            0 <= i <= list@.len(),
            forall|j: int| 0 <= j < i ==> (#[trigger] list@[j])@ != name@,
        decreases list@.len() - i,
    {
        if list[i] == *name {
            return true;
        }
        i += 1;
    }
    false
}

impl<C: Config> Plan<C> {
    /// One of `plans` is active and has the name `name`.
    pub open spec fn has_active(plans: Seq<Plan<C>>, name: Seq<char>) -> bool {
        exists|i: int|
            0 <= i < plans.len() && (#[trigger] plans[i]).name@ == name && plans[i].is_active()
    }

    /// Every name of `names` is that of an active subplan.
    pub open spec fn all_active(&self, names: Seq<String>) -> bool {
        forall|k: int| 0 <= k < names.len() ==> Self::has_active(self.plans@, (#[trigger] names[k])@)
    }

    /// The transition is made on this tick: its sources are all active and
    /// its predicate holds of the plan and the sources.
    pub open spec fn fires(&self, transition: &Transition<C::Predicate>) -> bool {
        self.all_active(transition.src@) && transition.predicate.holds(self, transition.src@)
    }

    /// Whether every name of `names` is that of an active subplan.
    fn names_active(&self, names: &Vec<String>) -> (r: bool)
        requires
            self.wf(),
        ensures
            r == self.all_active(names@),
    {
        let mut k: usize = 0;
        while k < names.len()
            invariant
                0 <= k <= names@.len(),
                self.wf(),
                forall|j: int|
                    0 <= j < k ==> Self::has_active(self.plans@, (#[trigger] names@[j])@),
            decreases names@.len() - k,
        {
            let found = match self.get(names[k].as_str()) {
                Some(plan) => plan.active(),
                None => false,
            };
            if !found {
                proof {
                    let name = names@[k as int]@;
                    if Self::has_active(self.plans@, name) {
                        let i = choose|i: int|
                            0 <= i < self.plans@.len() && (#[trigger] self.plans@[i]).name@ == name
                                && self.plans@[i].is_active();
                        Self::same_name_same_place(self.plans@, i, Self::index_of(self.plans@, name));
                    }
                }
                return false;
            }
            k += 1;
        }
        true
    }

    /// In sorted subplans two places with one name are one place.
    pub proof fn same_name_same_place(plans: Seq<Plan<C>>, i: int, j: int)
        requires
            Self::names_sorted(plans),
            0 <= i < plans.len(),
            0 <= j < plans.len(),
            plans[i].name@ == plans[j].name@,
        ensures
            i == j,
    {
        precedes_irreflexive(plans[i].name@);
        if i < j {
            assert(precedes(plans[i].name@, plans[j].name@));
        } else if j < i {
            assert(precedes(plans[j].name@, plans[i].name@));
        }
    }

    /// The exit that a transition makes for the source `name`, if that is no
    /// destination.
    pub open spec fn leaving(transition: &Transition<C::Predicate>) -> spec_fn(String) -> Option<
        Move,
    > {
        |name: String|
            if holds_name(transition.dst@, name@) {
                None
            } else {
                Some(Move::Exit(name@))
            }
    }

    /// The entry that a transition makes for the destination `name`, if that
    /// is no source.
    pub open spec fn arriving(transition: &Transition<C::Predicate>) -> spec_fn(String) -> Option<
        Move,
    > {
        |name: String|
            if holds_name(transition.src@, name@) {
                None
            } else {
                Some(Move::Enter(name@))
            }
    }

    /// The steps of one transition: an exit for each source that is no
    /// destination, then an entry for each destination that is no source,
    /// each in the order of its list.
    pub open spec fn moves(transition: &Transition<C::Predicate>) -> Seq<Move> {
        transition.src@.filter_map(Self::leaving(transition)) + transition.dst@.filter_map(
            Self::arriving(transition),
        )
    }

    /// The steps of a transition if it is made on this tick, the plan being
    /// as it is when the tick decides.
    pub open spec fn moves_if_fired(&self) -> spec_fn(Transition<C::Predicate>) -> Seq<Move> {
        |transition: Transition<C::Predicate>|
            if self.fires(&transition) {
                Self::moves(&transition)
            } else {
                Seq::empty()
            }
    }

    /// The steps of the transitions that are made on this tick, in the
    /// order of the transitions.
    pub open spec fn all_moves(&self, transitions: Seq<Transition<C::Predicate>>) -> Seq<Move> {
        transitions.map_values(self.moves_if_fired()).flatten()
    }

    /// What one step makes of the plan `before`.
    pub open spec fn stepped_from(&self, before: &Plan<C>, step: Move) -> bool {
        match step {
            Move::Exit(name) => self.with_exited(before, name),
            Move::Enter(name) => self.with_entered(before, name),
        }
    }

    /// What the steps `steps`, made in their order, make of the plan
    /// `before`.
    pub open spec fn moved_from(&self, before: &Plan<C>, steps: Seq<Move>) -> bool
        decreases steps.len(),
    {
        if steps.len() == 0 {
            *self == *before
        } else {
            exists|mid: Plan<C>|
                mid.moved_from(before, steps.drop_last()) && #[trigger] self.stepped_from(
                    &mid,
                    steps.last(),
                )
        }
    }

    /// Both plans agree in all but their transitions.
    pub open spec fn same_but_transitions(&self, other: &Plan<C>) -> bool {
        &&& self.name == other.name
        &&& self.run_countdown == other.run_countdown
        &&& self.run_interval == other.run_interval
        &&& self.autostart == other.autostart
        &&& self.behaviour == other.behaviour
        &&& self.plans == other.plans
        &&& self.data == other.data
    }

    /// What the transitions of a tick make of the plan `before`: they are
    /// taken out of the plan, those that fire are chosen, their steps are
    /// made, and the transitions are put back.
    pub open spec fn transitioned_from(&self, before: &Plan<C>) -> bool {
        exists|start: Plan<C>, end: Plan<C>|
            start.same_but_transitions(before) && start.transitions@.len() == 0
                && #[trigger] end.moved_from(
                &start,
                start.all_moves(before.transitions@),
            ) && self.same_but_transitions(&end) && self.transitions == before.transitions
    }

    /// What `on_prepare` makes of the plan `before` if that is due.
    pub open spec fn prepared_from(&self, before: &Plan<C>) -> bool {
        if before.is_due() {
            self.called(before, Hook::Prepare)
        } else {
            *self == *before
        }
    }

    /// What the end of a tick makes of the plan `before`: with an interval
    /// of 0 nothing; at a countdown of 0 `on_run` runs and the countdown
    /// starts again, one below the interval; else the countdown goes down by
    /// one.
    pub open spec fn gated_from(&self, before: &Plan<C>) -> bool {
        if before.run_interval == 0 {
            *self == *before
        } else if before.run_countdown == 0 {
            exists|ran: Plan<C>| #[trigger]
                ran.called_run(before) && self.timed_from(&ran, ran.run_interval - 1)
        } else {
            self.timed_from(before, before.run_countdown - 1)
        }
    }

    /// What one tick makes of the plan `before`: it is entered, its
    /// transitions are made, and it is scheduled. The plan stays well formed,
    /// under its name, and gets no deeper.
    pub open spec fn ticked_from(&self, before: &Plan<C>) -> bool
        decreases before.depth(), 2nat,
    {
        &&& exists|entered: Plan<C>, moved: Plan<C>|
            entered.entered_from(before) && #[trigger] moved.transitioned_from(&entered)
                && moved.depth() <= before.depth() && self.scheduled_from(&moved)
        &&& self.wf()
        &&& self.name@ == before.name@
        &&& self.depth() <= before.depth()
    }

    /// What a tick makes of the plan `before` after its transitions:
    /// `on_prepare` runs if the plan is due; if the plan is then still active,
    /// its active subplans are ticked and the tick ends.
    pub open spec fn scheduled_from(&self, before: &Plan<C>) -> bool
        decreases before.depth(), 1nat,
    {
        exists|prepared: Plan<C>| #[trigger]
            prepared.prepared_from(before) && prepared.depth() <= before.depth() && if
                !prepared.is_active() {
                *self == prepared
            } else {
                exists|ticked: Plan<C>|
                    ticked.subplans_ticked(&prepared) && #[trigger] self.gated_from(&ticked)
            }
    }

    /// The plan is `before` with each active subplan ticked.
    pub open spec fn subplans_ticked(&self, before: &Plan<C>) -> bool
        decreases before.depth(), 0nat,
    {
        &&& self.same_but_plans(before)
        &&& self.plans@.len() == before.plans@.len()
        &&& forall|i: int|
            0 <= i < self.plans@.len() ==> if before.plans@[i].is_active() {
                proof {
                    Self::depth_within(before.plans@, i);
                }
                (#[trigger] self.plans@[i]).ticked_from(&before.plans@[i])
            } else {
                self.plans@[i] == before.plans@[i]
            }
    }

    /// One more step at the end of steps that are made.
    pub proof fn moved_on(&self, mid: &Plan<C>, before: &Plan<C>, steps: Seq<Move>, step: Move)
        requires
            mid.moved_from(before, steps),
            self.stepped_from(mid, step),
        ensures
            self.moved_from(before, steps.push(step)),
    {
        let all = steps.push(step);
        assert(all.drop_last() =~= steps);
        assert(all.last() == step);
        assert(mid.moved_from(before, all.drop_last()) && self.stepped_from(mid, all.last()));
    }

    /// Steps that are made after others are made.
    pub proof fn moved_further(
        &self,
        mid: &Plan<C>,
        before: &Plan<C>,
        first: Seq<Move>,
        second: Seq<Move>,
    )
        requires
            mid.moved_from(before, first),
            self.moved_from(mid, second),
        ensures
            self.moved_from(before, first + second),
        decreases second.len(),
    {
        if second.len() == 0 {
            assert(first + second =~= first);
        } else {
            let last = choose|last: Plan<C>|
                last.moved_from(mid, second.drop_last()) && #[trigger] self.stepped_from(
                    &last,
                    second.last(),
                );
            last.moved_further(mid, before, first, second.drop_last());
            assert((first + second).drop_last() =~= first + second.drop_last());
            assert((first + second).last() == second.last());
        }
    }

    /// Steps keep a well-formed plan well formed, and as it is in all but
    /// its subplans.
    pub proof fn moved_kept(&self, before: &Plan<C>, steps: Seq<Move>)
        requires
            before.wf(),
            self.moved_from(before, steps),
        ensures
            self.kept_from(before),
            self.same_but_plans(before),
            !before.is_bare() ==> self.depth() <= before.depth(),
        decreases steps.len(),
    {
        if steps.len() > 0 {
            let mid = choose|mid: Plan<C>|
                mid.moved_from(before, steps.drop_last()) && #[trigger] self.stepped_from(
                    &mid,
                    steps.last(),
                );
            mid.moved_kept(before, steps.drop_last());
            match steps.last() {
                Move::Exit(name) => {
                    self.with_exited_kept(&mid, name);
                },
                Move::Enter(name) => {
                    self.with_entered_kept(&mid, name);
                    if !before.is_bare() && mid.is_bare() {
                        assert(before.depth() >= 1);
                    }
                },
            }
        }
    }

    /// A tick of an active plan with the interval 0 runs none of the
    /// callbacks of its behaviour: it makes the transitions and ticks the
    /// active subplans, and leaves the plan as it is in all but its subplans.
    pub proof fn tick_without_runs(&self, before: &Plan<C>)
        requires
            before.wf(),
            before.is_active(),
            before.run_interval == 0,
            self.ticked_from(before),
        ensures
            exists|moved: Plan<C>| #[trigger]
                moved.transitioned_from(before) && self.subplans_ticked(&moved),
            self.same_but_plans(before),
    {
        let (entered, moved) = choose|entered: Plan<C>, moved: Plan<C>|
            entered.entered_from(before) && #[trigger] moved.transitioned_from(&entered)
                && moved.depth() <= before.depth() && self.scheduled_from(&moved);
        assert(entered == *before);
        let (start, end) = choose|start: Plan<C>, end: Plan<C>|
            start.same_but_transitions(before) && start.transitions@.len() == 0
                && #[trigger] end.moved_from(
                &start,
                start.all_moves(before.transitions@),
            ) && moved.same_but_transitions(&end) && moved.transitions == before.transitions;
        start.slots_keep_wf(before);
        end.moved_kept(&start, start.all_moves(before.transitions@));
        let prepared = choose|prepared: Plan<C>| #[trigger]
            prepared.prepared_from(&moved) && prepared.depth() <= moved.depth() && if
                !prepared.is_active() {
                *self == prepared
            } else {
                exists|ticked: Plan<C>|
                    ticked.subplans_ticked(&prepared) && #[trigger] self.gated_from(&ticked)
            };
        assert(prepared == moved);
        let ticked = choose|ticked: Plan<C>|
            ticked.subplans_ticked(&prepared) && #[trigger] self.gated_from(&ticked);
        assert(*self == ticked);
    }

    /// Makes one transition: exits the sources that are no destinations,
    /// in their order, then enters the destinations that are no sources.
    fn fire(&mut self, transition: &Transition<C::Predicate>)
        requires
            old(self).wf(),
        ensures
            final(self).wf(),
            final(self).moved_from(old(self), Self::moves(transition)),
    {
        let ghost leaving = Self::leaving(transition);
        let ghost arriving = Self::arriving(transition);
        let mut k: usize = 0;
        while k < transition.src.len()
            invariant
                0 <= k <= transition.src@.len(),
                self.wf(),
                leaving == Self::leaving(transition),
                self.moved_from(old(self), transition.src@.take(k as int).filter_map(leaving)),
            decreases transition.src@.len() - k,
        {
            proof {
                transition.src@.lemma_filter_map_take_succ(leaving, k as int);
            }
            if !list_holds(&transition.dst, &transition.src[k]) {
                let ghost mid = *self;
                self.exit_named(transition.src[k].as_str());
                proof {
                    let done = transition.src@.take(k as int).filter_map(leaving);
                    let step = Move::Exit(transition.src@[k as int]@);
                    self.moved_on(&mid, old(self), done, step);
                    assert(done.push(step) =~= done + seq![step]);
                }
            } else {
                proof {
                    let done = transition.src@.take(k as int).filter_map(leaving);
                    assert(done + Seq::<Move>::empty() =~= done);
                }
            }
            k += 1;
        }
        let ghost out = transition.src@.filter_map(leaving);
        proof {
            assert(transition.src@.take(k as int) =~= transition.src@);
            assert(transition.dst@.take(0).filter_map(arriving) =~= Seq::<Move>::empty());
            assert(out + Seq::<Move>::empty() =~= out);
        }
        let mut k: usize = 0;
        while k < transition.dst.len()
            invariant
                0 <= k <= transition.dst@.len(),
                self.wf(),
                arriving == Self::arriving(transition),
                out == transition.src@.filter_map(Self::leaving(transition)),
                self.moved_from(
                    old(self),
                    out + transition.dst@.take(k as int).filter_map(arriving),
                ),
            decreases transition.dst@.len() - k,
        {
            proof {
                transition.dst@.lemma_filter_map_take_succ(arriving, k as int);
            }
            if !list_holds(&transition.src, &transition.dst[k]) {
                let ghost mid = *self;
                self.enter_named(transition.dst[k].as_str());
                proof {
                    let done = out + transition.dst@.take(k as int).filter_map(arriving);
                    let step = Move::Enter(transition.dst@[k as int]@);
                    self.moved_on(&mid, old(self), done, step);
                    assert(done.push(step) =~= out + (transition.dst@.take(k as int).filter_map(
                        arriving,
                    ) + seq![step]));
                }
            } else {
                proof {
                    let done = transition.dst@.take(k as int).filter_map(arriving);
                    assert(done + Seq::<Move>::empty() =~= done);
                }
            }
            k += 1;
        }
        proof {
            assert(transition.dst@.take(k as int) =~= transition.dst@);
        }
    }

    /// One tick: the plan is entered if it is not active; the transitions
    /// whose sources are active and whose predicates hold are made; if the
    /// plan is due, `on_prepare` runs; the active subplans are ticked in the
    /// order of their names; then, if the plan is due, `on_run` runs and the
    /// countdown starts again from the interval.
    ///
    /// Which transitions are made is decided for all of them before the
    /// first is made, with the transitions taken out of the plan meanwhile.
    /// A plan that `on_prepare` has exited is left at that.
    pub fn run(&mut self)
        requires
            old(self).wf(),
        ensures
            final(self).ticked_from(old(self)),
            old(self).behaviour is None || (old(self).is_active() && !old(self).is_due())
                ==> final(self).same_settings(old(self)) && final(self).run_countdown
                == Self::next_countdown(
                if old(self).is_active() {
                    old(self).run_countdown
                } else {
                    0
                },
                old(self).run_interval,
            ),
        decreases old(self).depth(),
    {
        self.enter();
        let ghost entered = *self;

        let mut transitions: Vec<Transition<C::Predicate>> = Vec::new();
        core::mem::swap(&mut transitions, &mut self.transitions);
        proof {
            self.slots_keep_wf(&entered);
        }
        let ghost start = *self;
        let mut chosen: Vec<bool> = Vec::new();
        let mut t: usize = 0;
        while t < transitions.len()
            invariant
                0 <= t <= transitions@.len(),
                *self == start,
                self.wf(),
                chosen@.len() == t,
                forall|j: int| 0 <= j < t ==> chosen@[j] == start.fires(&transitions@[j]),
            decreases transitions@.len() - t,
        {
            let fires = self.names_active(&transitions[t].src) && transitions[t].predicate.evaluate(
                self,
                transitions[t].src.as_slice(),
            );
            chosen.push(fires);
            t += 1;
        }
        let mut t: usize = 0;
        proof {
            assert(transitions@.take(0).map_values(start.moves_if_fired()) =~= Seq::<
                Seq<Move>,
            >::empty());
        }
        while t < transitions.len()
            invariant
                0 <= t <= transitions@.len(),
                chosen@.len() == transitions@.len(),
                forall|j: int|
                    0 <= j < transitions@.len() ==> chosen@[j] == start.fires(&transitions@[j]),
                self.wf(),
                self.moved_from(&start, start.all_moves(transitions@.take(t as int))),
            decreases transitions@.len() - t,
        {
            proof {
                let done = transitions@.take(t as int);
                let step = start.moves_if_fired()(transitions@[t as int]);
                assert(transitions@.take(t as int + 1) =~= done.push(transitions@[t as int]));
                assert(done.push(transitions@[t as int]).map_values(start.moves_if_fired())
                    =~= done.map_values(start.moves_if_fired()).push(step));
                done.map_values(start.moves_if_fired()).lemma_flatten_push(step);
                assert(start.all_moves(done) + Seq::<Move>::empty() =~= start.all_moves(done));
            }
            if chosen[t] {
                let ghost mid = *self;
                self.fire(&transitions[t]);
                proof {
                    self.moved_further(
                        &mid,
                        &start,
                        start.all_moves(transitions@.take(t as int)),
                        Self::moves(&transitions@[t as int]),
                    );
                }
            }
            t += 1;
        }
        let ghost end = *self;
        self.transitions = transitions;
        let ghost moved = *self;
        proof {
            assert(entered.transitions@.take(t as int) =~= entered.transitions@);
            end.moved_kept(&start, start.all_moves(entered.transitions@));
            self.slots_keep_wf(&end);
            assert(self.same_but_plans(&entered));
            if entered.transitions@.len() == 0 {
                assert(self.plans@ == entered.plans@);
            }
            assert(self.depth() <= entered.depth());
            assert(moved.transitioned_from(&entered));
        }

        if self.run_interval > 0 && self.run_countdown == 0 {
            self.call_prepare();
        }
        let ghost prepared = *self;
        if !self.active() {
            proof {
                assert(prepared.prepared_from(&moved));
                assert(self.scheduled_from(&moved));
                assert(entered.entered_from(old(self)) && moved.transitioned_from(&entered));
            }
            return;
        }
        let n = self.plans.len();
        let mut i: usize = 0;
        while i < n
            invariant
                0 <= i <= n,
                n == self.plans@.len(),
                n == prepared.plans@.len(),
                self.wf(),
                self.same_but_plans(&prepared),
                self.depth() <= old(self).depth(),
                forall|j: int|
                    0 <= j < i ==> if prepared.plans@[j].is_active() {
                        (#[trigger] self.plans@[j]).ticked_from(&prepared.plans@[j])
                    } else {
                        self.plans@[j] == prepared.plans@[j]
                    },
                forall|j: int| i <= j < n ==> #[trigger] self.plans@[j] == prepared.plans@[j],
            decreases n - i,
        {
            if self.plans[i].active() {
                let ghost before = *self;
                proof {
                    Self::depth_within(self.plans@, i as int);
                }
                self.plans[i].run();
                proof {
                    self.subplan_replaced(&before, i as int);
                }
            }
            i += 1;
        }
        let ghost ticked = *self;
        proof {
            assert(ticked.subplans_ticked(&prepared));
        }

        if self.run_interval == 0 {
            proof {
                assert(self.gated_from(&ticked));
                assert(ticked.subplans_ticked(&prepared) && self.gated_from(&ticked));
                assert(prepared.prepared_from(&moved));
                assert(self.scheduled_from(&moved));
                assert(entered.entered_from(old(self)) && moved.transitioned_from(&entered));
            }
            return;
        }
        if self.run_countdown == 0 {
            self.call_run();
            let ghost ran = *self;
            self.run_countdown = self.run_interval;
            self.run_countdown -= 1;
            proof {
                assert(ran.called_run(&ticked) && self.timed_from(&ran, ran.run_interval - 1));
            }
        } else {
            self.run_countdown -= 1;
        }
        proof {
            assert(self.gated_from(&ticked));
            assert(ticked.subplans_ticked(&prepared) && self.gated_from(&ticked));
            assert(prepared.prepared_from(&moved));
            assert(self.scheduled_from(&moved));
            assert(entered.entered_from(old(self)) && moved.transitioned_from(&entered));
        }
    }
}

} // verus!
