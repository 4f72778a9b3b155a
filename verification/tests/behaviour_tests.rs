use dynamic_plan_tree::behaviour::{
    AllSuccessStatus, AnySuccessStatus, Behaviours, EvaluateStatus, MaxUtilBehaviour,
    RepeatBehaviour, SequenceBehaviour,
};
use dynamic_plan_tree::predicate::{False, Predicates, True};
use dynamic_plan_tree::{Behaviour, Config, EnumRef, Plan, Transition};

struct DefaultConfig;
impl Config for DefaultConfig {
    type Predicate = Predicates;
    type Behaviour = Behaviours<Self>;
}
type DC = DefaultConfig;

#[test]
fn evaluate_status() {
    let make_plan = |t: bool, f: bool| {
        Plan::<DC>::new(
            EvaluateStatus(
                if t { True.into() } else { False.into() },
                if f { True.into() } else { False.into() },
            )
            .into(),
            "root",
            1,
            true,
        )
    };

    let plan = make_plan(false, false);
    assert_eq!(plan.status(), None);

    let plan = make_plan(false, true);
    assert_eq!(plan.status(), Some(false));

    let plan = make_plan(true, false);
    assert_eq!(plan.status(), Some(true));

    let plan = make_plan(true, true);
    assert_eq!(plan.status(), Some(false));
}

#[test]
fn repeat_behaviour() {
    let mut repeat = RepeatBehaviour::new(AllSuccessStatus.into());
    repeat.iterations = 5;
    let mut plan = Plan::<DC>::new(repeat.into(), "root", 1, true);
    // test iteration limit
    for _ in 0..5 {
        plan.run();
        assert_eq!(plan.status(), None);
    }
    plan.run();
    assert_eq!(plan.status(), Some(true));

    // test reset
    plan.exit(false);
    for _ in 0..5 {
        plan.run();
        assert_eq!(plan.status(), None);
    }
    plan.run();
    assert_eq!(plan.status(), Some(true));

    // test stop on failure
    plan.exit(false);
    for _ in 0..3 {
        plan.run();
        assert_eq!(plan.status(), None);
    }
    plan.cast_mut::<RepeatBehaviour<DC>>().unwrap().behaviour = Box::new(AnySuccessStatus.into());
    plan.run();
    assert_eq!(plan.status(), Some(false));

    // test retry bool
    plan.exit(false);
    plan.cast_mut::<RepeatBehaviour<DC>>().unwrap().retry = true;
    for _ in 0..3 {
        plan.run();
        assert_eq!(plan.status(), None);
    }
    plan.cast_mut::<RepeatBehaviour<DC>>().unwrap().behaviour = Box::new(AllSuccessStatus.into());
    plan.run();
    assert_eq!(plan.status(), Some(true));
}

#[test]
fn sequence_behaviour() {
    let mut plan = Plan::<DC>::new(SequenceBehaviour::default().into(), "root", 1, true);
    // the first 5 child plans return success
    for i in 0..5 {
        plan.insert(Plan::new(AllSuccessStatus.into(), i.to_string(), 0, i == 0));
        plan.transitions.push(Transition {
            src: vec![i.to_string()],
            dst: vec![(i + 1).to_string()],
            predicate: True.into(),
        });
    }
    // the last child plan returns None
    plan.insert(Plan::new_stub("5", false));
    // check that child plans sequentually transition as long current child status succeeds
    for i in 0..5 {
        plan.run();
        let active = plan.plans.iter().find(|x| x.active()).unwrap().name();
        assert_eq!(active, &(i + 1).to_string());
        assert_eq!(plan.status(), None);
    }
    // check that child plans stop transitioning when current child status is None
    for _ in 0..5 {
        plan.run();
        let active = plan.plans.iter().find(|x| x.active()).unwrap().name();
        assert_eq!(active, "5");
        assert_eq!(plan.status(), None);
    }
    // change the last child plan to success as well
    plan.insert(Plan::new(AllSuccessStatus.into(), "5", 0, false));
    // expect sequence behaviour to return success when all children are successful
    plan.run();
    assert_eq!(plan.status(), Some(true));
    // expect that sequence will jump back to previusly successful child if status changes
    plan.insert(Plan::new_stub("3", false));
    plan.run();
    assert_eq!(plan.plans.iter().find(|x| x.active()).unwrap().name(), "3");
    assert_eq!(plan.status(), None);
    // same test above with failure status instead
    plan.insert(Plan::new(AnySuccessStatus.into(), "1", 0, false));
    plan.run();
    assert_eq!(plan.plans.iter().find(|x| x.active()).unwrap().name(), "1");
    assert_eq!(plan.status(), Some(false));
}

pub struct SetUtilBehaviour(pub i64);
impl<C: Config> Behaviour<C> for SetUtilBehaviour {
    fn status(&self, _plan: &Plan<C>) -> Option<bool> {
        None
    }
    fn utility(&self, _plan: &Plan<C>) -> i64 {
        self.0
    }
    fn on_entry(&mut self, _plan: &mut Plan<C>) {}
    fn on_exit(&mut self, _plan: &mut Plan<C>) {}
    fn on_prepare(&mut self, _plan: &mut Plan<C>) {}
    fn on_run(&mut self, _plan: &mut Plan<C>) {}
}

pub enum TestBehaviours<C: Config> {
    EvaluateStatus(EvaluateStatus<C>),
    MaxUtilBehaviour(MaxUtilBehaviour),
    SetUtilBehaviour(SetUtilBehaviour),
}

impl<C: Config> Behaviour<C> for TestBehaviours<C> {
    fn status(&self, plan: &Plan<C>) -> Option<bool> {
        match self {
            TestBehaviours::EvaluateStatus(b) => b.status(plan),
            TestBehaviours::MaxUtilBehaviour(b) => b.status(plan),
            TestBehaviours::SetUtilBehaviour(b) => b.status(plan),
        }
    }
    fn utility(&self, plan: &Plan<C>) -> i64 {
        match self {
            TestBehaviours::EvaluateStatus(b) => b.utility(plan),
            TestBehaviours::MaxUtilBehaviour(b) => b.utility(plan),
            TestBehaviours::SetUtilBehaviour(b) => b.utility(plan),
        }
    }
    fn on_entry(&mut self, plan: &mut Plan<C>) {
        match self {
            TestBehaviours::EvaluateStatus(b) => b.on_entry(plan),
            TestBehaviours::MaxUtilBehaviour(b) => b.on_entry(plan),
            TestBehaviours::SetUtilBehaviour(b) => b.on_entry(plan),
        }
    }
    fn on_exit(&mut self, plan: &mut Plan<C>) {
        match self {
            TestBehaviours::EvaluateStatus(b) => b.on_exit(plan),
            TestBehaviours::MaxUtilBehaviour(b) => b.on_exit(plan),
            TestBehaviours::SetUtilBehaviour(b) => b.on_exit(plan),
        }
    }
    fn on_prepare(&mut self, plan: &mut Plan<C>) {
        match self {
            TestBehaviours::EvaluateStatus(b) => b.on_prepare(plan),
            TestBehaviours::MaxUtilBehaviour(b) => b.on_prepare(plan),
            TestBehaviours::SetUtilBehaviour(b) => b.on_prepare(plan),
        }
    }
    fn on_run(&mut self, plan: &mut Plan<C>) {
        match self {
            TestBehaviours::EvaluateStatus(b) => b.on_run(plan),
            TestBehaviours::MaxUtilBehaviour(b) => b.on_run(plan),
            TestBehaviours::SetUtilBehaviour(b) => b.on_run(plan),
        }
    }
}

impl<C: Config> From<MaxUtilBehaviour> for TestBehaviours<C> {
    fn from(b: MaxUtilBehaviour) -> Self {
        TestBehaviours::MaxUtilBehaviour(b)
    }
}

impl<C: Config> From<SetUtilBehaviour> for TestBehaviours<C> {
    fn from(b: SetUtilBehaviour) -> Self {
        TestBehaviours::SetUtilBehaviour(b)
    }
}

impl<C: Config> EnumRef<SetUtilBehaviour> for TestBehaviours<C> {
    fn enum_ref(&self) -> Option<&SetUtilBehaviour> {
        match self {
            TestBehaviours::SetUtilBehaviour(x) => Some(x),
            _ => None,
        }
    }
    fn enum_mut(&mut self) -> Option<&mut SetUtilBehaviour> {
        match self {
            TestBehaviours::SetUtilBehaviour(x) => Some(x),
            _ => None,
        }
    }
}

pub struct TestConfig;
impl Config for TestConfig {
    type Predicate = Predicates;
    type Behaviour = TestBehaviours<Self>;
}
type TC = TestConfig;

#[test]
fn max_util_behaviour() {
    let mut plan = Plan::<TC>::new(MaxUtilBehaviour.into(), "root", 1, true);
    // insert 5 child plans with ascending utility
    for i in 0..5 {
        plan.insert(Plan::new(
            SetUtilBehaviour(i.into()).into(),
            i.to_string(),
            0,
            false,
        ));
    }
    // expect that highest utility plan is entered
    plan.run();
    let mut active = plan
        .plans
        .iter_mut()
        .filter(|x| x.active())
        .collect::<Vec<_>>();
    assert_eq!(active.len(), 1);
    assert_eq!(active[0].name(), "4");
    // reduce utility of active plan and expect transition to another
    active[0].cast_mut::<SetUtilBehaviour>().unwrap().0 = 0;
    plan.run();
    let active = plan
        .plans
        .iter_mut()
        .filter(|x| x.active())
        .collect::<Vec<_>>();
    assert_eq!(active.len(), 1);
    assert_eq!(active[0].name(), "3");
    // increase utility of non-active plan and expect transition to it
    plan.get_mut("2")
        .unwrap()
        .cast_mut::<SetUtilBehaviour>()
        .unwrap()
        .0 = 10;
    plan.run();
    let active = plan
        .plans
        .iter_mut()
        .filter(|x| x.active())
        .collect::<Vec<_>>();
    assert_eq!(active.len(), 1);
    assert_eq!(active[0].name(), "2");
}
