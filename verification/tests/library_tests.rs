use dynamic_plan_tree::behaviour::{
    check_visited_status_and_jump, clamped_sum, find_active, find_regressed, first_max,
    max_utility, AllSuccessStatus, AnySuccessStatus, Behaviours, EvaluateStatus,
    FallbackBehaviour, MaxUtilBehaviour, ModifyStatus, MultiBehaviour, RepeatBehaviour,
    SequenceBehaviour,
};
use dynamic_plan_tree::predicate::{
    evaluate_all, evaluate_any, evaluate_odd, AllFailure, AllSuccess, And, AnyFailure, AnySuccess,
    False, Nand, Nor, Not, Or, Predicates, True, Xnor, Xor,
};
use dynamic_plan_tree::{Behaviour, Config, EnumCast, EnumRef, IntoEnum, Plan, Predicate, Transition};

struct DefaultConfig;
impl Config for DefaultConfig {
    type Predicate = Predicates;
    type Behaviour = Behaviours<Self>;
}
type DC = DefaultConfig;

/// A behaviour with a status and a utility that are set from outside.
pub struct Fixed(pub Option<bool>, pub i64);
impl<C: Config> Behaviour<C> for Fixed {
    fn status(&self, _plan: &Plan<C>) -> Option<bool> {
        self.0
    }
    fn utility(&self, _plan: &Plan<C>) -> i64 {
        self.1
    }
    fn on_entry(&mut self, _plan: &mut Plan<C>) {}
    fn on_exit(&mut self, _plan: &mut Plan<C>) {}
    fn on_prepare(&mut self, _plan: &mut Plan<C>) {}
    fn on_run(&mut self, _plan: &mut Plan<C>) {}
}

struct FixedConfig;
impl Config for FixedConfig {
    type Predicate = Predicates;
    type Behaviour = Fixed;
}
type FC = FixedConfig;

fn fixed(name: &str, status: Option<bool>, utility: i64) -> Plan<FC> {
    Plan::<FC>::new(Fixed(status, utility), name, 0, false)
}

fn with_statuses(statuses: &[Option<bool>]) -> Plan<FC> {
    let mut root = Plan::<FC>::new_stub("root", false);
    for (i, s) in statuses.iter().enumerate() {
        root.insert(fixed(&i.to_string(), *s, 0));
    }
    root
}

fn strings(names: &[&str]) -> Vec<String> {
    names.iter().map(|n| n.to_string()).collect()
}

#[test]
fn connectives_on_empty_lists() {
    let p = Plan::<DC>::new_stub("", false);
    assert!(And::<Predicates>(vec![]).evaluate(&p, &[]));
    assert!(!Or::<Predicates>(vec![]).evaluate(&p, &[]));
    assert!(!Xor::<Predicates>(vec![]).evaluate(&p, &[]));
    assert!(!Nand::<Predicates>(vec![]).evaluate(&p, &[]));
    assert!(Nor::<Predicates>(vec![]).evaluate(&p, &[]));
    assert!(Xnor::<Predicates>(vec![]).evaluate(&p, &[]));
}

#[test]
fn xor_counts_odd() {
    let p = Plan::<DC>::new_stub("", false);
    let t = || Predicates::from(True);
    let f = || Predicates::from(False);
    assert!(Xor(vec![t(), t(), t()]).evaluate(&p, &[]));
    assert!(!Xor(vec![t(), f(), t()]).evaluate(&p, &[]));
    assert!(Xor(vec![f(), f(), t()]).evaluate(&p, &[]));
    assert!(!Xnor(vec![t(), t(), t()]).evaluate(&p, &[]));
    assert!(Xnor(vec![t(), t(), f(), f()]).evaluate(&p, &[]));
    assert!(evaluate_odd(&vec![t()], &p, &[]));
    assert!(evaluate_all(&vec![t(), t()], &p, &[]));
    assert!(!evaluate_all(&vec![t(), f()], &p, &[]));
    assert!(evaluate_any(&vec![f(), t()], &p, &[]));
    assert!(!evaluate_any(&vec![f(), f()], &p, &[]));
}

#[test]
fn predicates_nest() {
    let p = Plan::<DC>::new_stub("", false);
    let nested: Predicates = And(vec![
        Or(vec![False.into(), Not(Box::new(False.into())).into()]).into(),
        Nand(vec![True.into(), False.into()]).into(),
        Nor(vec![False.into()]).into(),
        Xor(vec![True.into(), False.into()]).into(),
        Xnor(vec![True.into(), True.into()]).into(),
    ])
    .into();
    assert!(nested.evaluate(&p, &[]));
    let nested: Predicates = Not(Box::new(nested)).into();
    assert!(!nested.evaluate(&p, &[]));
}

#[test]
fn status_predicates_over_all_subplans() {
    let none: [String; 0] = [];
    let p = with_statuses(&[Some(true), Some(true)]);
    assert!(AllSuccess.evaluate(&p, &none));
    assert!(AnySuccess.evaluate(&p, &none));
    assert!(!AllFailure.evaluate(&p, &none));
    assert!(!AnyFailure.evaluate(&p, &none));

    let p = with_statuses(&[Some(false), None]);
    assert!(!AllSuccess.evaluate(&p, &none));
    assert!(!AnySuccess.evaluate(&p, &none));
    assert!(!AllFailure.evaluate(&p, &none));
    assert!(AnyFailure.evaluate(&p, &none));

    let p = with_statuses(&[]);
    assert!(AllSuccess.evaluate(&p, &none));
    assert!(!AnySuccess.evaluate(&p, &none));
    assert!(AllFailure.evaluate(&p, &none));
    assert!(!AnyFailure.evaluate(&p, &none));
}

#[test]
fn status_predicates_skip_absent_names() {
    let p = with_statuses(&[Some(true), Some(false), None]);
    assert!(AllSuccess.evaluate(&p, &strings(&["0", "missing"])));
    assert!(!AllSuccess.evaluate(&p, &strings(&["0", "1"])));
    assert!(AllFailure.evaluate(&p, &strings(&["1"])));
    assert!(!AllFailure.evaluate(&p, &strings(&["1", "2"])));
    assert!(AnySuccess.evaluate(&p, &strings(&["2", "0"])));
    assert!(!AnySuccess.evaluate(&p, &strings(&["2", "1"])));
    assert!(AnyFailure.evaluate(&p, &strings(&["1", "0"])));
    assert!(!AnyFailure.evaluate(&p, &strings(&["missing"])));
    assert!(AllSuccess.evaluate(&p, &strings(&["missing"])));
    assert!(AllSuccess.evaluate(&p, &strings(&["0", "0"])));
}

#[test]
fn predicates_enum_says_what_its_variants_say() {
    let p = with_statuses(&[Some(true), Some(false)]);
    let src = strings(&["0"]);
    assert!(Predicates::from(AllSuccess).evaluate(&p, &src));
    assert!(Predicates::from(AnySuccess).evaluate(&p, &src));
    assert!(!Predicates::from(AllFailure).evaluate(&p, &src));
    assert!(!Predicates::from(AnyFailure).evaluate(&p, &src));
    assert!(Predicates::from(AnyFailure).evaluate(&p, &[]));
}

fn status_of(behaviour: Behaviours<DC>) -> Option<bool> {
    Plan::<DC>::new(behaviour, "root", 1, false).status()
}

#[test]
fn status_of_subplans_adds_up() {
    let mut plan = Plan::<DC>::new(AllSuccessStatus.into(), "root", 1, false);
    assert_eq!(plan.status(), Some(true));
    plan.insert(Plan::new(AllSuccessStatus.into(), "ok", 1, false));
    assert_eq!(plan.status(), Some(true));
    plan.insert(Plan::new_stub("open", false));
    assert_eq!(plan.status(), None);
    plan.insert(Plan::new(AnySuccessStatus.into(), "failed", 1, false));
    assert_eq!(plan.status(), Some(false));

    let mut plan = Plan::<DC>::new(AnySuccessStatus.into(), "root", 1, false);
    assert_eq!(plan.status(), Some(false));
    plan.insert(Plan::new(AnySuccessStatus.into(), "failed", 1, false));
    assert_eq!(plan.status(), Some(false));
    plan.insert(Plan::new_stub("open", false));
    assert_eq!(plan.status(), None);
    plan.insert(Plan::new(AllSuccessStatus.into(), "ok", 1, false));
    assert_eq!(plan.status(), Some(true));
}

#[test]
fn modify_status_turns_or_replaces() {
    let ok = || Box::new(Behaviours::<DC>::from(AllSuccessStatus));
    let failed = || Box::new(Behaviours::<DC>::from(AnySuccessStatus));
    let open = || {
        Box::new(Behaviours::<DC>::from(EvaluateStatus(
            False.into(),
            False.into(),
        )))
    };
    assert_eq!(status_of(ModifyStatus(ok(), None).into()), Some(false));
    assert_eq!(status_of(ModifyStatus(failed(), None).into()), Some(true));
    assert_eq!(status_of(ModifyStatus(open(), None).into()), None);
    assert_eq!(status_of(ModifyStatus(ok(), Some(true)).into()), Some(true));
    assert_eq!(status_of(ModifyStatus(ok(), Some(false)).into()), Some(false));
    assert_eq!(status_of(ModifyStatus(failed(), Some(true)).into()), Some(true));
    assert_eq!(status_of(ModifyStatus(open(), Some(true)).into()), None);
}

#[test]
fn multi_behaviour_joins_statuses() {
    let ok = || Behaviours::<DC>::from(AllSuccessStatus);
    let failed = || Behaviours::<DC>::from(AnySuccessStatus);
    let open = || Behaviours::<DC>::from(EvaluateStatus(False.into(), False.into()));
    assert_eq!(status_of(MultiBehaviour(vec![]).into()), Some(true));
    assert_eq!(status_of(MultiBehaviour(vec![ok(), ok()]).into()), Some(true));
    assert_eq!(status_of(MultiBehaviour(vec![ok(), open()]).into()), None);
    assert_eq!(status_of(MultiBehaviour(vec![open(), ok()]).into()), None);
    assert_eq!(
        status_of(MultiBehaviour(vec![open(), failed(), ok()]).into()),
        Some(false)
    );
    assert_eq!(
        status_of(MultiBehaviour(vec![ok(), failed()]).into()),
        Some(false)
    );
}

#[test]
fn sums_stay_in_range() {
    assert_eq!(clamped_sum(&vec![]), 0);
    assert_eq!(clamped_sum(&vec![1, 2, 3]), 6);
    assert_eq!(clamped_sum(&vec![5, -7]), -2);
    assert_eq!(clamped_sum(&vec![i64::MAX, 1]), i64::MAX);
    assert_eq!(clamped_sum(&vec![i64::MAX, 1, -5]), i64::MAX - 4);
    assert_eq!(clamped_sum(&vec![i64::MIN, -1]), i64::MIN);
    assert_eq!(clamped_sum(&vec![i64::MAX, i64::MAX, i64::MIN]), i64::MAX - 1);
    assert_eq!(clamped_sum(&vec![i64::MIN, i64::MIN, i64::MAX]), i64::MIN);
}

#[test]
fn the_first_of_the_greatest() {
    assert_eq!(first_max(&vec![]), None);
    assert_eq!(first_max(&vec![7]), Some(0));
    assert_eq!(first_max(&vec![1, 3, 2]), Some(1));
    assert_eq!(first_max(&vec![3, 1, 3]), Some(0));
    assert_eq!(first_max(&vec![-2, -1, -1]), Some(1));
    assert_eq!(first_max(&vec![0, 0, 0]), Some(0));
    assert_eq!(first_max(&vec![i64::MIN, i64::MAX]), Some(1));
}

#[test]
fn max_utility_takes_the_first_of_equals() {
    let none: Vec<Plan<FC>> = Vec::new();
    assert!(max_utility(&none).is_none());
    let plans = vec![
        fixed("a", None, 2),
        fixed("b", None, 5),
        fixed("c", None, 5),
        fixed("d", None, -1),
    ];
    let (best, utility) = max_utility(&plans).unwrap();
    assert_eq!(best.name(), "b");
    assert_eq!(utility, 5);
    let stubs = vec![
        Plan::<FC>::new_stub("x", false),
        Plan::<FC>::new_stub("y", false),
    ];
    let (best, utility) = max_utility(&stubs).unwrap();
    assert_eq!(best.name(), "x");
    assert_eq!(utility, 0);
}

#[test]
fn utility_sums_and_forwards() {
    let five = || Behaviours::<DC>::from(MaxUtilBehaviour);
    let plan = Plan::<DC>::new(MultiBehaviour(vec![five(), five()]).into(), "root", 1, false);
    assert_eq!(plan.utility(), 0);
    let plan = Plan::<DC>::new(ModifyStatus(Box::new(five()), None).into(), "root", 1, false);
    assert_eq!(plan.utility(), 0);
    let plan = Plan::<DC>::new(RepeatBehaviour::new(five()).into(), "root", 1, false);
    assert_eq!(plan.utility(), 0);
    assert_eq!(Plan::<DC>::new(AllSuccessStatus.into(), "root", 1, false).utility(), 0);
}

pub enum Scored {
    MaxUtilBehaviour(MaxUtilBehaviour),
    MultiBehaviour(MultiBehaviour<ScoredConfig>),
    ModifyStatus(ModifyStatus<ScoredConfig>),
    Fixed(Fixed),
}

impl Behaviour<ScoredConfig> for Scored {
    fn status(&self, plan: &Plan<ScoredConfig>) -> Option<bool> {
        match self {
            Scored::MaxUtilBehaviour(b) => b.status(plan),
            Scored::MultiBehaviour(b) => b.status(plan),
            Scored::ModifyStatus(b) => b.status(plan),
            Scored::Fixed(b) => b.status(plan),
        }
    }
    fn utility(&self, plan: &Plan<ScoredConfig>) -> i64 {
        match self {
            Scored::MaxUtilBehaviour(b) => b.utility(plan),
            Scored::MultiBehaviour(b) => b.utility(plan),
            Scored::ModifyStatus(b) => b.utility(plan),
            Scored::Fixed(b) => b.utility(plan),
        }
    }
    fn on_prepare(&mut self, plan: &mut Plan<ScoredConfig>) {
        match self {
            Scored::MaxUtilBehaviour(b) => b.on_prepare(plan),
            Scored::MultiBehaviour(b) => b.on_prepare(plan),
            Scored::ModifyStatus(b) => b.on_prepare(plan),
            Scored::Fixed(b) => b.on_prepare(plan),
        }
    }
    fn on_entry(&mut self, plan: &mut Plan<ScoredConfig>) {
        match self {
            Scored::MaxUtilBehaviour(b) => b.on_entry(plan),
            Scored::MultiBehaviour(b) => b.on_entry(plan),
            Scored::ModifyStatus(b) => b.on_entry(plan),
            Scored::Fixed(b) => b.on_entry(plan),
        }
    }
    fn on_exit(&mut self, plan: &mut Plan<ScoredConfig>) {
        match self {
            Scored::MaxUtilBehaviour(b) => b.on_exit(plan),
            Scored::MultiBehaviour(b) => b.on_exit(plan),
            Scored::ModifyStatus(b) => b.on_exit(plan),
            Scored::Fixed(b) => b.on_exit(plan),
        }
    }
    fn on_run(&mut self, plan: &mut Plan<ScoredConfig>) {
        match self {
            Scored::MaxUtilBehaviour(b) => b.on_run(plan),
            Scored::MultiBehaviour(b) => b.on_run(plan),
            Scored::ModifyStatus(b) => b.on_run(plan),
            Scored::Fixed(b) => b.on_run(plan),
        }
    }
}

struct ScoredConfig;
impl Config for ScoredConfig {
    type Predicate = Predicates;
    type Behaviour = Scored;
}
type SC = ScoredConfig;

fn scored(name: &str, status: Option<bool>, utility: i64) -> Plan<SC> {
    Plan::<SC>::new(Scored::Fixed(Fixed(status, utility)), name, 0, false)
}

fn active_names(plan: &Plan<SC>) -> Vec<String> {
    plan.plans
        .iter()
        .filter(|p| p.active())
        .map(|p| p.name().clone())
        .collect()
}

#[test]
fn utilities_add_up_within_range() {
    let of = |list: Vec<i64>| {
        let all = list.into_iter().map(|u| Scored::Fixed(Fixed(None, u))).collect();
        Plan::<SC>::new(Scored::MultiBehaviour(MultiBehaviour(all)), "root", 1, false).utility()
    };
    assert_eq!(of(vec![]), 0);
    assert_eq!(of(vec![3, 4]), 7);
    assert_eq!(of(vec![3, -4, 2]), 1);
    assert_eq!(of(vec![i64::MAX, 5]), i64::MAX);
    assert_eq!(of(vec![i64::MAX, 5, -6]), i64::MAX - 1);
    assert_eq!(of(vec![i64::MIN, -5]), i64::MIN);
    let inner = Box::new(Scored::Fixed(Fixed(Some(true), 11)));
    let plan = Plan::<SC>::new(Scored::ModifyStatus(ModifyStatus(inner, None)), "root", 1, false);
    assert_eq!(plan.utility(), 11);
    assert_eq!(plan.status(), Some(false));
}

#[test]
fn max_util_without_subplans_changes_nothing() {
    let mut plan = Plan::<SC>::new(Scored::MaxUtilBehaviour(MaxUtilBehaviour), "root", 1, true);
    assert_eq!(plan.utility(), 0);
    assert_eq!(plan.status(), None);
    plan.run();
    assert!(plan.active());
    assert!(plan.plans.is_empty());
    assert_eq!(plan.utility(), 0);
    assert_eq!(plan.status(), None);
}

#[test]
fn max_util_reports_the_active_subplan() {
    let mut plan = Plan::<SC>::new(Scored::MaxUtilBehaviour(MaxUtilBehaviour), "root", 1, true);
    plan.insert(scored("a", Some(false), 1));
    plan.insert(scored("b", Some(true), 4));
    plan.insert(scored("c", None, 4));
    assert_eq!(plan.utility(), 4);
    assert_eq!(plan.status(), None);
    plan.run();
    assert_eq!(active_names(&plan), ["b"]);
    assert_eq!(plan.status(), Some(true));
    plan.run();
    assert_eq!(active_names(&plan), ["b"]);
    plan.get_mut("a").unwrap().behaviour = Some(Box::new(Scored::Fixed(Fixed(Some(false), 9))));
    plan.run();
    assert_eq!(active_names(&plan), ["a"]);
    assert_eq!(plan.status(), Some(false));
    assert_eq!(plan.utility(), 9);
}

#[test]
fn repeat_settles_on_the_inner_status() {
    let mut repeat = RepeatBehaviour::<DC>::new(AllSuccessStatus.into());
    assert_eq!(repeat.iterations, usize::MAX);
    assert!(!repeat.retry);
    assert!(repeat.condition.is_none());
    assert_eq!(repeat.count_down, 0);
    assert_eq!(repeat.status, None);

    repeat.count_down = 3;
    assert!(!repeat.settle(None));
    assert_eq!((repeat.count_down, repeat.status), (3, None));
    assert!(repeat.settle(Some(true)));
    assert_eq!((repeat.count_down, repeat.status), (2, None));
    assert!(!repeat.settle(Some(false)));
    assert_eq!((repeat.count_down, repeat.status), (2, Some(false)));

    repeat.retry = true;
    repeat.status = None;
    repeat.count_down = 0;
    assert!(repeat.settle(Some(false)));
    assert_eq!((repeat.count_down, repeat.status), (0, None));
    assert!(!repeat.settle(Some(true)));
    assert_eq!((repeat.count_down, repeat.status), (0, Some(true)));
}

#[test]
fn repeat_without_rounds_stops_at_once() {
    for retry in [false, true] {
        let mut repeat = RepeatBehaviour::new(AllSuccessStatus.into());
        repeat.iterations = 0;
        repeat.retry = retry;
        let mut plan = Plan::<DC>::new(repeat.into(), "root", 1, true);
        assert_eq!(plan.status(), None);
        plan.run();
        assert_eq!(plan.status(), Some(!retry));
        plan.run();
        assert_eq!(plan.status(), Some(!retry));
    }
}

#[test]
fn repeat_stops_when_its_condition_fails() {
    let mut repeat = RepeatBehaviour::new(EvaluateStatus(False.into(), False.into()).into());
    repeat.condition = Some(AnySuccess.into());
    let mut plan = Plan::<DC>::new(repeat.into(), "root", 1, true);
    plan.insert(Plan::new(AllSuccessStatus.into(), "ok", 0, false));
    for _ in 0..3 {
        plan.run();
        assert_eq!(plan.status(), None);
    }
    plan.insert(Plan::new_stub("ok", false));
    plan.run();
    assert_eq!(plan.status(), Some(true));
    let repeat: &RepeatBehaviour<DC> = plan.cast().unwrap();
    assert_eq!(repeat.count_down, usize::MAX);
}

#[test]
fn find_active_is_the_first() {
    let mut root = Plan::<FC>::new_stub("root", false);
    assert_eq!(find_active(&root.plans), None);
    for name in ["a", "b", "c"] {
        root.insert(fixed(name, None, 0));
    }
    assert_eq!(find_active(&root.plans), None);
    root.enter();
    root.enter_plan("c");
    assert_eq!(find_active(&root.plans), Some(2));
    root.enter_plan("b");
    assert_eq!(find_active(&root.plans), Some(1));
}

#[test]
fn find_regressed_is_the_first() {
    let mut root = Plan::<FC>::new_stub("root", false);
    root.insert(fixed("ok", Some(true), 0));
    root.insert(fixed("failed", Some(false), 0));
    root.insert(fixed("open", None, 0));
    let visited = strings(&["missing", "ok", "failed", "open"]);
    assert_eq!(find_regressed(&root, &visited, false), Some(2));
    assert_eq!(find_regressed(&root, &visited, true), Some(1));
    assert_eq!(find_regressed(&root, &strings(&["ok"]), false), None);
    assert_eq!(find_regressed(&root, &strings(&["failed"]), true), None);
    assert_eq!(find_regressed(&root, &strings(&["open"]), true), Some(0));
    assert_eq!(find_regressed(&root, &strings(&[]), true), None);
    root.enter();
    root.enter_plan("failed");
    assert_eq!(find_regressed(&root, &visited, false), Some(3));
}

#[test]
fn a_sequence_step_notes_the_active_subplan() {
    let mut root = Plan::<FC>::new_stub("root", false);
    root.insert(fixed("a", Some(true), 0));
    root.insert(fixed("b", Some(true), 0));
    root.enter();
    let mut visited = Vec::new();
    check_visited_status_and_jump(&mut root, &mut visited, false);
    assert!(visited.is_empty());
    root.enter_plan("a");
    check_visited_status_and_jump(&mut root, &mut visited, false);
    assert_eq!(visited, ["a"]);
    check_visited_status_and_jump(&mut root, &mut visited, false);
    assert_eq!(visited, ["a"]);
    root.exit_plan("a");
    root.enter_plan("b");
    check_visited_status_and_jump(&mut root, &mut visited, false);
    assert_eq!(visited, ["a", "b"]);
    // "a" no longer succeeds: back to it
    root.insert(fixed("a", None, 0));
    check_visited_status_and_jump(&mut root, &mut visited, false);
    assert_eq!(visited, ["a"]);
    assert!(root.get("a").unwrap().active());
    assert!(!root.get("b").unwrap().active());
}

#[test]
fn fallback_goes_on_after_failures() {
    let mut plan = Plan::<DC>::new(FallbackBehaviour::default().into(), "root", 1, true);
    for i in 0..3 {
        plan.insert(Plan::new(AnySuccessStatus.into(), &i.to_string(), 0, i == 0));
        plan.transitions.push(Transition {
            src: vec![i.to_string()],
            dst: vec![(i + 1).to_string()],
            predicate: AllFailure.into(),
        });
    }
    plan.insert(Plan::new(AllSuccessStatus.into(), "3", 0, false));
    for i in 0..3 {
        plan.run();
        let active = plan.plans.iter().find(|x| x.active()).unwrap().name();
        assert_eq!(active, &(i + 1).to_string());
    }
    assert_eq!(plan.status(), Some(true));
    plan.run();
    assert_eq!(plan.plans.iter().find(|x| x.active()).unwrap().name(), "3");
    assert_eq!(plan.cast::<FallbackBehaviour>().unwrap().0, ["1", "2", "3"]);
    // a step that was visited no longer fails: back to it
    plan.insert(Plan::new_stub("1", false));
    plan.run();
    assert_eq!(plan.plans.iter().find(|x| x.active()).unwrap().name(), "1");
    assert_eq!(plan.cast::<FallbackBehaviour>().unwrap().0, ["1"]);
    assert_eq!(plan.status(), Some(true));
    plan.run();
    assert_eq!(plan.plans.iter().find(|x| x.active()).unwrap().name(), "1");
}

#[test]
fn defaults_start_empty() {
    assert!(SequenceBehaviour::default().0.is_empty());
    assert!(FallbackBehaviour::default().0.is_empty());
}

#[test]
fn casts_tell_the_variants_apart() {
    let mut b: Behaviours<DC> = ModifyStatus(Box::new(AllSuccessStatus.into()), Some(true)).into();
    assert!(b.cast::<ModifyStatus<DC>>().is_some());
    assert!(b.cast::<AllSuccessStatus>().is_none());
    assert!(b.cast::<u32>().is_none());
    b.cast_mut::<ModifyStatus<DC>>().unwrap().1 = None;
    assert_eq!(b.cast::<ModifyStatus<DC>>().unwrap().1, None);
    assert!(b.cast_mut::<MaxUtilBehaviour>().is_none());

    let r: Option<&ModifyStatus<DC>> = b.enum_ref();
    assert!(r.is_some());
    let r: Option<&MaxUtilBehaviour> = b.enum_ref();
    assert!(r.is_none());
    let r: Option<&mut SequenceBehaviour> = b.enum_mut();
    assert!(r.is_none());

    let mut p: Predicates = Not(Box::new(True.into())).into();
    assert!(p.cast::<Not<Predicates>>().is_some());
    assert!(p.cast::<True>().is_none());
    assert!(p.cast_mut::<Not<Predicates>>().is_some());
    let r: Option<&Not<Predicates>> = p.enum_ref();
    assert!(r.is_some());
    let r: Option<&mut True> = p.enum_mut();
    assert!(r.is_none());
}

#[test]
fn into_enum_finds_the_variant() {
    let p: Option<Predicates> = AnyFailure.into_enum();
    assert!(matches!(p, Some(Predicates::AnyFailure(_))));
    let p: Option<Predicates> = Xor::<Predicates>(vec![]).into_enum();
    assert!(matches!(p, Some(Predicates::Xor(_))));
    let p: Option<Predicates> = 7u32.into_enum();
    assert!(p.is_none());
    let p: Option<Predicates> = MaxUtilBehaviour.into_enum();
    assert!(p.is_none());

    let b: Option<Behaviours<DC>> = SequenceBehaviour(strings(&["a"])).into_enum();
    match b {
        Some(Behaviours::SequenceBehaviour(s)) => assert_eq!(s.0, ["a"]),
        _ => panic!("not a sequence"),
    }
    let b: Option<Behaviours<DC>> = Behaviours::<DC>::from_any(FallbackBehaviour::default());
    assert!(matches!(b, Some(Behaviours::FallbackBehaviour(_))));
    let b: Option<Behaviours<DC>> = True.into_enum();
    assert!(b.is_none());
}

#[test]
fn plans_cast_their_behaviour() {
    let mut root = Plan::<DC>::new(MaxUtilBehaviour.into(), "root", 1, false);
    root.insert(Plan::new(SequenceBehaviour::default().into(), "seq", 1, false));
    root.insert(Plan::new_stub("stub", false));
    assert!(root.cast::<MaxUtilBehaviour>().is_some());
    assert!(root.cast::<SequenceBehaviour>().is_none());
    assert!(root.cast_mut::<MaxUtilBehaviour>().is_some());
    assert!(root.get_cast::<SequenceBehaviour>("seq").is_some());
    assert!(root.get_cast::<MaxUtilBehaviour>("seq").is_none());
    assert!(root.get_cast::<SequenceBehaviour>("stub").is_none());
    assert!(root.get_cast::<SequenceBehaviour>("missing").is_none());
    root.get_cast_mut::<SequenceBehaviour>("seq")
        .unwrap()
        .0
        .push("x".to_string());
    assert_eq!(root.get_cast::<SequenceBehaviour>("seq").unwrap().0, ["x"]);
    assert!(root.get_cast_mut::<SequenceBehaviour>("stub").is_none());
    assert!(Plan::<DC>::new_stub("s", false).cast::<MaxUtilBehaviour>().is_none());
}
