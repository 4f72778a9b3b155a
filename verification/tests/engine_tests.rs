use dynamic_plan_tree::name_order::{compare, Rank};
use dynamic_plan_tree::predicate::{False, Predicates, True};
use dynamic_plan_tree::tick::list_holds;
use dynamic_plan_tree::{Behaviour, Config, Plan, Transition};

#[derive(Default, Debug)]
pub struct Counter {
    pub entries: u32,
    pub exits: u32,
    pub prepares: u32,
    pub runs: u32,
}

impl<C: Config> Behaviour<C> for Counter {
    fn status(&self, _plan: &Plan<C>) -> Option<bool> {
        None
    }
    fn utility(&self, _plan: &Plan<C>) -> i64 {
        0
    }
    fn on_entry(&mut self, _plan: &mut Plan<C>) {
        self.entries += 1;
    }
    fn on_exit(&mut self, _plan: &mut Plan<C>) {
        self.exits += 1;
    }
    fn on_prepare(&mut self, _plan: &mut Plan<C>) {
        self.prepares += 1;
    }
    fn on_run(&mut self, _plan: &mut Plan<C>) {
        self.runs += 1;
    }
}

struct Counting;
impl Config for Counting {
    type Predicate = Predicates;
    type Behaviour = Counter;
}

fn counted(name: &str, interval: u32, autostart: bool) -> Plan<Counting> {
    Plan::<Counting>::new(Counter::default(), name, interval, autostart)
}

fn counts(plan: &Plan<Counting>) -> (u32, u32, u32, u32) {
    let c = plan.behaviour.as_ref().unwrap();
    (c.entries, c.exits, c.prepares, c.runs)
}

fn names(plan: &Plan<Counting>) -> Vec<String> {
    plan.plans.iter().map(|p| p.name().clone()).collect()
}

#[test]
fn names_compare_by_their_bytes() {
    assert_eq!(compare("a", "b"), Rank::Before);
    assert_eq!(compare("b", "a"), Rank::After);
    assert_eq!(compare("plan", "plan"), Rank::Same);
    assert_eq!(compare("", ""), Rank::Same);
    assert_eq!(compare("", "a"), Rank::Before);
    assert_eq!(compare("a", "ab"), Rank::Before);
    assert_eq!(compare("ab", "a"), Rank::After);
    assert_eq!(compare("plan0", "plan1"), Rank::Before);
    assert_eq!(compare("B", "a"), Rank::Before);
    assert_eq!(compare("z", "\u{e9}"), Rank::Before);
    assert_eq!(compare("\u{e9}", "z"), Rank::After);
    assert_eq!(compare("10", "9"), Rank::Before);
}

#[test]
fn list_holds_equal_strings_only() {
    let list = vec!["A".to_string(), "B".to_string()];
    assert!(list_holds(&list, &"A".to_string()));
    assert!(list_holds(&list, &"B".to_string()));
    assert!(!list_holds(&list, &"C".to_string()));
    assert!(!list_holds(&list, &"".to_string()));
    assert!(!list_holds(&Vec::new(), &"A".to_string()));
}

#[test]
fn new_plans_are_inactive() {
    let plan = counted("p", 7, true);
    assert_eq!(plan.name(), "p");
    assert!(!plan.active());
    assert_eq!(plan.run_countdown(), u32::MAX);
    assert_eq!(plan.run_interval, 7);
    assert!(plan.autostart);
    assert!(plan.behaviour.is_some());
    assert!(plan.transitions.is_empty());
    assert!(plan.plans.is_empty());
    assert!(plan.data.is_empty());

    let stub = Plan::<Counting>::new_stub("s", false);
    assert_eq!(stub.name(), "s");
    assert!(!stub.active());
    assert_eq!(stub.run_countdown(), u32::MAX);
    assert_eq!(stub.run_interval, 0);
    assert!(!stub.autostart);
    assert!(stub.behaviour.is_none());
    assert!(stub.transitions.is_empty());
    assert!(stub.plans.is_empty());
    assert!(stub.data.is_empty());
    assert_eq!(stub.status(), None);
    assert_eq!(stub.utility(), 0);
}

#[test]
fn priority_is_the_place_in_the_order() {
    let mut root = counted("root", 1, false);
    for name in ["d", "b", "f"] {
        root.insert(counted(name, 1, false));
    }
    assert_eq!(names(&root), ["b", "d", "f"]);
    assert_eq!(root.priority("b"), Ok(0));
    assert_eq!(root.priority("d"), Ok(1));
    assert_eq!(root.priority("f"), Ok(2));
    assert_eq!(root.priority("a"), Err(0));
    assert_eq!(root.priority("c"), Err(1));
    assert_eq!(root.priority("e"), Err(2));
    assert_eq!(root.priority("g"), Err(3));
    assert_eq!(root.priority(""), Err(0));
    assert_eq!(counted("empty", 1, false).priority("x"), Err(0));
}

#[test]
fn get_and_remove_find_by_name() {
    let mut root = counted("root", 1, false);
    for name in ["c", "a", "b"] {
        root.insert(counted(name, 1, false));
    }
    assert_eq!(root.get("a").unwrap().name(), "a");
    assert_eq!(root.get("c").unwrap().name(), "c");
    assert!(root.get("x").is_none());
    root.get_mut("b").unwrap().run_interval = 9;
    assert_eq!(root.get("b").unwrap().run_interval, 9);
    assert!(root.get_mut("x").is_none());

    assert!(root.remove("x").is_none());
    assert_eq!(names(&root), ["a", "b", "c"]);
    let taken = root.remove("b").unwrap();
    assert_eq!(taken.name(), "b");
    assert_eq!(taken.run_interval, 9);
    assert_eq!(names(&root), ["a", "c"]);
    assert!(root.remove("b").is_none());
}

#[test]
fn remove_hands_out_an_active_plan_as_it_is() {
    let mut root = counted("root", 1, false);
    root.insert(counted("a", 1, true));
    assert!(root.enter());
    let taken = root.remove("a").unwrap();
    assert!(taken.active());
    assert_eq!(counts(&taken), (1, 0, 0, 0));
}

#[test]
fn insert_into_an_active_plan_enters_autostart() {
    let mut root = counted("root", 1, true);
    assert!(root.enter());
    root.insert(counted("C", 1, true));
    root.insert(counted("A", 1, true));
    root.insert(counted("B", 1, true));
    root.insert(counted("B", 1, true));
    assert_eq!(names(&root), ["A", "B", "C"]);
    for plan in &root.plans {
        assert!(plan.active());
        assert_eq!(counts(plan), (1, 0, 0, 0));
    }
    assert!(root.exit(false));
    for plan in &root.plans {
        assert!(!plan.active());
        assert_eq!(counts(plan), (1, 1, 0, 0));
    }
}

#[test]
fn insert_into_an_active_plan_leaves_others_as_they_are() {
    let mut root = counted("root", 1, true);
    assert!(root.enter());
    let handle = root.insert(counted("quiet", 1, false));
    assert_eq!(handle.name(), "quiet");
    assert!(!handle.active());
    assert_eq!(counts(root.get("quiet").unwrap()), (0, 0, 0, 0));

    let mut running = counted("running", 1, false);
    assert!(running.enter());
    root.insert(running);
    assert!(root.get("running").unwrap().active());
    assert_eq!(counts(root.get("running").unwrap()), (1, 0, 0, 0));
}

#[test]
fn insert_into_an_inactive_plan_exits_the_subplan() {
    let mut root = counted("root", 1, true);
    let mut child = counted("child", 1, true);
    child.insert(counted("grandchild", 1, true));
    assert!(child.enter());
    assert!(child.get("grandchild").unwrap().active());
    root.insert(child);
    let child = root.get("child").unwrap();
    assert!(!child.active());
    assert_eq!(counts(child), (1, 1, 0, 0));
    assert!(!child.get("grandchild").unwrap().active());
    assert_eq!(counts(child.get("grandchild").unwrap()), (1, 1, 0, 0));
}

#[test]
fn enter_and_exit_once_only() {
    let mut root = counted("root", 1, true);
    root.insert(counted("auto", 1, true));
    root.insert(counted("manual", 1, false));
    assert!(!root.exit(false));
    assert_eq!(counts(&root), (0, 0, 0, 0));

    assert!(root.enter());
    assert!(root.active());
    assert_eq!(root.run_countdown(), 0);
    assert!(root.get("auto").unwrap().active());
    assert!(!root.get("manual").unwrap().active());
    assert!(!root.enter());
    assert_eq!(counts(&root), (1, 0, 0, 0));
    assert_eq!(counts(root.get("auto").unwrap()), (1, 0, 0, 0));
    assert_eq!(counts(root.get("manual").unwrap()), (0, 0, 0, 0));

    assert!(root.exit(false));
    assert!(!root.active());
    assert_eq!(root.run_countdown(), u32::MAX);
    assert!(!root.get("auto").unwrap().active());
    assert!(!root.exit(false));
    assert_eq!(counts(&root), (1, 1, 0, 0));
    assert_eq!(counts(root.get("auto").unwrap()), (1, 1, 0, 0));
}

#[test]
fn exit_excluding_self_keeps_the_plan_active() {
    let mut root = counted("root", 1, true);
    root.insert(counted("a", 1, true));
    root.insert(counted("b", 1, true));
    assert!(root.enter());
    assert!(root.exit(true));
    assert!(root.active());
    assert_eq!(counts(&root), (1, 0, 0, 0));
    for plan in &root.plans {
        assert!(!plan.active());
        assert_eq!(counts(plan), (1, 1, 0, 0));
    }
}

#[test]
fn enter_plan_needs_an_active_plan() {
    let mut root = counted("root", 1, true);
    root.insert(counted("a", 1, false));
    assert!(root.enter_plan("a").is_none());
    assert!(!root.get("a").unwrap().active());
    assert!(root.enter_plan("missing").is_none());
    assert_eq!(names(&root), ["a"]);
}

#[test]
fn enter_plan_makes_a_stub_for_a_new_name() {
    let mut root = counted("root", 1, true);
    root.insert(counted("b", 1, false));
    assert!(root.enter());
    assert_eq!(root.enter_plan("b").unwrap().name(), "b");
    assert_eq!(counts(root.get("b").unwrap()), (1, 0, 0, 0));
    assert_eq!(root.enter_plan("b").unwrap().name(), "b");
    assert_eq!(counts(root.get("b").unwrap()), (1, 0, 0, 0));

    let stub = root.enter_plan("a").unwrap();
    assert_eq!(stub.name(), "a");
    assert!(stub.active());
    assert_eq!(stub.run_countdown(), 0);
    assert_eq!(stub.run_interval, 0);
    assert!(!stub.autostart);
    assert!(stub.behaviour.is_none());
    assert_eq!(names(&root), ["a", "b"]);
}

#[test]
fn exit_plan_finds_by_name() {
    let mut root = counted("root", 1, true);
    root.insert(counted("a", 1, true));
    assert!(root.enter());
    assert!(root.exit_plan("missing").is_none());
    let a = root.exit_plan("a").unwrap();
    assert!(!a.active());
    assert_eq!(counts(root.get("a").unwrap()), (1, 1, 0, 0));
    assert!(root.exit_plan("a").is_some());
    assert_eq!(counts(root.get("a").unwrap()), (1, 1, 0, 0));
}

#[test]
fn the_first_tick_enters_the_plan() {
    let mut root = counted("root", 1, false);
    root.insert(counted("a", 1, true));
    root.run();
    assert!(root.active());
    assert_eq!(root.run_countdown(), 0);
    assert_eq!(counts(&root), (1, 0, 1, 1));
    assert_eq!(counts(root.get("a").unwrap()), (1, 0, 1, 1));
    root.run();
    assert_eq!(counts(&root), (1, 0, 2, 2));
    assert_eq!(counts(root.get("a").unwrap()), (1, 0, 2, 2));
}

#[test]
fn the_behaviour_runs_once_each_interval() {
    let mut root = counted("root", 3, false);
    let mut seen = Vec::new();
    for _ in 0..7 {
        root.run();
        seen.push((root.run_countdown(), counts(&root).2, counts(&root).3));
    }
    assert_eq!(
        seen,
        [(2, 1, 1), (1, 1, 1), (0, 1, 1), (2, 2, 2), (1, 2, 2), (0, 2, 2), (2, 3, 3)]
    );
}

#[test]
fn an_interval_of_zero_runs_nothing_but_the_subplans() {
    let mut root = counted("root", 0, false);
    root.insert(counted("a", 1, true));
    for _ in 0..5 {
        root.run();
        assert_eq!(root.run_countdown(), 0);
    }
    assert_eq!(counts(&root), (1, 0, 0, 0));
    assert_eq!(counts(root.get("a").unwrap()), (1, 0, 5, 5));
}

#[test]
fn a_transition_moves_by_the_difference_of_its_sets() {
    let mut root = counted("root", 1, false);
    root.insert(counted("A", 1, true));
    root.insert(counted("B", 1, true));
    root.insert(counted("C", 1, false));
    root.transitions = vec![Transition {
        src: vec!["A".into(), "B".into()],
        dst: vec!["B".into(), "C".into()],
        predicate: True.into(),
    }];
    root.run();
    assert!(!root.get("A").unwrap().active());
    assert!(root.get("B").unwrap().active());
    assert!(root.get("C").unwrap().active());
    assert_eq!(counts(root.get("A").unwrap()), (1, 1, 0, 0));
    assert_eq!(counts(root.get("B").unwrap()), (1, 0, 1, 1));
    assert_eq!(counts(root.get("C").unwrap()), (1, 0, 1, 1));
    // A is no longer active: the transition is not made again
    root.run();
    assert_eq!(counts(root.get("A").unwrap()), (1, 1, 0, 0));
    assert_eq!(counts(root.get("B").unwrap()), (1, 0, 2, 2));
    assert_eq!(counts(root.get("C").unwrap()), (1, 0, 2, 2));
}

#[test]
fn a_transition_needs_its_predicate_and_all_its_sources() {
    let mut root = counted("root", 1, false);
    root.insert(counted("A", 1, true));
    root.insert(counted("B", 1, false));
    root.insert(counted("C", 1, false));
    root.transitions = vec![
        Transition {
            src: vec!["A".into()],
            dst: vec!["B".into()],
            predicate: False.into(),
        },
        Transition {
            src: vec!["A".into(), "C".into()],
            dst: vec!["B".into()],
            predicate: True.into(),
        },
        Transition {
            src: vec!["A".into(), "missing".into()],
            dst: vec!["B".into()],
            predicate: True.into(),
        },
    ];
    root.run();
    assert!(root.get("A").unwrap().active());
    assert!(!root.get("B").unwrap().active());
    assert!(!root.get("C").unwrap().active());
    assert_eq!(names(&root), ["A", "B", "C"]);
}

#[test]
fn transitions_are_chosen_before_the_first_is_made() {
    let mut root = counted("root", 1, false);
    root.insert(counted("A", 1, true));
    root.insert(counted("B", 1, false));
    root.insert(counted("C", 1, false));
    root.transitions = vec![
        Transition {
            src: vec!["A".into()],
            dst: vec!["B".into()],
            predicate: True.into(),
        },
        Transition {
            src: vec!["B".into()],
            dst: vec!["C".into()],
            predicate: True.into(),
        },
    ];
    root.run();
    // B was not active when the transitions were chosen: it stays
    assert!(!root.get("A").unwrap().active());
    assert!(root.get("B").unwrap().active());
    assert!(!root.get("C").unwrap().active());
    root.run();
    assert!(!root.get("B").unwrap().active());
    assert!(root.get("C").unwrap().active());
}

#[test]
fn a_transition_without_sources_enters_its_destinations() {
    let mut root = counted("root", 1, false);
    root.transitions = vec![Transition {
        src: vec![],
        dst: vec!["made".into()],
        predicate: True.into(),
    }];
    root.run();
    let made = root.get("made").unwrap();
    assert!(made.active());
    assert!(made.behaviour.is_none());
    assert_eq!(names(&root), ["made"]);
    assert_eq!(root.transitions.len(), 1);
}

struct ExitOnPrepare;
impl<C: Config> Behaviour<C> for ExitOnPrepare {
    fn status(&self, _plan: &Plan<C>) -> Option<bool> {
        None
    }
    fn utility(&self, _plan: &Plan<C>) -> i64 {
        0
    }
    fn on_prepare(&mut self, plan: &mut Plan<C>) {
        plan.run_countdown = u32::MAX;
    }
    fn on_entry(&mut self, _plan: &mut Plan<C>) {}
    fn on_exit(&mut self, _plan: &mut Plan<C>) {}
    fn on_run(&mut self, _plan: &mut Plan<C>) {}
}

struct Leaving;
impl Config for Leaving {
    type Predicate = Predicates;
    type Behaviour = ExitOnPrepare;
}

#[test]
fn a_plan_that_its_preparation_exits_is_left_at_that() {
    let mut root = Plan::<Leaving>::new(ExitOnPrepare, "root", 1, false);
    root.run();
    assert!(!root.active());
    assert_eq!(root.run_countdown(), u32::MAX);
    assert!(root.behaviour.is_some());
}

#[test]
fn data_is_carried_along() {
    let mut root = counted("root", 1, false);
    root.data
        .insert("speed".to_string(), serde_value::Value::U32(3));
    root.run();
    root.exit(false);
    assert_eq!(root.data.get("speed"), Some(&serde_value::Value::U32(3)));
    assert_eq!(root.data.len(), 1);
}

#[test]
fn operations_leave_a_well_formed_tree() {
    let mut root = counted("root", 2, false);
    assert!(root.is_well_formed());
    for name in ["m", "c", "x", "c", "a"] {
        let mut child = counted(name, 1, name != "x");
        child.insert(counted("inner", 3, true));
        root.insert(child);
        assert!(root.is_well_formed());
    }
    root.transitions = vec![Transition {
        src: vec!["a".into()],
        dst: vec!["x".into(), "new".into()],
        predicate: True.into(),
    }];
    for _ in 0..4 {
        root.run();
        assert!(root.is_well_formed());
    }
    assert_eq!(names(&root), ["a", "c", "m", "new", "x"]);
    root.exit_plan("c");
    assert!(root.is_well_formed());
    root.enter_plan("c");
    root.enter_plan("zz");
    assert!(root.is_well_formed());
    root.remove("m");
    assert!(root.is_well_formed());
    root.exit(true);
    assert!(root.is_well_formed());
    assert!(root.plans.iter().all(|p| !p.active()));
    root.exit(false);
    assert!(root.is_well_formed());
    assert!(!root.active());
}

#[test]
fn a_broken_tree_is_not_well_formed() {
    let mut root = counted("root", 1, false);
    root.insert(counted("a", 1, false));
    root.insert(counted("b", 1, false));
    assert!(root.is_well_formed());

    // subplans out of order
    root.plans.swap(0, 1);
    assert!(!root.is_well_formed());
    root.plans.swap(0, 1);
    assert!(root.is_well_formed());

    // two subplans of one name
    root.plans.push(counted("b", 1, false));
    assert!(!root.is_well_formed());
    root.plans.pop();

    // an active subplan of an inactive plan
    root.plans[1].run_countdown = 0;
    assert!(!root.is_well_formed());
    root.run_countdown = 0;
    assert!(root.is_well_formed());

    // a countdown above the interval
    root.run_countdown = 2;
    assert!(!root.is_well_formed());
    root.run_countdown = 1;
    assert!(root.is_well_formed());

    // a fault further down
    root.plans[0].plans.push(counted("z", 1, false));
    root.plans[0].plans.push(counted("y", 1, false));
    assert!(!root.is_well_formed());
}

fn from_names(names: &[&str]) -> Plan<Counting> {
    let plans = names.iter().map(|n| counted(n, 1, false)).collect();
    Plan::<Counting>::from_parts(
        "root",
        4,
        true,
        Some(Box::new(Counter::default())),
        vec![Transition {
            src: vec!["a".into()],
            dst: vec!["b".into()],
            predicate: True.into(),
        }],
        plans,
        std::collections::HashMap::new(),
    )
}

#[test]
fn parts_make_an_inactive_plan() {
    let plan = from_names(&["a", "b", "c"]);
    assert_eq!(plan.name(), "root");
    assert!(!plan.active());
    assert_eq!(plan.run_countdown(), u32::MAX);
    assert_eq!(plan.run_interval, 4);
    assert!(plan.autostart);
    assert!(plan.behaviour.is_some());
    assert_eq!(plan.transitions.len(), 1);
    assert!(plan.data.is_empty());
    assert_eq!(names(&plan), ["a", "b", "c"]);
    assert!(plan.is_well_formed());
    assert_eq!(counts(&plan), (0, 0, 0, 0));
}

#[test]
fn parts_are_put_in_the_order_of_their_names() {
    assert_eq!(names(&from_names(&[])), [""; 0]);
    assert_eq!(names(&from_names(&["c", "a", "b"])), ["a", "b", "c"]);
    assert_eq!(names(&from_names(&["b", "a", "b", "a"])), ["a", "b"]);
    assert!(from_names(&["z", "y", "x", "y"]).is_well_formed());

    let mut first = counted("same", 1, false);
    first.run_interval = 7;
    let mut second = counted("same", 1, false);
    second.run_interval = 9;
    let plan = Plan::<Counting>::from_parts(
        "root",
        0,
        false,
        None,
        vec![],
        vec![first, second],
        std::collections::HashMap::new(),
    );
    assert_eq!(plan.plans.len(), 1);
    assert_eq!(plan.plans[0].run_interval, 9);
}
