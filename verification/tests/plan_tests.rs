use dynamic_plan_tree::behaviour::{AllSuccessStatus, AnySuccessStatus, Behaviours};
use dynamic_plan_tree::predicate::{Predicates, True};
use dynamic_plan_tree::{Behaviour, Config, EnumCast, IntoEnum, Plan, Transition};

#[derive(Default, Debug)]
pub struct RunCountBehaviour {
    pub entry_count: u32,
    pub exit_count: u32,
    pub run_count: u32,
}

impl<C: Config> Behaviour<C> for RunCountBehaviour {
    fn status(&self, _plan: &Plan<C>) -> Option<bool> {
        None
    }
    fn utility(&self, _plan: &Plan<C>) -> i64 {
        0
    }
    fn on_entry(&mut self, plan: &mut Plan<C>) {
        self.entry_count += 1;
        assert!(plan.behaviour.is_none())
    }
    fn on_exit(&mut self, _plan: &mut Plan<C>) {
        self.exit_count += 1;
    }
    fn on_run(&mut self, _plan: &mut Plan<C>) {
        self.run_count += 1;
    }
    fn on_prepare(&mut self, _plan: &mut Plan<C>) {}
}

struct TestConfig;
impl Config for TestConfig {
    type Predicate = Predicates;
    type Behaviour = RunCountBehaviour;
}

fn new_plan(name: &str, autostart: bool) -> Plan<TestConfig> {
    Plan::<TestConfig>::new(RunCountBehaviour::default(), name, 1, autostart)
}

fn abc_plan() -> Plan<TestConfig> {
    let mut root_plan = new_plan("root", true);
    root_plan.transitions = vec![
        Transition {
            src: vec!["A".into()],
            dst: vec!["B".into()],
            predicate: True.into_enum().unwrap(),
        },
        Transition {
            src: vec!["B".into()],
            dst: vec!["C".into()],
            predicate: True.into_enum().unwrap(),
        },
        Transition {
            src: vec!["C".into()],
            dst: vec!["A".into()],
            predicate: True.into_enum().unwrap(),
        },
    ];
    // init plan to A
    root_plan.insert(new_plan("A", true));
    root_plan.insert(new_plan("B", false));
    root_plan.insert(new_plan("C", false));
    root_plan.insert(new_plan("D", false));
    root_plan
}

#[test]
fn sorted_insert() {
    let mut root_plan = new_plan("root", true);
    root_plan.insert(new_plan("C", true));
    root_plan.insert(new_plan("A", true));
    root_plan.insert(new_plan("B", true));
    root_plan.insert(new_plan("B", true));

    assert_eq!(root_plan.plans.len(), 3);
    for (i, plan) in root_plan.plans.iter().enumerate() {
        assert!(!plan.active());
        assert_eq!(plan.name(), &((b'A' + (i as u8)) as char).to_string());
        let sm = plan.behaviour.as_ref().unwrap();
        assert_eq!(sm.entry_count, 0);
        assert_eq!(sm.run_count, 0);
        assert_eq!(sm.exit_count, 0);
    }
    root_plan.exit(false);
    for plan in &root_plan.plans {
        assert!(!plan.active());
        assert_eq!(plan.behaviour.as_ref().unwrap().exit_count, 0);
    }
}

#[test]
fn cycle_plans() {
    let mut root_plan = abc_plan();
    root_plan.run();
    root_plan.run();
    let cycles = 10;
    for _ in 0..(cycles - 1) {
        assert!(!root_plan.get("A").unwrap().active());
        assert!(!root_plan.get("B").unwrap().active());
        assert!(root_plan.get("C").unwrap().active());
        assert!(!root_plan.get("D").unwrap().active());
        root_plan.run();
        assert!(root_plan.get("A").unwrap().active());
        assert!(!root_plan.get("B").unwrap().active());
        assert!(!root_plan.get("C").unwrap().active());
        assert!(!root_plan.get("D").unwrap().active());
        root_plan.run();
        assert!(!root_plan.get("A").unwrap().active());
        assert!(root_plan.get("B").unwrap().active());
        assert!(!root_plan.get("C").unwrap().active());
        assert!(!root_plan.get("D").unwrap().active());
        root_plan.run();
    }
    root_plan.exit(false);

    for plan in &root_plan.plans {
        if plan.name() == "D" {
            assert!(!plan.active());
            continue;
        }
        let sm = plan.behaviour.as_ref().unwrap();
        assert_eq!(sm.entry_count, cycles);
        assert_eq!(sm.exit_count, cycles);
        // off by one because the initial plan didn't run
        let run_cycles = if plan.name() == "A" {
            cycles - 1
        } else {
            cycles
        };
        assert_eq!(sm.run_count, run_cycles);
    }
}

struct DefaultConfig;
impl Config for DefaultConfig {
    type Predicate = Predicates;
    type Behaviour = Behaviours<Self>;
}

#[test]
fn downcast() {
    type B = Behaviours<DefaultConfig>;
    let mut a: B = AnySuccessStatus.into();
    let mut b: B = AllSuccessStatus.into();
    a.cast::<AnySuccessStatus>().unwrap();
    b.cast::<AllSuccessStatus>().unwrap();
    a.cast_mut::<AnySuccessStatus>().unwrap();
    b.cast_mut::<AllSuccessStatus>().unwrap();
}
