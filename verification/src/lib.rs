//! An engine for hierarchical behaviour trees: plans that nest, behaviours
//! that run while a plan is active, and transitions between sets of subplans.
//!
//! A [`Plan`] is a node of the tree. It is entered and exited, and it is
//! ticked by [`Plan::run`]: the tick makes the transitions of the plan, lets
//! its [`Behaviour`] prepare, ticks the active subplans, and lets the
//! behaviour run. What a tree is made of is named by a [`Config`].
//!
//! Every operation is stated over plain values. A plan between operations
//! is well formed ([`Plan::wf`]): its subplans stand in the strict order of
//! their names, no plan is active below an inactive one, and the countdown of
//! an active plan is at most its interval. What a behaviour or a predicate
//! reports is named by a spec function of its trait, and so is what a
//! callback of a behaviour may make of the behaviour and of its plan
//! ([`Behaviour::turns`]); the operations that run callbacks are stated over
//! that.

pub mod behaviour;
pub mod enum_cast;
pub mod name_order;
pub mod plan;
pub mod predicate;
pub mod tick;

pub use behaviour::{Behaviour, Hook};
pub use enum_cast::{EnumCast, EnumRef, IntoEnum};
pub use plan::{Config, IntoName, Kinds, Plan, Transition};
pub use predicate::Predicate;
