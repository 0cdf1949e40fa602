//! reaper: the verified core of a filesystem-bloat reaper.

pub mod browser;
pub mod bytes;
pub mod canonical;
pub mod classify;
pub mod deleter;
pub mod digest;
pub mod dirread;
pub mod gitprobe;
pub mod json;
pub mod laws;
pub mod layout;
pub mod manifest;
pub mod members;
pub mod model;
pub mod orchestrator;
pub mod order;
pub mod parse;
pub mod paths;
pub mod plan;
pub mod policy;
pub mod prober;
pub mod reap;
pub mod registry;
pub mod render;
pub mod report;
pub mod rules;
pub mod sizes;
pub mod state;
pub mod sweep;
pub mod table;
pub mod text;
pub mod update;

pub use classify::{admit_facts, classify, Admitted};
pub use model::{
    Candidate, DetectorId, Disposition, EcosystemId, Facts, GitFacts, HeadState, LockState,
    RefusalReason, SafetyClass,
};
pub use plan::{plan, seal, BoundStep, Identity, ReapPlan, ReapStep, SealedPlan};
pub use policy::{IdlePolicy, Policy};
pub use registry::{Detector, DetectorKind, Marker, Match, Registry, RulesetError};
