//! The chain manifest and the apply plan exchanged between the daemon and the rack child. Their
//! JSON form is produced and read by the serde copies of these types; here the values are plain:
//! paths as text, standard-plugin parameters as `(name, f64 bit pattern)` pairs in name order,
//! and the reserved layer branches as their JSON text.

use vstd::prelude::*;

verus! {

/// Default of `enabled`: an omitted flag means enabled.
pub fn enabled_by_default() -> (r: bool)
    ensures
        r,
{
    true
}

/// One stage before loading. The format follows from the path's extension.
#[derive(Debug, Clone)]
pub enum StageSpec {
    /// A catalog plugin at a real file.
    Catalog { path: String, plugin_id: Option<String>, state: Option<String>, enabled: bool },
    /// A standard plugin, named by symbol; the child resolves the path.
    Standard { name: String, params: Vec<(String, u64)>, enabled: bool },
    /// Parallel branches: reserved, always refused by the child.
    Layer { branches: String },
}

impl StageSpec {
    /// Whether the stage is enabled; a layer never is.
    pub fn enabled(&self) -> (r: bool)
        ensures
            r == match *self {
                StageSpec::Catalog { enabled, .. } => enabled,
                StageSpec::Standard { enabled, .. } => enabled,
                StageSpec::Layer { .. } => false,
            },
    {
        match self {
            StageSpec::Catalog { enabled, .. } => *enabled,
            StageSpec::Standard { enabled, .. } => *enabled,
            StageSpec::Layer { .. } => false,
        }
    }

    /// The parameters: only a standard stage has any.
    pub fn params(&self) -> (r: &[(String, u64)])
        ensures
            r@ == match *self {
                StageSpec::Standard { params, .. } => params@,
                _ => Seq::<(String, u64)>::empty(),
            },
    {
        match self {
            StageSpec::Standard { params, .. } => params.as_slice(),
            _ => &[],
        }
    }
}

/// The chain manifest handed to the child at spawn.
#[derive(Debug, Clone)]
pub struct ChainManifest {
    pub version: u32,
    pub stages: Vec<StageSpec>,
}

/// One element of an apply plan.
#[derive(Debug, Clone)]
pub enum PlanStage {
    /// Keep the element at `prev_index` of the chain before the apply.
    Keep { prev_index: usize, enabled: bool, params: Vec<(String, u64)> },
    /// Load a new stage.
    Load { stage: StageSpec },
}

/// Where the state of a dropped element is saved.
#[derive(Debug, Clone, PartialEq, Eq)]
pub struct SaveDropped {
    pub prev_index: usize,
    pub path: String,
}

/// The plan carried by `CMD_APPLY_CHAIN`.
#[derive(Debug, Clone)]
pub struct ApplyPlan {
    pub version: u32,
    pub stages: Vec<PlanStage>,
    pub save_dropped: Vec<SaveDropped>,
}

} // verus!
