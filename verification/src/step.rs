//! One reconstructed clock cycle: the register files, the reorder buffer
//! grid and the issue queue, each decoded to plain integers and booleans.

use vstd::prelude::*;

verus! {

/// One reorder-buffer entry as it stands in a step.
#[derive(Debug, Clone, Copy, PartialEq, Eq, Structural)]
pub struct RobEntry {
    pub entry_valid: bool,
    pub phys_rd: u32,
    pub arch_rd: u32,
    pub commit_ready: bool,
}

/// One issue-queue entry as it stands in a step.
#[derive(Debug, Clone, Copy, PartialEq, Eq, Structural)]
pub struct IsqEntry {
    pub entry_valid: bool,
    pub alu_cmd: u32,
    pub op1_valid: bool,
    pub op1_data: u32,
    pub op2_valid: bool,
    pub op2_type: u32,
    pub op2_data: u32,
    pub phys_rd: u32,
    pub bank_addr: u32,
    pub rob_addr: u32,
}

impl DeepView for RobEntry {
    type V = RobEntry;

    open spec fn deep_view(&self) -> RobEntry {
        *self
    }
}

/// The three register files of a step: 32 commit-map entries, 32 rename-map
/// entries and 64 physical registers.
#[derive(Debug, Clone, PartialEq, Eq)]
pub struct Regfiles {
    pub commit_map_table: Vec<u32>,
    pub rename_map_table: Vec<u32>,
    pub physical_regfile: Vec<u32>,
}

/// The snapshot taken at one clock rising edge.
#[derive(Debug, Clone, PartialEq, Eq)]
pub struct StepSignal {
    pub regfiles: Regfiles,
    pub rob: Vec<Vec<RobEntry>>,
    pub isq: Vec<IsqEntry>,
}

/// The mathematical image of one step.
pub ghost struct StepModel {
    pub commit_map_table: Seq<u32>,
    pub rename_map_table: Seq<u32>,
    pub physical_regfile: Seq<u32>,
    pub rob: Seq<Seq<RobEntry>>,
    pub isq: Seq<IsqEntry>,
}

impl View for StepSignal {
    type V = StepModel;

    open spec fn view(&self) -> StepModel {
        StepModel {
            commit_map_table: self.regfiles.commit_map_table@,
            rename_map_table: self.regfiles.rename_map_table@,
            physical_regfile: self.regfiles.physical_regfile@,
            rob: self.rob.deep_view(),
            isq: self.isq@,
        }
    }
}

impl DeepView for StepSignal {
    type V = StepModel;

    open spec fn deep_view(&self) -> StepModel {
        self@
    }
}

} // verus!
