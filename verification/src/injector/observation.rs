//! What an execution backend reports for one candidate.
use vstd::prelude::*;

use crate::instruction::InstructionBytes;
use crate::result::{DisasmResult, ExecutionResult};

verus! {

#[derive(Clone, Copy, Debug, PartialEq, Eq, Structural)]
pub struct BackendObservation {
    pub valid: u32,
    pub length: u32,
    pub signum: u32,
    pub si_code: u32,
    pub fault_addr: u32,
}

impl Default for BackendObservation {
    fn default() -> (r: Self)
        ensures
            r.valid == 0,
            r.length == 0,
            r.signum == 0,
            r.si_code == 0,
            r.fault_addr == 0,
    {
        BackendObservation { valid: 0, length: 0, signum: 0, si_code: 0, fault_addr: 0 }
    }
}

impl BackendObservation {
    /// The full record of `instruction` with this observation.
    pub fn into_execution_result(self, instruction: InstructionBytes, disasm: DisasmResult) -> (r: ExecutionResult)
        ensures
            r.disasm == disasm,
            r.instruction == instruction,
            r.valid == self.valid,
            r.length == self.length,
            r.signum == self.signum,
            r.si_code == self.si_code,
            r.fault_addr == self.fault_addr,
    {
        ExecutionResult {
            disasm,
            instruction,
            valid: self.valid,
            length: self.length,
            signum: self.signum,
            si_code: self.si_code,
            fault_addr: self.fault_addr,
        }
    }
}

} // verus!
