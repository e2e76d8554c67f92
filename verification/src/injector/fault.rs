//! Turning a fault observed while running a probe into a backend
//! observation: the instruction length inferred from the faulting address,
//! and when to stop probing longer lengths.
use vstd::prelude::*;

use crate::injector::observation::BackendObservation;
use crate::instruction::MAX_INSN_LENGTH;

verus! {

/// The trap flag bit of RFLAGS.
pub const TF: usize = 0x100;

/// Size of the `ud2` instruction.
pub const UD2_SIZE: usize = 2;

/// Length reported when the fault does not locate the instruction end.
pub const JMP_LENGTH: usize = 16;

/// Limits used to infer an instruction's length from where it faulted.
#[derive(Clone, Copy, Debug, PartialEq, Eq, Structural)]
pub struct FaultModel {
    pub max_instruction_length: usize,
    pub jump_length: usize,
}

impl Default for FaultModel {
    fn default() -> (r: Self)
        ensures
            r.max_instruction_length == 15,
            r.jump_length == 16,
    {
        Self { max_instruction_length: MAX_INSN_LENGTH, jump_length: JMP_LENGTH }
    }
}

/// The preamble that runs before each probe.
#[derive(Clone, Copy, Debug, PartialEq, Eq, Structural)]
pub struct TrapFlagPreamble {
    pub trap_flag_mask: usize,
    pub ud2_size: usize,
}

impl Default for TrapFlagPreamble {
    fn default() -> (r: Self)
        ensures
            r.trap_flag_mask == 0x100,
            r.ud2_size == 2,
    {
        Self { trap_flag_mask: TF, ud2_size: UD2_SIZE }
    }
}

/// What the signal handler recorded.
#[derive(Clone, Copy, Debug, PartialEq, Eq, Structural)]
pub struct FaultObservation {
    pub signum: u32,
    pub si_code: u32,
    pub fault_addr: usize,
    pub fault_ip: usize,
}

/// Where one probe was placed.
#[derive(Clone, Copy, Debug, PartialEq, Eq, Structural)]
pub struct ProbeContext {
    pub packet_start: usize,
    pub page_end: usize,
    pub preamble_length: usize,
    pub probe_length: usize,
}

/// The length inferred from the faulting instruction pointer: its distance
/// past the packet and preamble, or the jump length when it lies before the
/// packet or further than the longest instruction.
pub open spec fn spec_infer_length(m: FaultModel, fault_ip: usize, packet_start: usize, preamble: usize) -> usize {
    let base: int = if packet_start + preamble > usize::MAX {
        usize::MAX as int
    } else {
        packet_start + preamble
    };
    if fault_ip < base {
        m.jump_length
    } else if fault_ip - base > m.max_instruction_length {
        m.jump_length
    } else {
        (fault_ip - base) as usize
    }
}

/// The fault address kept in a report: the address itself (truncated to 32
/// bits) for SIGSEGV and SIGBUS, `u32::MAX` otherwise.
pub open spec fn spec_normalize_fault_addr(signum: u32, fault_addr: usize) -> u32 {
    if signum == 11 || signum == 7 {
        fault_addr as u32
    } else {
        u32::MAX
    }
}

impl FaultModel {
    pub fn infer_instruction_length(&self, fault_ip: usize, packet_start: usize, preamble_length: usize) -> (r: usize)
        ensures
            r == spec_infer_length(*self, fault_ip, packet_start, preamble_length),
    {
        let packet_with_preamble = packet_start.saturating_add(preamble_length);
        if fault_ip < packet_with_preamble {
            return self.jump_length;
        }
        let delta = fault_ip - packet_with_preamble;
        if delta > self.max_instruction_length {
            self.jump_length
        } else {
            delta
        }
    }

    /// Probing longer lengths stops once the fault is no longer at the end
    /// of the code page (compared on the low 32 bits).
    pub fn should_stop_length_probe(&self, fault_addr: u32, page_end: usize) -> (r: bool)
        ensures
            r == (fault_addr != page_end as u32),
    {
        fault_addr != page_end as u32
    }
}

/// The fault address kept in a report.
pub fn normalize_fault_addr(signum: u32, fault_addr: usize) -> (r: u32)
    ensures
        r == spec_normalize_fault_addr(signum, fault_addr),
{
    if signum == 11 || signum == 7 {
        fault_addr as u32
    } else {
        u32::MAX
    }
}

impl ProbeContext {
    /// The observation for a fault of this probe.
    pub fn infer_fault_result(&self, model: &FaultModel, observation: FaultObservation) -> (r: BackendObservation)
        ensures
            r.valid == 1,
            r.length == spec_infer_length(*model, observation.fault_ip, self.packet_start, self.preamble_length) as u32,
            r.signum == observation.signum,
            r.si_code == observation.si_code,
            r.fault_addr == spec_normalize_fault_addr(observation.signum, observation.fault_addr),
    {
        let inferred_length = model.infer_instruction_length(
            observation.fault_ip,
            self.packet_start,
            self.preamble_length,
        ) as u32;
        BackendObservation {
            valid: 1,
            length: inferred_length,
            signum: observation.signum,
            si_code: observation.si_code,
            fault_addr: normalize_fault_addr(observation.signum, observation.fault_addr),
        }
    }

    /// Probe a longer length while the fault is still at the page end and the
    /// longest instruction has not been reached.
    pub fn should_continue_probing(&self, model: &FaultModel, observation: &BackendObservation) -> (r: bool)
        ensures
            r == (observation.fault_addr == self.page_end as u32 && self.probe_length
                < model.max_instruction_length),
    {
        !model.should_stop_length_probe(observation.fault_addr, self.page_end) && self.probe_length
            < model.max_instruction_length
    }
}

impl ProbeContext {
    /// What one probe of `probe_length` bytes showed: the fault's result
    /// with the probed length, and whether to probe one byte longer.
    pub fn probe_outcome(&self, model: &FaultModel, observation: FaultObservation) -> (r: (BackendObservation, bool))
        ensures
            r.0.valid == 1,
            r.0.length == self.probe_length as u32,
            r.0.signum == observation.signum,
            r.0.si_code == observation.si_code,
            r.0.fault_addr == spec_normalize_fault_addr(observation.signum, observation.fault_addr),
            r.1 == (r.0.fault_addr == self.page_end as u32 && self.probe_length < model.max_instruction_length),
    {
        let mut result = self.infer_fault_result(model, observation);
        result.length = self.probe_length as u32;
        let more = self.should_continue_probing(model, &result);
        (result, more)
    }
}

/// Whether the code page's neighbour can be made non-executable: asked for,
/// and the processor has NX (assumed when its features are unknown).
pub fn effective_nx(nx_support: bool, has_nx: Option<bool>) -> (r: bool)
    ensures
        r == (nx_support && match has_nx {
            Some(b) => b,
            None => true,
        }),
{
    nx_support && match has_nx {
        Some(b) => b,
        None => true,
    }
}

} // verus!
