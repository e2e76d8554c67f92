//! The filters that decide which execution results are findings.
use vstd::prelude::*;

use crate::result::ExecutionResult;

verus! {

/// Which anomaly searches are enabled.
#[derive(Clone, Copy, Debug, PartialEq, Eq, Structural)]
pub struct FilterConfig {
    pub search_unknown: bool,
    pub search_length: bool,
    pub search_disasm_length: bool,
    pub search_invalid_known: bool,
    /// Detect unknown instructions that executed cleanly (signum=0, disasm.known=false):
    /// the CPU did something the disassembler does not know about.
    pub search_executed_unknown: bool,
    /// Detect unusual si_code values for known signal types.
    pub search_si_code: bool,
}

impl Default for FilterConfig {
    fn default() -> (r: Self)
        ensures
            !r.search_unknown,
            !r.search_length,
            !r.search_disasm_length,
            !r.search_invalid_known,
            !r.search_executed_unknown,
            !r.search_si_code,
    {
        FilterConfig {
            search_unknown: false,
            search_length: false,
            search_disasm_length: false,
            search_invalid_known: false,
            search_executed_unknown: false,
            search_si_code: false,
        }
    }
}

/// The kind of finding.
#[derive(Clone, Copy, Debug, PartialEq, Eq, Structural)]
pub enum AnomalyKind {
    UnknownInstruction,
    LengthMismatchAny,
    LengthMismatchKnownValid,
    InvalidKnownInstruction,
    /// Unknown instruction that executed without signalling.
    ExecutedUnknown,
    /// Signal delivered with an unusual si_code for its type.
    UnexpectedSiCode,
}

/// Signal numbers that the filters name.
pub const SIGILL: u32 = 4;

pub const SIGTRAP: u32 = 5;

pub const SIGBUS: u32 = 7;

pub const SIGSEGV: u32 = 11;

/// The si_code is not the expected one for its signal: SIGILL and SIGTRAP
/// expect 1 (ILL_ILLOPC, TRAP_BRKPT), SIGBUS and SIGSEGV expect 1 or 2.
pub open spec fn spec_unusual_si_code(signum: u32, si_code: u32) -> bool {
    if signum == SIGILL || signum == SIGTRAP {
        si_code != 1
    } else if signum == SIGBUS || signum == SIGSEGV {
        si_code != 1 && si_code != 2
    } else {
        false
    }
}

/// The first enabled search, in a fixed priority order, that `r` matches.
pub open spec fn spec_detect(c: FilterConfig, r: ExecutionResult) -> Option<AnomalyKind> {
    if r.valid == 0 {
        None
    } else if c.search_executed_unknown && !r.disasm.known && r.signum == 0 {
        Some(AnomalyKind::ExecutedUnknown)
    } else if c.search_unknown && !r.disasm.known && r.signum != SIGILL {
        Some(AnomalyKind::UnknownInstruction)
    } else if c.search_length && r.disasm.known && r.disasm.length != r.length {
        Some(AnomalyKind::LengthMismatchAny)
    } else if c.search_disasm_length && r.disasm.known && r.disasm.length != r.length && r.signum
        != SIGILL {
        Some(AnomalyKind::LengthMismatchKnownValid)
    } else if c.search_invalid_known && r.disasm.known && r.signum == SIGILL {
        Some(AnomalyKind::InvalidKnownInstruction)
    } else if c.search_si_code && spec_unusual_si_code(r.signum, r.si_code) {
        Some(AnomalyKind::UnexpectedSiCode)
    } else {
        None
    }
}

/// Returns true when the si_code is unexpected for the given signal.
pub fn is_unusual_si_code(signum: u32, si_code: u32) -> (r: bool)
    ensures
        r == spec_unusual_si_code(signum, si_code),
{
    match signum {
        4 => si_code != 1,
        5 => si_code != 1,
        7 => si_code != 1 && si_code != 2,
        11 => si_code != 1 && si_code != 2,
        _ => false,
    }
}

impl FilterConfig {
    /// The finding that `result` is, if any.
    pub fn detect(&self, result: &ExecutionResult) -> (r: Option<AnomalyKind>)
        ensures
            r == spec_detect(*self, *result),
            result.valid == 0 ==> r is None,
            r is Some ==> result.valid != 0,
            r == Some(AnomalyKind::ExecutedUnknown) ==> self.search_executed_unknown
                && !result.disasm.known && result.signum == 0,
            r == Some(AnomalyKind::UnknownInstruction) ==> self.search_unknown
                && !result.disasm.known && result.signum != 4,
            r == Some(AnomalyKind::LengthMismatchAny) ==> self.search_length && result.disasm.known
                && result.disasm.length != result.length,
            r == Some(AnomalyKind::LengthMismatchKnownValid) ==> self.search_disasm_length
                && result.disasm.known && result.disasm.length != result.length && result.signum
                != 4,
            r == Some(AnomalyKind::InvalidKnownInstruction) ==> self.search_invalid_known
                && result.disasm.known && result.signum == 4,
            r == Some(AnomalyKind::UnexpectedSiCode) ==> self.search_si_code && (((
            result.signum == 4 || result.signum == 5) && result.si_code != 1) || ((result.signum
                == 7 || result.signum == 11) && result.si_code != 1 && result.si_code != 2)),
    {
        proof {
            lemma_finding_conditions(*self, *result);
        }
        if result.valid == 0 {
            return None;
        }
        if self.search_executed_unknown && !result.disasm.known && result.signum == 0 {
            return Some(AnomalyKind::ExecutedUnknown);
        }
        if self.search_unknown && !result.disasm.known && result.signum != SIGILL {
            return Some(AnomalyKind::UnknownInstruction);
        }
        if self.search_length && result.disasm.known && result.disasm.length != result.length {
            return Some(AnomalyKind::LengthMismatchAny);
        }
        if self.search_disasm_length && result.disasm.known && result.disasm.length
            != result.length && result.signum != SIGILL {
            return Some(AnomalyKind::LengthMismatchKnownValid);
        }
        if self.search_invalid_known && result.disasm.known && result.signum == SIGILL {
            return Some(AnomalyKind::InvalidKnownInstruction);
        }
        if self.search_si_code && is_unusual_si_code(result.signum, result.si_code) {
            return Some(AnomalyKind::UnexpectedSiCode);
        }
        None
    }
}

/// With every search disabled, nothing is a finding.
pub proof fn lemma_no_search_no_finding(c: FilterConfig, r: ExecutionResult)
    requires
        !c.search_unknown,
        !c.search_length,
        !c.search_disasm_length,
        !c.search_invalid_known,
        !c.search_executed_unknown,
        !c.search_si_code,
    ensures
        spec_detect(c, r) is None,
{
}


/// What each kind of finding says of the result: its filter is on, the
/// result was run, and the fields show the anomaly the kind names. A length
/// mismatch counts as "known valid" only when the CPU did not raise SIGILL
/// (4); an unusual code is any but 1 for SIGILL and SIGTRAP (5), any but 1
/// or 2 for SIGBUS (7) and SIGSEGV (11).
pub proof fn lemma_finding_conditions(c: FilterConfig, r: ExecutionResult)
    ensures
        spec_detect(c, r) is Some ==> r.valid != 0,
        spec_detect(c, r) == Some(AnomalyKind::ExecutedUnknown) ==> c.search_executed_unknown
            && !r.disasm.known && r.signum == 0,
        spec_detect(c, r) == Some(AnomalyKind::UnknownInstruction) ==> c.search_unknown
            && !r.disasm.known && r.signum != 4,
        spec_detect(c, r) == Some(AnomalyKind::LengthMismatchAny) ==> c.search_length
            && r.disasm.known && r.disasm.length != r.length,
        spec_detect(c, r) == Some(AnomalyKind::LengthMismatchKnownValid) ==> c.search_disasm_length
            && r.disasm.known && r.disasm.length != r.length && r.signum != 4,
        spec_detect(c, r) == Some(AnomalyKind::InvalidKnownInstruction) ==> c.search_invalid_known
            && r.disasm.known && r.signum == 4,
        spec_detect(c, r) == Some(AnomalyKind::UnexpectedSiCode) ==> c.search_si_code && (((r.signum
            == 4 || r.signum == 5) && r.si_code != 1) || ((r.signum == 7 || r.signum == 11)
            && r.si_code != 1 && r.si_code != 2)),
{
}

} // verus!
