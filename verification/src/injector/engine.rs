//! The injector's loop step: take the next candidate, decode it, skip it
//! when a policy forbids it, else execute it and tell the strategy.
use vstd::prelude::*;

use crate::disasm::{decode_with_backend, DisasmBackend};
use crate::injector::config::InjectorConfig;
use crate::injector::observation::BackendObservation;
use crate::injector::policy::{self, default_opcode_blacklist, default_prefix_blacklist, violates_blacklist, PrefixPolicy};
use crate::instruction::{InstructionBytes, RAW_REPORT_INSN_BYTES};
use crate::result::{DisasmResult, ExecutionResult};
use crate::search::brute::{self, BruteStrategy};
use crate::search::driven::DrivenStrategy;
use crate::search::random::{self, RandomStrategy};
use crate::search::strategy::{SearchMode, SearchRange, StrategyFeedback};
use crate::search::tunnel::{self, TunnelStrategy};
use crate::target::Architecture;
use std::collections::VecDeque;

verus! {

broadcast use InstructionBytes::lemma_shape;

/// What runs a candidate on the processor.
pub trait ExecutionBackend {
    fn execute(&mut self, instruction: &InstructionBytes) -> Result<BackendObservation, String>;
}

/// What the engine did with a candidate.
#[derive(Clone, Debug, PartialEq, Eq)]
pub enum InjectorEvent {
    Executed(ExecutionResult),
    Skipped(ExecutionResult, &'static str),
}

/// The result an event carries.
pub open spec fn event_result(e: InjectorEvent) -> ExecutionResult {
    match e {
        InjectorEvent::Executed(r) => r,
        InjectorEvent::Skipped(r, _) => r,
    }
}

/// The candidate generator the configuration chose.
#[derive(Clone, Debug)]
pub enum EngineStrategy {
    Brute(BruteStrategy),
    Random(RandomStrategy),
    Tunnel(TunnelStrategy),
    Driven(DrivenStrategy),
}

/// The bytes the generator of `s` gives next.
pub open spec fn next_bytes(s: EngineStrategy) -> Option<Seq<u8>> {
    match s {
        EngineStrategy::Brute(b) => brute::brute_step(b@).1,
        EngineStrategy::Tunnel(t) => tunnel::tunnel_step(t@).1,
        EngineStrategy::Driven(d) => if d@.len() > 0 {
            Some(d@[0].spec_bytes())
        } else {
            None
        },
        EngineStrategy::Random(r) => Some(
            random::draw_bytes(
                r.spec_state(),
                r.spec_range().start.spec_bytes(),
                r.spec_range().end.spec_bytes(),
                16,
            ).0,
        ),
    }
}

/// `new` is `old` after it gave its next candidate.
pub open spec fn stepped(old: EngineStrategy, new: EngineStrategy) -> bool {
    match (old, new) {
        (EngineStrategy::Brute(a), EngineStrategy::Brute(b)) => b@ == brute::brute_step(a@).0,
        (EngineStrategy::Tunnel(a), EngineStrategy::Tunnel(b)) => b@ == tunnel::tunnel_step(a@).0,
        (EngineStrategy::Driven(a), EngineStrategy::Driven(b)) => if a@.len() > 0 {
            b@ == a@.drop_first()
        } else {
            b@ == a@
        },
        (EngineStrategy::Random(a), EngineStrategy::Random(b)) => {
            &&& b.spec_range() == a.spec_range()
            &&& b.spec_state() == random::draw_bytes(
                a.spec_state(),
                a.spec_range().start.spec_bytes(),
                a.spec_range().end.spec_bytes(),
                16,
            ).1
        },
        _ => false,
    }
}

/// `new` is `old` after it was told `fb`: only the tunnel listens.
pub open spec fn observed(old: EngineStrategy, new: EngineStrategy, fb: StrategyFeedback) -> bool {
    match old {
        EngineStrategy::Tunnel(a) => new matches EngineStrategy::Tunnel(b) && b@
            == tunnel::tunnel_observe(a@, fb),
        _ => new == old,
    }
}

/// What the strategy learns of an executed result.
pub open spec fn feedback_of(r: ExecutionResult) -> StrategyFeedback {
    StrategyFeedback {
        observed_length: r.length,
        signum: r.signum,
        disasm_length: r.disasm.length,
        disasm_known: r.disasm.known,
    }
}

impl EngineStrategy {
    pub open spec fn inv(&self) -> bool {
        match self {
            EngineStrategy::Brute(b) => b.wf(),
            EngineStrategy::Tunnel(t) => t.wf(),
            _ => true,
        }
    }

    pub fn mode(&self) -> (r: SearchMode)
        ensures
            r == match self {
                EngineStrategy::Brute(_) => SearchMode::Brute,
                EngineStrategy::Random(_) => SearchMode::Random,
                EngineStrategy::Tunnel(_) => SearchMode::Tunnel,
                EngineStrategy::Driven(_) => SearchMode::Driven,
            },
    {
        match self {
            EngineStrategy::Brute(_) => SearchMode::Brute,
            EngineStrategy::Random(_) => SearchMode::Random,
            EngineStrategy::Tunnel(_) => SearchMode::Tunnel,
            EngineStrategy::Driven(_) => SearchMode::Driven,
        }
    }

    pub fn next_candidate(&mut self) -> (r: Option<InstructionBytes>)
        requires
            old(self).inv(),
        ensures
            final(self).inv(),
            stepped(*old(self), *final(self)),
            match r {
                Some(c) => next_bytes(*old(self)) == Some(c.spec_bytes()),
                None => next_bytes(*old(self)) is None,
            },
    {
        match self {
            EngineStrategy::Brute(b) => b.next_candidate(),
            EngineStrategy::Random(s) => s.next_candidate(),
            EngineStrategy::Tunnel(t) => t.next_candidate(),
            EngineStrategy::Driven(d) => d.next_candidate(),
        }
    }

    pub fn observe(&mut self, feedback: StrategyFeedback)
        requires
            old(self).inv(),
        ensures
            final(self).inv(),
            observed(*old(self), *final(self), feedback),
    {
        match self {
            EngineStrategy::Tunnel(t) => t.observe(feedback),
            _ => {},
        }
    }
}

/// A tunnel search needs a byte left to search after the start.
pub open spec fn config_ok(config: InjectorConfig) -> bool {
    config.mode == SearchMode::Tunnel ==> match config.start_instruction {
        Some(s) => s.spec_len() <= 15,
        None => true,
    }
}

/// The strategy the configuration's mode names, over `range`; the random
/// search's seed is `0x5eed` when none is set, the driven search starts empty.
pub fn strategy_from_config(config: &InjectorConfig, range: SearchRange) -> (r: EngineStrategy)
    requires
        config.mode == SearchMode::Tunnel ==> range.start.spec_len() <= 15,
    ensures
        r.inv(),
        match config.mode {
            SearchMode::Brute => r matches EngineStrategy::Brute(b) && b@.current
                == range.start.spec_bytes() && b@.end == range.end.spec_bytes() && b@.depth
                == brute::brute_depth(config.brute_depth as nat, range.start.spec_len())
                && !b@.started && !b@.done,
            SearchMode::Random => r matches EngineStrategy::Random(s) && s.spec_range() == range
                && s.spec_state() == (match config.seed {
                Some(v) => if v == 0 {
                    1
                } else {
                    v
                },
                None => 0x5eedu64,
            }),
            SearchMode::Tunnel => r matches EngineStrategy::Tunnel(t) && t@.bytes
                == range.start.spec_bytes() && t@.end == range.end.spec_bytes() && t@.index
                == range.start.spec_len() && t@.last_length is None && !t@.started && !t@.done,
            SearchMode::Driven => r matches EngineStrategy::Driven(d) && d@.len() == 0,
        },
{
    match config.mode {
        SearchMode::Brute => EngineStrategy::Brute(BruteStrategy::with_range(config.brute_depth, range)),
        SearchMode::Random => {
            let seed = match config.seed {
                Some(v) => v,
                None => 0x5eed,
            };
            EngineStrategy::Random(RandomStrategy::new(seed, range))
        },
        SearchMode::Tunnel => EngineStrategy::Tunnel(TunnelStrategy::with_range(range)),
        SearchMode::Driven => EngineStrategy::Driven(DrivenStrategy::new(VecDeque::new())),
    }
}

/// Why `instruction` is skipped, if it is.
pub open spec fn skip_reason(
    instruction: InstructionBytes,
    opcodes: Seq<(InstructionBytes, &'static str)>,
    prefixes: Seq<(u8, &'static str)>,
    prefix_policy: PrefixPolicy,
    is_x86_64: bool,
) -> Option<Seq<char>> {
    skip_reason_of_bytes(instruction.spec_bytes(), opcodes, prefixes, prefix_policy, is_x86_64)
}

/// `d` is the record of the decoder's answer for `instruction`, for a
/// decoder that states its answers.
pub open spec fn decoded_as<D: DisasmBackend>(disasm: D, instruction: InstructionBytes, d: DisasmResult) -> bool {
    disasm.obeys_decode_spec() ==> match disasm.spec_decode(instruction) {
        Ok(m) => d.length == m.length && d.known == m.known,
        Err(_) => d.length == 0 && !d.known,
    }
}

/// The opcode blacklist an engine for `config` uses: the default entries,
/// then each configured instruction, in order, with the reason
/// `user_blacklist`.
pub open spec fn is_engine_opcode_blacklist(
    s: Seq<(InstructionBytes, &'static str)>,
    config: InjectorConfig,
) -> bool {
    let d = policy::default_opcode_entries().len();
    &&& s.len() == d + config.blacklists@.len()
    &&& policy::is_default_opcode_blacklist(s.take(d as int))
    &&& forall|j: int|
        0 <= j < config.blacklists@.len() ==> s[d + j].0 == #[trigger] config.blacklists@[j]
            && s[d + j].1@ == "user_blacklist"@
}

/// The bytes the configured range starts at: the start instruction's, or 16
/// zero bytes.
pub open spec fn config_start_bytes(config: InjectorConfig) -> Seq<u8> {
    match config.start_instruction {
        Some(s) => s.spec_bytes(),
        None => Seq::new(16, |i: int| 0u8),
    }
}

/// The specified length of the range's start: the start instruction's, or 0.
pub open spec fn config_start_len(config: InjectorConfig) -> nat {
    match config.start_instruction {
        Some(s) => s.spec_len(),
        None => 0,
    }
}

/// The bytes the configured range ends at: the end instruction's, or 16
/// `0xff` bytes.
pub open spec fn config_end_bytes(config: InjectorConfig) -> Seq<u8> {
    match config.end_instruction {
        Some(e) => e.spec_bytes(),
        None => Seq::new(16, |i: int| 0xffu8),
    }
}

/// The specified length of the range's end: the end instruction's, or 15.
pub open spec fn config_end_len(config: InjectorConfig) -> nat {
    match config.end_instruction {
        Some(e) => e.spec_len(),
        None => 15,
    }
}

/// `s` is the fresh strategy the configuration's mode names over its range
/// (`config_start_bytes` to `config_end_bytes`): the random search seeded
/// with the configured seed (`0x5eed` when none, 1 for 0), the driven search
/// empty.
pub open spec fn is_config_strategy(config: InjectorConfig, s: EngineStrategy) -> bool {
    match config.mode {
        SearchMode::Brute => s matches EngineStrategy::Brute(b) && b@.current == config_start_bytes(
            config,
        ) && b@.end == config_end_bytes(config) && b@.depth == brute::brute_depth(
            config.brute_depth as nat,
            config_start_len(config),
        ) && !b@.started && !b@.done,
        SearchMode::Random => s matches EngineStrategy::Random(r)
            && r.spec_range().start.spec_bytes() == config_start_bytes(config)
            && r.spec_range().start.spec_len() == config_start_len(config)
            && r.spec_range().end.spec_bytes() == config_end_bytes(config)
            && r.spec_range().end.spec_len() == config_end_len(config) && r.spec_state() == (
        match config.seed {
            Some(v) => if v == 0 {
                1
            } else {
                v
            },
            None => 0x5eedu64,
        }),
        SearchMode::Tunnel => s matches EngineStrategy::Tunnel(t) && t@.bytes == config_start_bytes(
            config,
        ) && t@.end == config_end_bytes(config) && t@.index == config_start_len(config)
            && t@.last_length is None && !t@.started && !t@.done,
        SearchMode::Driven => s matches EngineStrategy::Driven(d) && d@.len() == 0,
    }
}

/// Drives candidates through a decoder and an execution backend.
pub struct InjectorEngine<D, E> {
    disasm: D,
    backend: E,
    strategy: EngineStrategy,
    opcode_blacklist: Vec<(InstructionBytes, &'static str)>,
    prefix_blacklist: Vec<(u8, &'static str)>,
    prefix_policy: PrefixPolicy,
    is_x86_64: bool,
}

/// Why a candidate with bytes `bytes` is skipped, if it is: the first
/// blacklist entry it matches, else a prefix policy violation.
pub open spec fn skip_reason_of_bytes(
    bytes: Seq<u8>,
    opcodes: Seq<(InstructionBytes, &'static str)>,
    prefixes: Seq<(u8, &'static str)>,
    prefix_policy: PrefixPolicy,
    is_x86_64: bool,
) -> Option<Seq<char>> {
    match policy::spec_violation(bytes, opcodes, prefixes, is_x86_64) {
        Some(reason) => Some(reason@),
        None => {
            let p = policy::leading_prefixes(bytes, is_x86_64);
            if p.len() > prefix_policy.max_prefix || (!prefix_policy.allow_duplicate_prefixes
                && policy::has_duplicate(p)) {
                Some("prefix violation"@)
            } else {
                None
            }
        },
    }
}

impl<D: DisasmBackend, E: ExecutionBackend> InjectorEngine<D, E> {
    pub closed spec fn spec_strategy(&self) -> EngineStrategy {
        self.strategy
    }

    pub closed spec fn spec_disasm(&self) -> D {
        self.disasm
    }

    pub closed spec fn spec_opcode_blacklist(&self) -> Seq<(InstructionBytes, &'static str)> {
        self.opcode_blacklist@
    }

    pub closed spec fn spec_prefix_blacklist(&self) -> Seq<(u8, &'static str)> {
        self.prefix_blacklist@
    }

    pub closed spec fn spec_prefix_policy(&self) -> PrefixPolicy {
        self.prefix_policy
    }

    pub closed spec fn spec_is_x86_64(&self) -> bool {
        self.is_x86_64
    }

    /// The skip reason of a candidate with bytes `bytes` in this engine.
    pub open spec fn spec_skip_reason_bytes(&self, bytes: Seq<u8>) -> Option<Seq<char>> {
        skip_reason_of_bytes(
            bytes,
            self.spec_opcode_blacklist(),
            self.spec_prefix_blacklist(),
            self.spec_prefix_policy(),
            self.spec_is_x86_64(),
        )
    }

    /// The skip reason of `instruction` in this engine.
    pub open spec fn spec_skip_reason(&self, instruction: InstructionBytes) -> Option<Seq<char>> {
        skip_reason(
            instruction,
            self.spec_opcode_blacklist(),
            self.spec_prefix_blacklist(),
            self.spec_prefix_policy(),
            self.spec_is_x86_64(),
        )
    }

    pub closed spec fn inv(&self) -> bool {
        self.strategy.inv()
    }

    /// An engine for the configuration's mode and range; prefix handling
    /// follows the architecture of the machine it runs on
    /// (`config.target`).
    pub fn new(disasm: D, backend: E, config: &InjectorConfig) -> (r: Self)
        requires
            config_ok(*config),
        ensures
            r.inv(),
            r.spec_strategy().inv(),
            is_config_strategy(*config, r.spec_strategy()),
            is_engine_opcode_blacklist(r.spec_opcode_blacklist(), *config),
            policy::is_default_prefix_blacklist(r.spec_prefix_blacklist(), r.spec_is_x86_64()),
            r.spec_prefix_policy() == (PrefixPolicy {
                max_prefix: config.max_prefix,
                allow_duplicate_prefixes: config.allow_duplicate_prefixes,
            }),
            r.spec_is_x86_64() == (config.target.architecture == Architecture::X86_64),
    {
        Self::new_with_strategy(disasm, backend, config, None)
    }

    /// An engine that runs `candidates`, in order.
    pub fn new_with_driven_candidates(
        disasm: D,
        backend: E,
        config: &InjectorConfig,
        candidates: VecDeque<InstructionBytes>,
    ) -> (r: Self)
        ensures
            r.inv(),
            r.spec_strategy() matches EngineStrategy::Driven(d) && d@ == candidates@,
            is_engine_opcode_blacklist(r.spec_opcode_blacklist(), *config),
            policy::is_default_prefix_blacklist(r.spec_prefix_blacklist(), r.spec_is_x86_64()),
            r.spec_prefix_policy() == (PrefixPolicy {
                max_prefix: config.max_prefix,
                allow_duplicate_prefixes: config.allow_duplicate_prefixes,
            }),
            r.spec_is_x86_64() == (config.target.architecture == Architecture::X86_64),
    {
        Self::new_with_strategy(
            disasm,
            backend,
            config,
            Some(EngineStrategy::Driven(DrivenStrategy::new(candidates))),
        )
    }

    fn new_with_strategy(
        disasm: D,
        backend: E,
        config: &InjectorConfig,
        strategy: Option<EngineStrategy>,
    ) -> (r: Self)
        requires
            strategy is None ==> config_ok(*config),
            strategy matches Some(s) ==> s.inv(),
        ensures
            r.inv(),
            strategy matches Some(s) ==> r.spec_strategy() == s,
            strategy is None ==> is_config_strategy(*config, r.spec_strategy()),
            is_engine_opcode_blacklist(r.spec_opcode_blacklist(), *config),
            policy::is_default_prefix_blacklist(r.spec_prefix_blacklist(), r.spec_is_x86_64()),
            r.spec_prefix_policy() == (PrefixPolicy {
                max_prefix: config.max_prefix,
                allow_duplicate_prefixes: config.allow_duplicate_prefixes,
            }),
            r.spec_is_x86_64() == (config.target.architecture == Architecture::X86_64),
    {
        let start = match config.start_instruction {
            Some(s) => s,
            None => InstructionBytes::default(),
        };
        let end = match config.end_instruction {
            Some(e) => e,
            None => InstructionBytes::new([0xffu8; RAW_REPORT_INSN_BYTES], 15),
        };
        assert(start.spec_bytes() == config_start_bytes(*config) && start.spec_len() == config_start_len(*config));
        assert(end.spec_bytes() =~= config_end_bytes(*config));
        assert(end.spec_len() == config_end_len(*config));
        let range = SearchRange { start, end };
        let strategy = match strategy {
            Some(s) => s,
            None => strategy_from_config(config, range),
        };
        let is_x86_64 = match config.target.architecture {
            Architecture::X86_64 => true,
            Architecture::Arm64 => false,
        };
        let mut opcode_blacklist = default_opcode_blacklist();
        let ghost defaults = opcode_blacklist@;
        let ghost d = policy::default_opcode_entries().len();
        let mut i: usize = 0;
        while i < config.blacklists.len()
            invariant
                i <= config.blacklists@.len(),
                defaults.len() == d,
                policy::is_default_opcode_blacklist(defaults),
                opcode_blacklist@.len() == d + i,
                opcode_blacklist@.take(d as int) == defaults,
                forall|j: int|
                    0 <= j < i ==> opcode_blacklist@[d + j].0 == #[trigger] config.blacklists@[j]
                        && opcode_blacklist@[d + j].1@ == "user_blacklist"@,
            decreases config.blacklists.len() - i,
        {
            let ghost before = opcode_blacklist@;
            opcode_blacklist.push((config.blacklists[i], "user_blacklist"));
            assert(opcode_blacklist@.take(d as int) =~= before.take(d as int));
            assert forall|j: int| 0 <= j < i + 1 implies opcode_blacklist@[d + j].0
                == #[trigger] config.blacklists@[j] && opcode_blacklist@[d + j].1@
                == "user_blacklist"@ by {
                if j < i {
                    assert(opcode_blacklist@[d + j] == before[d + j]);
                } else {
                    assert(opcode_blacklist@[d + j] == (config.blacklists@[j], "user_blacklist"));
                }
            }
            i = i + 1;
        }
        Self {
            disasm,
            backend,
            strategy,
            opcode_blacklist,
            prefix_blacklist: default_prefix_blacklist(is_x86_64),
            prefix_policy: PrefixPolicy {
                max_prefix: config.max_prefix,
                allow_duplicate_prefixes: config.allow_duplicate_prefixes,
            },
            is_x86_64,
        }
    }

    /// Why `instruction` would be skipped, if it would.
    pub fn skip_reason(&self, instruction: &InstructionBytes) -> (r: Option<&'static str>)
        ensures
            match r {
                Some(reason) => self.spec_skip_reason(*instruction) == Some(reason@),
                None => self.spec_skip_reason(*instruction) is None,
            },
    {
        match violates_blacklist(
            instruction,
            self.opcode_blacklist.as_slice(),
            self.prefix_blacklist.as_slice(),
            self.is_x86_64,
        ) {
            Some(reason) => Some(reason),
            None => match self.prefix_policy.validate(instruction, self.is_x86_64) {
                Ok(()) => None,
                Err(reason) => Some(reason),
            },
        }
    }

    /// The next event: `None` once the strategy has no candidate; a skipped
    /// candidate carries a zero observation and its reason; an executed one
    /// carries what the backend observed, which the strategy is told. A
    /// backend error is handed back.
    pub fn next_event(&mut self) -> (r: Result<Option<InjectorEvent>, String>)
        requires
            old(self).inv(),
        ensures
            final(self).inv(),
            final(self).spec_opcode_blacklist() == old(self).spec_opcode_blacklist(),
            final(self).spec_prefix_blacklist() == old(self).spec_prefix_blacklist(),
            final(self).spec_prefix_policy() == old(self).spec_prefix_policy(),
            final(self).spec_is_x86_64() == old(self).spec_is_x86_64(),
            next_bytes(old(self).spec_strategy()) is None ==> r matches Ok(None),
            (next_bytes(old(self).spec_strategy()) matches Some(b) && old(self).spec_skip_reason_bytes(b)
                is Some) ==> r matches Ok(Some(InjectorEvent::Skipped(_, _))),
            r is Err ==> (next_bytes(old(self).spec_strategy()) matches Some(b)
                && old(self).spec_skip_reason_bytes(b) is None),
            match r {
                Ok(None) => next_bytes(old(self).spec_strategy()) is None && stepped(
                    old(self).spec_strategy(),
                    final(self).spec_strategy(),
                ),
                Ok(Some(InjectorEvent::Skipped(res, reason))) => {
                    &&& next_bytes(old(self).spec_strategy()) == Some(res.instruction.spec_bytes())
                    &&& stepped(old(self).spec_strategy(), final(self).spec_strategy())
                    &&& old(self).spec_skip_reason(res.instruction) == Some(reason@)
                    &&& decoded_as(old(self).spec_disasm(), res.instruction, res.disasm)
                    &&& res.valid == 0 && res.length == 0 && res.signum == 0 && res.si_code == 0
                        && res.fault_addr == 0
                },
                Ok(Some(InjectorEvent::Executed(res))) => {
                    &&& next_bytes(old(self).spec_strategy()) == Some(res.instruction.spec_bytes())
                    &&& old(self).spec_skip_reason(res.instruction) is None
                    &&& decoded_as(old(self).spec_disasm(), res.instruction, res.disasm)
                    &&& exists|mid: EngineStrategy|
                        stepped(old(self).spec_strategy(), mid) && observed(
                            mid,
                            final(self).spec_strategy(),
                            feedback_of(res),
                        )
                },
                Err(_) => stepped(old(self).spec_strategy(), final(self).spec_strategy()),
            },
    {
        let instruction = match self.strategy.next_candidate() {
            Some(c) => c,
            None => return Ok(None),
        };
        let disasm = decode_with_backend(&self.disasm, &instruction);
        if let Some(reason) = self.skip_reason(&instruction) {
            let result = BackendObservation::default().into_execution_result(instruction, disasm);
            return Ok(Some(InjectorEvent::Skipped(result, reason)));
        }
        let observation = match self.backend.execute(&instruction) {
            Ok(o) => o,
            Err(e) => return Err(e),
        };
        let ghost mid = self.strategy;
        let feedback = StrategyFeedback {
            observed_length: observation.length,
            signum: observation.signum,
            disasm_length: disasm.length,
            disasm_known: disasm.known,
        };
        self.strategy.observe(feedback);
        let result = observation.into_execution_result(instruction, disasm);
        assert(feedback == feedback_of(result));
        Ok(Some(InjectorEvent::Executed(result)))
    }
}

} // verus!
