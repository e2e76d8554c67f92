//! The frontend's running statistics: what each packet line changes.
use vstd::prelude::*;

use crate::injector::packet::{self, VersionedPacket};
use crate::instruction::{self, bytes_lt, format_full_hex, InstructionBytes};
use crate::legacy_format::{self, LegacyArtifactRecord};
use crate::result::ExecutionResult;
use crate::sifter::args::CliConfig;
use crate::target::TargetSpec;
use crate::text;
use crate::text::{chars_of, trim_chars};
use crate::anomaly;
use std::collections::VecDeque;

verus! {

broadcast use InstructionBytes::lemma_shape;

/// How many recent results the display keeps.
pub const INSTRUCTION_LOG_LEN: usize = 20;

/// How many recent findings the display keeps.
pub const ARTIFACT_LOG_LEN: usize = 10;

/// What a scan has seen so far. `artifacts` holds one finding per executed
/// byte string, in the order of those strings.
#[derive(Clone, Debug)]
pub struct ScanStats {
    pub tested: u64,
    pub artifacts_found: u64,
    pub last_result: Option<ExecutionResult>,
    pub recent_results: VecDeque<ExecutionResult>,
    pub recent_artifacts: VecDeque<ExecutionResult>,
    pub artifacts: Vec<ExecutionResult>,
    pub target: Option<TargetSpec>,
}

/// The results are in strictly increasing order of their executed bytes, so
/// no two share them.
pub open spec fn sorted_by_key(rs: Seq<ExecutionResult>) -> bool {
    forall|i: int, j: int|
        0 <= i < j < rs.len() ==> instruction::lex_lt(
            #[trigger] rs[i].executed_bytes(),
            #[trigger] rs[j].executed_bytes(),
        )
}

/// Some result of `rs` executed the bytes `key`.
pub open spec fn has_key(rs: Seq<ExecutionResult>, key: Seq<u8>) -> bool {
    exists|i: int| 0 <= i < rs.len() && (#[trigger] rs[i]).executed_bytes() == key
}

/// `s` with `x` appended, its first item dropped when it already held `max`.
pub open spec fn bounded_push<T>(s: Seq<T>, x: T, max: nat) -> Seq<T> {
    (if s.len() == max && s.len() > 0 {
        s.drop_first()
    } else {
        s
    }).push(x)
}

/// Appends `item`, first dropping the oldest when `items` holds `max_len`.
pub fn push_bounded<T>(items: &mut VecDeque<T>, item: T, max_len: usize)
    ensures
        final(items)@ == bounded_push(old(items)@, item, max_len as nat),
        old(items)@.len() <= max_len && max_len >= 1 ==> final(items)@.len() <= max_len,
{
    if items.len() == max_len {
        let _ = items.pop_front();
    }
    items.push_back(item);
    proof {
        if old(items)@.len() == max_len && max_len > 0 {
            assert(old(items)@.subrange(1, old(items)@.len() as int) =~= old(items)@.drop_first());
        }
    }
}

/// What the frontend does with one packet line.
#[derive(Clone, Debug)]
pub struct SiftOutcome {
    /// The result the line carried; `None` for a blank or comment line.
    pub result: Option<ExecutionResult>,
    /// The tick file's new text, when ticks are kept.
    pub tick_text: Option<String>,
    /// The resume file's new text, when the scan is saved.
    pub last_text: Option<String>,
    /// Whether a filter flagged the result.
    pub finding: bool,
    /// The artifact line for the sync log, for a new finding while syncing.
    pub sync_line: Option<String>,
}

/// A blank line or one starting with `#`.
pub open spec fn skipped_line(line: Seq<char>) -> bool {
    text::trim(line).len() == 0 || (line.len() > 0 && line[0] == '#')
}

/// `res`, on `target`, is what `parse_line` reads from `line`.
pub open spec fn read_from(line: Seq<char>, target: TargetSpec, res: ExecutionResult) -> bool {
    &&& packet::spec_parse_packet(line) == Ok::<_, Seq<char>>(
        packet::packet_record(VersionedPacket { target, result: res }),
    )
    &&& res.instruction.spec_len() == instruction::clamp16(res.length as nat)
}

/// The statistics after finding `result` (with the fields a finding does
/// not touch as in `old`).
pub open spec fn recorded(old: ScanStats, new: ScanStats, result: ExecutionResult, low_mem: bool) -> bool {
    &&& new.tested == old.tested
    &&& new.last_result == old.last_result
    &&& new.recent_results@ == old.recent_results@
    &&& new.target == old.target
    &&& artifacts_recorded(old, new, result, low_mem)
}

/// What recording the finding `result` does to the kept findings: a result
/// whose executed bytes are new (every one with `low_mem`) is counted and
/// shown among the recent findings, and (but with `low_mem`) inserted among
/// the kept ones; the kept findings change in no other way.
pub open spec fn artifacts_recorded(old: ScanStats, new: ScanStats, result: ExecutionResult, low_mem: bool) -> bool {
    let is_new = low_mem || !has_key(old.artifacts@, result.executed_bytes());
    &&& is_new ==> new.artifacts_found == old.artifacts_found + 1 && new.recent_artifacts@
        == bounded_push(old.recent_artifacts@, result, ARTIFACT_LOG_LEN as nat)
    &&& !is_new ==> new.artifacts_found == old.artifacts_found && new.recent_artifacts@
        == old.recent_artifacts@
    &&& (is_new && !low_mem) ==> exists|p: int|
        0 <= p <= old.artifacts@.len() && new.artifacts@ == old.artifacts@.insert(p, result)
    &&& !(is_new && !low_mem) ==> new.artifacts@ == old.artifacts@
}

impl ScanStats {
    pub open spec fn wf(&self) -> bool {
        &&& sorted_by_key(self.artifacts@)
        &&& self.recent_results@.len() <= INSTRUCTION_LOG_LEN
        &&& self.recent_artifacts@.len() <= ARTIFACT_LOG_LEN
    }

    /// Nothing seen yet.
    pub fn new() -> (r: Self)
        ensures
            r.wf(),
            r.tested == 0,
            r.artifacts_found == 0,
            r.last_result is None,
            r.recent_results@.len() == 0,
            r.recent_artifacts@.len() == 0,
            r.artifacts@.len() == 0,
            r.target is None,
    {
        ScanStats {
            tested: 0,
            artifacts_found: 0,
            last_result: None,
            recent_results: VecDeque::new(),
            recent_artifacts: VecDeque::new(),
            artifacts: Vec::new(),
            target: None,
        }
    }

    /// Records a finding: a result whose executed bytes are new is counted,
    /// shown among the recent findings and (but with `low_mem`) kept in
    /// order; with `low_mem` every finding counts as new.
    pub fn record_artifact(&mut self, result: ExecutionResult, low_mem: bool) -> (is_new: bool)
        requires
            old(self).wf(),
            old(self).artifacts_found < u64::MAX,
        ensures
            final(self).wf(),
            is_new == (low_mem || !has_key(old(self).artifacts@, result.executed_bytes())),
            recorded(*old(self), *final(self), result, low_mem),
    {
        let key = result.instruction.executed_prefix(result.length as usize);
        assert(key@ == result.executed_bytes());
        let ghost arts = self.artifacts@;
        let mut i: usize = 0;
        while i < self.artifacts.len() && bytes_lt(
            self.artifacts[i].instruction.executed_prefix(self.artifacts[i].length as usize),
            key,
        )
            invariant
                i <= self.artifacts@.len(),
                self.artifacts@ == arts,
                key@ == result.executed_bytes(),
                forall|j: int| 0 <= j < i ==> instruction::lex_lt(#[trigger] arts[j].executed_bytes(), key@),
            decreases self.artifacts.len() - i,
        {
            i = i + 1;
        }
        let present = i < self.artifacts.len() && !bytes_lt(
            key,
            self.artifacts[i].instruction.executed_prefix(self.artifacts[i].length as usize),
        );
        proof {
            let k = key@;
            if present {
                if arts[i as int].executed_bytes() != k {
                    instruction::lemma_lex_total(arts[i as int].executed_bytes(), k);
                }
                assert(has_key(arts, k));
            } else {
                assert forall|j: int| 0 <= j < arts.len() implies (#[trigger] arts[j]).executed_bytes() != k by {
                    if j < i {
                        instruction::lemma_lex_irreflexive(k);
                    } else {
                        assert(instruction::lex_lt(k, arts[i as int].executed_bytes()));
                        if j > i {
                            assert(instruction::lex_lt(arts[i as int].executed_bytes(), arts[j].executed_bytes()));
                            instruction::lemma_lex_transitive(k, arts[i as int].executed_bytes(), arts[j].executed_bytes());
                        }
                        instruction::lemma_lex_irreflexive(k);
                    }
                }
            }
        }
        let is_new = low_mem || !present;
        if is_new {
            self.artifacts_found = self.artifacts_found + 1;
            push_bounded(&mut self.recent_artifacts, result, ARTIFACT_LOG_LEN);
            if !low_mem {
                self.artifacts.insert(i, result);
                proof {
                    let k = key@;
                    let na = self.artifacts@;
                    assert(na == arts.insert(i as int, result));
                    assert forall|a: int, b: int| 0 <= a < b < na.len() implies instruction::lex_lt(
                        #[trigger] na[a].executed_bytes(),
                        #[trigger] na[b].executed_bytes(),
                    ) by {
                        if b < i {
                            assert(na[a] == arts[a] && na[b] == arts[b]);
                        } else if b == i {
                            assert(na[a] == arts[a]);
                        } else if a == i {
                            assert(na[b] == arts[b - 1]);
                            assert(instruction::lex_lt(k, arts[i as int].executed_bytes()));
                            if b - 1 > i {
                                assert(instruction::lex_lt(arts[i as int].executed_bytes(), arts[b - 1].executed_bytes()));
                                instruction::lemma_lex_transitive(k, arts[i as int].executed_bytes(), arts[b - 1].executed_bytes());
                            }
                        } else if a < i {
                            assert(na[a] == arts[a] && na[b] == arts[b - 1]);
                            assert(instruction::lex_lt(arts[a].executed_bytes(), k));
                            assert(instruction::lex_lt(k, arts[i as int].executed_bytes()));
                            instruction::lemma_lex_transitive(arts[a].executed_bytes(), k, arts[i as int].executed_bytes());
                            if b - 1 > i {
                                assert(instruction::lex_lt(arts[i as int].executed_bytes(), arts[b - 1].executed_bytes()));
                                instruction::lemma_lex_transitive(arts[a].executed_bytes(), arts[i as int].executed_bytes(), arts[b - 1].executed_bytes());
                            }
                        } else {
                            assert(na[a] == arts[a - 1] && na[b] == arts[b - 1]);
                        }
                    }
                }
            }
        }
        is_new
    }

    /// Takes one line of packet output: blank and comment lines change
    /// nothing; a packet is counted, becomes the last and a recent result,
    /// and is recorded when a filter flags it. A line that is no packet is
    /// refused with the packet parser's message.
    pub fn sift_line(&mut self, config: &CliConfig, line: &str) -> (r: Result<SiftOutcome, String>)
        requires
            old(self).wf(),
            old(self).tested < u64::MAX,
            old(self).artifacts_found < u64::MAX,
        ensures
            final(self).wf(),
            match r {
                Err(e) => !skipped_line(line@) && packet::spec_parse_packet(line@) == Err::<
                    (TargetSpec, Seq<nat>, Seq<u8>),
                    Seq<char>,
                >(e@) && *final(self) == *old(self),
                Ok(o) => if skipped_line(line@) {
                    o.result is None && !o.finding && o.tick_text is None && o.last_text is None
                        && o.sync_line is None && *final(self) == *old(self)
                } else {
                    o.result matches Some(res) && {
                        &&& final(self).target matches Some(t) && read_from(line@, t, res)
                        &&& final(self).recent_results@ == bounded_push(
                            old(self).recent_results@,
                            res,
                            INSTRUCTION_LOG_LEN as nat,
                        )
                        &&& final(self).tested == old(self).tested + 1
                        &&& final(self).last_result == Some(res)
                        &&& o.finding == anomaly::spec_detect(config.filters, res) is Some
                        &&& (match o.tick_text {
                            Some(t) => config.tick && t@ == instruction::hex_pairs(
                                res.instruction.spec_bytes(),
                            ),
                            None => !config.tick,
                        })
                        &&& (match o.last_text {
                            Some(t) => config.save && t@ == instruction::hex_pairs(
                                res.executed_bytes(),
                            ),
                            None => !config.save,
                        })
                        &&& o.finding ==> final(self).artifacts_found
                            == old(self).artifacts_found + (if config.low_mem || !has_key(
                            old(self).artifacts@,
                            res.executed_bytes(),
                        ) {
                            1int
                        } else {
                            0int
                        })
                        &&& o.finding ==> artifacts_recorded(*old(self), *final(self), res, config.low_mem)
                        &&& !o.finding ==> final(self).artifacts_found == old(self).artifacts_found
                            && final(self).artifacts@ == old(self).artifacts@
                            && final(self).recent_artifacts@ == old(self).recent_artifacts@
                        &&& (match o.sync_line {
                            Some(s) => o.finding && config.sync && (config.low_mem || !has_key(
                                old(self).artifacts@,
                                res.executed_bytes(),
                            )) && s@ == legacy_format::record_line(res),
                            None => !(o.finding && config.sync && (config.low_mem || !has_key(
                                old(self).artifacts@,
                                res.executed_bytes(),
                            ))),
                        })
                    }
                },
            },
    {
        let chars = chars_of(line);
        let trimmed = trim_chars(chars.as_slice());
        if trimmed.len() == 0 || (chars.len() > 0 && chars[0] == '#') {
            return Ok(
                SiftOutcome {
                    result: None,
                    tick_text: None,
                    last_text: None,
                    finding: false,
                    sync_line: None,
                },
            );
        }
        let packet = match VersionedPacket::parse_line(line) {
            Ok(p) => p,
            Err(e) => return Err(e),
        };
        let result = packet.result;
        self.target = Some(packet.target);
        self.tested = self.tested + 1;
        self.last_result = Some(result);
        let tick_text = if config.tick {
            Some(format_full_hex(result.instruction.bytes().as_slice()))
        } else {
            None
        };
        let last_text = if config.save {
            Some(format_full_hex(result.instruction.executed_prefix(result.length as usize)))
        } else {
            None
        };
        push_bounded(&mut self.recent_results, result, INSTRUCTION_LOG_LEN);
        let finding = config.filters.detect(&result).is_some();
        let mut sync_line = None;
        if finding {
            let is_new = self.record_artifact(result, config.low_mem);
            if is_new && config.sync {
                sync_line = Some(LegacyArtifactRecord { result }.to_legacy_line());
            }
        }
        Ok(SiftOutcome { result: Some(result), tick_text, last_text, finding, sync_line })
    }
}

} // verus!
