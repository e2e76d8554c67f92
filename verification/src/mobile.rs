//! The decisions of the iOS agent's scan: its configuration, what it does
//! with each engine event, what its C entry points answer.
use vstd::prelude::*;

use crate::injector::engine::InjectorEvent;
use crate::injector::packet::{self, VersionedPacket};
use crate::instruction::{self, parse_hex_instruction, InstructionBytes};
use crate::search::strategy::SearchMode;
use crate::target::{self, TargetSpec};
use crate::text;
use crate::text::{chars_of, push_str, trim_chars};

verus! {

/// Queue size when the caller gives none.
pub const DEFAULT_QUEUE_CAPACITY: usize = 5000;

/// The strategy a C caller names: 1 brute, 2 random, 3 driven, else tunnel.
pub fn parse_strategy(value: i32) -> (r: SearchMode)
    ensures
        r == (if value == 1 {
            SearchMode::Brute
        } else if value == 2 {
            SearchMode::Random
        } else if value == 3 {
            SearchMode::Driven
        } else {
            SearchMode::Tunnel
        }),
{
    if value == 1 {
        SearchMode::Brute
    } else if value == 2 {
        SearchMode::Random
    } else if value == 3 {
        SearchMode::Driven
    } else {
        SearchMode::Tunnel
    }
}

/// What a scan runs: mode 0 native, 1 dry run, 2 sandbox checks.
#[derive(Clone, Debug)]
pub struct MobileScanConfig {
    pub mode: i32,
    pub strategy: SearchMode,
    pub start_instruction: Option<InstructionBytes>,
    pub end_instruction: Option<InstructionBytes>,
    pub seed: Option<u64>,
    pub max_packets: u64,
    pub queue_capacity: usize,
    pub require_native: bool,
}

impl MobileScanConfig {
    /// The scan of the first entry point: a tunnel search of everything,
    /// native execution required in mode 0.
    pub fn legacy(mode: i32) -> (r: Self)
        ensures
            r.mode == mode,
            r.strategy == SearchMode::Tunnel,
            r.start_instruction is None,
            r.end_instruction is None,
            r.seed is None,
            r.max_packets == 0,
            r.queue_capacity == DEFAULT_QUEUE_CAPACITY,
            r.require_native == (mode == 0),
    {
        MobileScanConfig {
            mode,
            strategy: SearchMode::Tunnel,
            start_instruction: None,
            end_instruction: None,
            seed: None,
            max_packets: 0,
            queue_capacity: DEFAULT_QUEUE_CAPACITY,
            require_native: mode == 0,
        }
    }

    /// The scan of the configured entry point: seed 0 means none, queue
    /// capacity 0 means the default.
    pub fn configured(
        mode: i32,
        strategy: i32,
        start_instruction: Option<InstructionBytes>,
        end_instruction: Option<InstructionBytes>,
        seed: u64,
        max_packets: u64,
        queue_capacity: u32,
        require_native: i32,
    ) -> (r: Self)
        ensures
            r.mode == mode,
            r.strategy == parse_strategy_spec(strategy),
            r.start_instruction == start_instruction,
            r.end_instruction == end_instruction,
            r.seed == (if seed == 0 {
                None
            } else {
                Some(seed)
            }),
            r.max_packets == max_packets,
            r.queue_capacity == (if queue_capacity == 0 {
                DEFAULT_QUEUE_CAPACITY
            } else {
                queue_capacity as usize
            }),
            r.require_native == (require_native != 0),
    {
        MobileScanConfig {
            mode,
            strategy: parse_strategy(strategy),
            start_instruction,
            end_instruction,
            seed: if seed == 0 {
                None
            } else {
                Some(seed)
            },
            max_packets,
            queue_capacity: if queue_capacity == 0 {
                DEFAULT_QUEUE_CAPACITY
            } else {
                queue_capacity as usize
            },
            require_native: require_native != 0,
        }
    }
}

pub open spec fn parse_strategy_spec(value: i32) -> SearchMode {
    if value == 1 {
        SearchMode::Brute
    } else if value == 2 {
        SearchMode::Random
    } else if value == 3 {
        SearchMode::Driven
    } else {
        SearchMode::Tunnel
    }
}

/// An optional start or end instruction given as text: blank means none,
/// else hex digit pairs; a bad value names its field.
pub fn optional_instruction(value: &str, field: &str) -> (r: Result<Option<InstructionBytes>, String>)
    ensures
        match r {
            Ok(None) => text::trim(value@).len() == 0,
            Ok(Some(ib)) => text::trim(value@).len() > 0 && instruction::spec_parse_hex(value@) is Ok
                && ib.spec_bytes() == instruction::zero_extend(instruction::spec_parse_hex(value@)->Ok_0)
                && ib.spec_len() == instruction::spec_parse_hex(value@)->Ok_0.len(),
            Err(e) => text::trim(value@).len() > 0 && instruction::spec_parse_hex(value@) is Err && e@
                == "bad "@ + field@ + ": "@ + instruction::spec_parse_hex(value@)->Err_0,
        },
{
    let t = trim_chars(chars_of(value).as_slice());
    if t.len() == 0 {
        return Ok(None);
    }
    match parse_hex_instruction(value) {
        Ok(ib) => Ok(Some(ib)),
        Err(error) => {
            let mut e = String::new();
            push_str(&mut e, "bad ");
            push_str(&mut e, field);
            push_str(&mut e, ": ");
            push_str(&mut e, error.as_str());
            Err(e)
        },
    }
}

/// The counters a C caller reads.
#[derive(Clone, Copy, Debug, PartialEq, Eq, Structural)]
pub struct SandblasterScanStatus {
    pub running: u32,
    pub done: u32,
    pub emitted: u64,
    pub skipped: u64,
    pub queue_depth: u32,
    pub queue_capacity: u32,
    pub has_error: u32,
}

impl Default for SandblasterScanStatus {
    fn default() -> (r: Self)
        ensures
            r.running == 0 && r.done == 0 && r.emitted == 0 && r.skipped == 0 && r.queue_depth == 0
                && r.queue_capacity == 0 && r.has_error == 0,
    {
        SandblasterScanStatus {
            running: 0,
            done: 0,
            emitted: 0,
            skipped: 0,
            queue_depth: 0,
            queue_capacity: 0,
            has_error: 0,
        }
    }
}

pub open spec fn clamp_u32(n: usize) -> u32 {
    if n > u32::MAX as usize {
        u32::MAX
    } else {
        n as u32
    }
}

fn clamp_to_u32(n: usize) -> (r: u32)
    ensures
        r == clamp_u32(n),
{
    if n > u32::MAX as usize {
        u32::MAX
    } else {
        n as u32
    }
}

impl SandblasterScanStatus {
    /// The status of a running or finished scan; the sizes saturate at
    /// `u32::MAX`.
    pub fn of_scan(done: bool, emitted: u64, skipped: u64, queue_depth: usize, queue_capacity: usize, has_error: bool) -> (r: Self)
        ensures
            r.running == (if done {
                0u32
            } else {
                1u32
            }),
            r.done == (if done {
                1u32
            } else {
                0u32
            }),
            r.emitted == emitted,
            r.skipped == skipped,
            r.queue_depth == clamp_u32(queue_depth),
            r.queue_capacity == clamp_u32(queue_capacity),
            r.has_error == (if has_error {
                1u32
            } else {
                0u32
            }),
    {
        SandblasterScanStatus {
            running: if done {
                0
            } else {
                1
            },
            done: if done {
                1
            } else {
                0
            },
            emitted,
            skipped,
            queue_depth: clamp_to_u32(queue_depth),
            queue_capacity: clamp_to_u32(queue_capacity),
            has_error: if has_error {
                1
            } else {
                0
            },
        }
    }

    /// The status when no scan exists: done, nothing counted.
    pub fn idle() -> (r: Self)
        ensures
            r.done == 1 && r.running == 0 && r.emitted == 0 && r.skipped == 0 && r.queue_depth == 0
                && r.queue_capacity == 0 && r.has_error == 0,
    {
        SandblasterScanStatus { done: 1, ..SandblasterScanStatus::default() }
    }
}

/// Whether the instruction worker goes on: not stopped, and below its packet
/// limit (0 for none).
pub fn worker_continues(stop: bool, emitted: u64, max_packets: u64) -> (r: bool)
    ensures
        r == (!stop && (max_packets == 0 || emitted < max_packets)),
{
    !stop && (max_packets == 0 || emitted < max_packets)
}

/// What the instruction worker does with an engine answer.
pub enum WorkerAction {
    /// Queue `line`, remember `last_hex` and count it.
    Emit { line: String, last_hex: String },
    /// Count a skipped candidate.
    Skip,
    /// The search is over.
    Finish,
    /// Record the error and stop.
    Fail(String),
}

pub fn worker_action(answer: Result<Option<InjectorEvent>, String>) -> (r: WorkerAction)
    ensures
        match answer {
            Ok(Some(InjectorEvent::Executed(res))) => r matches WorkerAction::Emit { line, last_hex } && line@
                == packet::packet_line(target::spec_ios_arm64(), res) && last_hex@
                == instruction::hex_pairs(res.instruction.spec_specified()),
            Ok(Some(InjectorEvent::Skipped(_, _))) => r is Skip,
            Ok(None) => r is Finish,
            Err(e) => r matches WorkerAction::Fail(m) && m@ == e@,
        },
{
    match answer {
        Ok(Some(InjectorEvent::Executed(result))) => {
            let line = VersionedPacket::from_execution_result(TargetSpec::ios_arm64(), &result).to_line();
            let last_hex = result.instruction.compact_hex();
            WorkerAction::Emit { line, last_hex }
        },
        Ok(Some(InjectorEvent::Skipped(_, _))) => WorkerAction::Skip,
        Ok(None) => WorkerAction::Finish,
        Err(e) => WorkerAction::Fail(e),
    }
}

/// A sandbox check's answer: 0 allowed, 1 denied, 2 anything else.
pub fn classify_sandbox_result(result: i32) -> (r: i32)
    ensures
        r == (if result < 0 || result > 1 {
            2
        } else {
            result
        }),
{
    if result < 0 || result > 1 {
        2
    } else {
        result
    }
}

/// What `sandblaster_scan_next` answers: -2 for a missing or empty buffer,
/// -1 without a scan; then the length of the next line when it fits, -3
/// when it does not; with the queue empty (`next_len` is `None`), -1 once
/// the scan is done and 0 while it runs.
pub fn next_line_code(buf_null: bool, buf_len: i32, has_scan: bool, next_len: Option<usize>, done: bool) -> (r: i32)
    ensures
        r == (if buf_null || buf_len <= 0 {
            -2int
        } else if !has_scan {
            -1int
        } else {
            match next_len {
                Some(n) => if n > buf_len {
                    -3int
                } else {
                    n as int
                },
                None => if done {
                    -1int
                } else {
                    0int
                },
            }
        }),
{
    if buf_null || buf_len <= 0 {
        return -2;
    }
    if !has_scan {
        return -1;
    }
    match next_len {
        Some(n) => if n > buf_len as usize {
            -3
        } else {
            n as i32
        },
        None => if done {
            -1
        } else {
            0
        },
    }
}


/// The answer of a start call: refused with -1 while a scan is registered
/// (a finished one included), else `None`, the start goes ahead.
pub fn start_refusal(registered: bool) -> (r: Option<i32>)
    ensures
        r == (if registered {
            Some(-1i32)
        } else {
            None
        }),
{
    if registered {
        Some(-1)
    } else {
        None
    }
}

/// The answer of the last-instruction call for a buffer of `buf_len` bytes
/// and a last instruction text of `text_len` bytes: -2 for a null or empty
/// buffer, 0 with no scan registered, -3 when the text does not fit, else
/// its length (the text is then copied).
pub fn last_instruction_code(buf_null: bool, buf_len: i32, registered: bool, text_len: usize) -> (r: i32)
    ensures
        r == (if buf_null || buf_len <= 0 {
            -2
        } else if !registered {
            0
        } else if text_len > buf_len {
            -3
        } else {
            text_len as int
        }),
{
    if buf_null || buf_len <= 0 {
        return -2;
    }
    if !registered {
        return 0;
    }
    if text_len > buf_len as usize {
        return -3;
    }
    text_len as i32
}

/// The answer of the last-error call for a buffer of `buf_len` bytes and an
/// error text of `text_len` bytes: -2 for a null or empty buffer, 0 with no
/// scan registered, else how many bytes are copied, the text cut to the
/// buffer.
pub fn last_error_length(buf_null: bool, buf_len: i32, registered: bool, text_len: usize) -> (r: i32)
    ensures
        r == (if buf_null || buf_len <= 0 {
            -2
        } else if !registered {
            0
        } else if text_len < buf_len {
            text_len as int
        } else {
            buf_len as int
        }),
{
    if buf_null || buf_len <= 0 {
        return -2;
    }
    if !registered {
        return 0;
    }
    if text_len < buf_len as usize {
        text_len as i32
    } else {
        buf_len
    }
}

} // verus!
