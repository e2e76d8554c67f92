//! The injector's command line.
use vstd::prelude::*;

use crate::instruction::{self, parse_hex_instruction, InstructionBytes};
use crate::search::strategy::SearchMode;
use crate::target::TargetSpec;
use crate::text;
use crate::text::{chars_eq, chars_of, parse_decimal, push_str, string_of};

verus! {

broadcast use InstructionBytes::lemma_shape;

#[derive(Clone, Copy, Debug, PartialEq, Eq, Structural)]
pub enum OutputMode {
    Raw,
    Text,
}

/// Everything the injector's flags set, and the target it runs for.
#[derive(Clone, Debug)]
pub struct InjectorConfig {
    /// The machine the injector runs on: no flag sets it, `parse_args`
    /// takes it from its caller, and the engine's prefix rules follow its
    /// architecture.
    pub target: TargetSpec,
    pub dry_run: bool,
    pub worker: bool,
    pub mode: SearchMode,
    pub output_mode: OutputMode,
    pub show_tick: bool,
    pub allow_null_access: bool,
    pub allow_duplicate_prefixes: bool,
    pub nx_support: bool,
    pub seed: Option<u64>,
    pub brute_depth: usize,
    pub max_prefix: usize,
    pub start_instruction: Option<InstructionBytes>,
    pub end_instruction: Option<InstructionBytes>,
    pub core: Option<usize>,
    pub blacklists: Vec<InstructionBytes>,
    pub jobs: usize,
    pub range_bytes: usize,
}

/// Why the arguments were refused.
#[derive(Clone, Debug, PartialEq, Eq)]
pub enum InjectorParseError {
    MissingValue(&'static str),
    InvalidValue(&'static str, String),
    UnexpectedArgument(String),
}

/// The flags of a configuration, each instruction given by the text it was
/// read from.
pub struct ConfigModel {
    pub mode: SearchMode,
    pub output_mode: OutputMode,
    pub show_tick: bool,
    pub allow_null_access: bool,
    pub allow_duplicate_prefixes: bool,
    pub nx_support: bool,
    pub dry_run: bool,
    pub worker: bool,
    pub seed: Option<nat>,
    pub brute_depth: nat,
    pub max_prefix: nat,
    pub start_instruction: Option<Seq<char>>,
    pub end_instruction: Option<Seq<char>>,
    pub core: Option<nat>,
    pub blacklists: Seq<Seq<char>>,
    pub jobs: nat,
    pub range_bytes: nat,
}

/// An argument error: the flag that lacks a value, the flag and the message
/// or value it refused, or the argument it did not know.
pub enum ArgError {
    Missing(Seq<char>),
    Invalid(Seq<char>, Seq<char>),
    Unexpected(Seq<char>),
}

pub open spec fn error_view(e: InjectorParseError) -> ArgError {
    match e {
        InjectorParseError::MissingValue(flag) => ArgError::Missing(flag@),
        InjectorParseError::InvalidValue(flag, value) => ArgError::Invalid(flag@, value@),
        InjectorParseError::UnexpectedArgument(value) => ArgError::Unexpected(value@),
    }
}

/// The defaults: tunnel search, text output, no tick, no null page, no
/// duplicate prefixes, NX support, brute depth 4, one job.
pub open spec fn default_model() -> ConfigModel {
    ConfigModel {
        mode: SearchMode::Tunnel,
        output_mode: OutputMode::Text,
        show_tick: false,
        allow_null_access: false,
        allow_duplicate_prefixes: false,
        nx_support: true,
        dry_run: false,
        worker: false,
        seed: None,
        brute_depth: 4,
        max_prefix: 0,
        start_instruction: None,
        end_instruction: None,
        core: None,
        blacklists: Seq::empty(),
        jobs: 1,
        range_bytes: 0,
    }
}

/// `ib` is what `parse_hex_instruction` makes of `t`.
pub open spec fn parsed_from(ib: InstructionBytes, t: Seq<char>) -> bool {
    &&& instruction::spec_parse_hex(t) is Ok
    &&& ib.spec_bytes() == instruction::zero_extend(instruction::spec_parse_hex(t)->Ok_0)
    &&& ib.spec_len() == instruction::spec_parse_hex(t)->Ok_0.len()
}

pub open spec fn opt_instruction_matches(o: Option<InstructionBytes>, m: Option<Seq<char>>) -> bool {
    match o {
        Some(ib) => m is Some && parsed_from(ib, m->0),
        None => m is None,
    }
}

/// `c` holds the flags of `m`.
pub open spec fn config_matches(c: InjectorConfig, m: ConfigModel) -> bool {
    &&& c.mode == m.mode
    &&& c.output_mode == m.output_mode
    &&& c.show_tick == m.show_tick
    &&& c.allow_null_access == m.allow_null_access
    &&& c.allow_duplicate_prefixes == m.allow_duplicate_prefixes
    &&& c.nx_support == m.nx_support
    &&& c.dry_run == m.dry_run
    &&& c.worker == m.worker
    &&& (match c.seed {
        Some(v) => m.seed == Some(v as nat),
        None => m.seed is None,
    })
    &&& c.brute_depth as nat == m.brute_depth
    &&& c.max_prefix as nat == m.max_prefix
    &&& opt_instruction_matches(c.start_instruction, m.start_instruction)
    &&& opt_instruction_matches(c.end_instruction, m.end_instruction)
    &&& (match c.core {
        Some(v) => m.core == Some(v as nat),
        None => m.core is None,
    })
    &&& c.blacklists@.len() == m.blacklists.len()
    &&& (forall|i: int|
        0 <= i < m.blacklists.len() ==> parsed_from(c.blacklists@[i], #[trigger] m.blacklists[i]))
    &&& c.jobs as nat == m.jobs
    &&& c.range_bytes as nat == m.range_bytes
}

/// The flags that take no value.
pub open spec fn simple_flag(a: Seq<char>, m: ConfigModel) -> Option<ConfigModel> {
    if a == "-b"@ {
        Some(ConfigModel { mode: SearchMode::Brute, ..m })
    } else if a == "-r"@ {
        Some(ConfigModel { mode: SearchMode::Random, ..m })
    } else if a == "-t"@ {
        Some(ConfigModel { mode: SearchMode::Tunnel, ..m })
    } else if a == "-d"@ {
        Some(ConfigModel { mode: SearchMode::Driven, ..m })
    } else if a == "-R"@ {
        Some(ConfigModel { output_mode: OutputMode::Raw, ..m })
    } else if a == "-T"@ {
        Some(ConfigModel { output_mode: OutputMode::Text, ..m })
    } else if a == "-x"@ {
        Some(ConfigModel { show_tick: true, ..m })
    } else if a == "-0"@ {
        Some(ConfigModel { allow_null_access: true, ..m })
    } else if a == "-D"@ {
        Some(ConfigModel { allow_duplicate_prefixes: true, ..m })
    } else if a == "-N"@ {
        Some(ConfigModel { nx_support: false, ..m })
    } else if a == "--dry-run"@ {
        Some(ConfigModel { dry_run: true, ..m })
    } else if a == "--worker"@ {
        Some(ConfigModel { worker: true, ..m })
    } else if a == "-?"@ || a == "--help"@ {
        Some(m)
    } else {
        None
    }
}

/// The flags whose value is a number, with the largest value each takes.
pub open spec fn number_flag_max(a: Seq<char>) -> Option<nat> {
    if a == "-s"@ {
        Some(u64::MAX as nat)
    } else if a == "-B"@ || a == "-P"@ || a == "-c"@ || a == "-j"@ || a == "-l"@ {
        Some(usize::MAX as nat)
    } else {
        None
    }
}

/// `m` with the number flag `a` set to `v`.
pub open spec fn set_number(a: Seq<char>, v: nat, m: ConfigModel) -> ConfigModel {
    if a == "-s"@ {
        ConfigModel { seed: Some(v), ..m }
    } else if a == "-B"@ {
        ConfigModel { brute_depth: v, ..m }
    } else if a == "-P"@ {
        ConfigModel { max_prefix: v, ..m }
    } else if a == "-c"@ {
        ConfigModel { core: Some(v), ..m }
    } else if a == "-j"@ {
        ConfigModel { jobs: v, ..m }
    } else {
        ConfigModel { range_bytes: v, ..m }
    }
}

pub open spec fn is_instruction_flag(a: Seq<char>) -> bool {
    a == "-i"@ || a == "-e"@ || a == "-X"@
}

/// `m` with the instruction flag `a` given the text `t`.
pub open spec fn set_instruction(a: Seq<char>, t: Seq<char>, m: ConfigModel) -> ConfigModel {
    if a == "-i"@ {
        ConfigModel { start_instruction: Some(t), ..m }
    } else if a == "-e"@ {
        ConfigModel { end_instruction: Some(t), ..m }
    } else {
        ConfigModel { blacklists: m.blacklists.push(t), ..m }
    }
}

/// What the arguments from `i` on make of `m`, or the first error.
pub open spec fn parse_from(args: Seq<Seq<char>>, i: nat, m: ConfigModel) -> Result<
    ConfigModel,
    ArgError,
>
    decreases args.len() - i,
{
    if i >= args.len() {
        Ok(m)
    } else {
        let a = args[i as int];
        if simple_flag(a, m) is Some {
            parse_from(args, i + 1, simple_flag(a, m)->0)
        } else if number_flag_max(a) is Some {
            if i + 1 >= args.len() {
                Err(ArgError::Missing(a))
            } else {
                let v = args[i + 1int];
                match text::parse_unsigned(v, number_flag_max(a)->0) {
                    Some(n) => parse_from(args, i + 2, set_number(a, n, m)),
                    None => Err(ArgError::Invalid(a, v)),
                }
            }
        } else if is_instruction_flag(a) {
            if i + 1 >= args.len() {
                Err(ArgError::Missing(a))
            } else {
                let v = args[i + 1int];
                match instruction::spec_parse_hex(v) {
                    Ok(_) => parse_from(args, i + 2, set_instruction(a, v, m)),
                    Err(e) => Err(ArgError::Invalid(a, e)),
                }
            }
        } else {
            Err(ArgError::Unexpected(a))
        }
    }
}

/// What `parse_args` makes of `args`.
pub open spec fn spec_parse_args(args: Seq<Seq<char>>) -> Result<ConfigModel, ArgError> {
    parse_from(args, 0, default_model())
}

/// No flag takes both a number and an instruction.
proof fn lemma_value_flags_distinct(a: Seq<char>)
    ensures
        is_instruction_flag(a) ==> number_flag_max(a) is None,
{
    reveal_strlit("-s");
    reveal_strlit("-B");
    reveal_strlit("-P");
    reveal_strlit("-c");
    reveal_strlit("-j");
    reveal_strlit("-l");
    reveal_strlit("-i");
    reveal_strlit("-e");
    reveal_strlit("-X");
    if is_instruction_flag(a) {
        assert(a.len() == 2 && a[0] == '-');
        assert(a[1] == 'i' || a[1] == 'e' || a[1] == 'X');
    }
}

/// The flag a literal names, as a `'static` string.
fn flag_name(a: &[char]) -> (r: Option<&'static str>)
    ensures
        match r {
            Some(f) => f@ == a@ && (number_flag_max(a@) is Some || is_instruction_flag(a@)),
            None => number_flag_max(a@) is None && !is_instruction_flag(a@),
        },
{
    if chars_eq(a, "-s") {
        Some("-s")
    } else if chars_eq(a, "-B") {
        Some("-B")
    } else if chars_eq(a, "-P") {
        Some("-P")
    } else if chars_eq(a, "-c") {
        Some("-c")
    } else if chars_eq(a, "-j") {
        Some("-j")
    } else if chars_eq(a, "-l") {
        Some("-l")
    } else if chars_eq(a, "-i") {
        Some("-i")
    } else if chars_eq(a, "-e") {
        Some("-e")
    } else if chars_eq(a, "-X") {
        Some("-X")
    } else {
        None
    }
}

/// The value after a flag: argument `index`, when there is one.
fn next_arg<'a>(args: &'a [String], index: usize, flag: &'static str) -> (r: Result<&'a str, InjectorParseError>)
    ensures
        match r {
            Ok(v) => index < args@.len() && v@ == args@[index as int]@,
            Err(e) => index >= args@.len() && e == InjectorParseError::MissingValue(flag),
        },
{
    if index < args.len() {
        Ok(args[index].as_str())
    } else {
        Err(InjectorParseError::MissingValue(flag))
    }
}

/// A decimal number no greater than `max`, as the value of `flag`.
fn parse_number(value: &str, flag: &'static str, max: u64) -> (r: Result<u64, InjectorParseError>)
    ensures
        match r {
            Ok(n) => text::parse_unsigned(value@, max as nat) == Some(n as nat),
            Err(e) => text::parse_unsigned(value@, max as nat) is None && error_view(e)
                == ArgError::Invalid(flag@, value@),
        },
{
    let chars = chars_of(value);
    match parse_decimal(chars.as_slice(), max) {
        Some(n) => Ok(n),
        None => Err(InjectorParseError::InvalidValue(flag, String::from_str(value))),
    }
}

/// An instruction in hex, as the value of `flag`.
fn parse_instruction(value: &str, flag: &'static str) -> (r: Result<InstructionBytes, InjectorParseError>)
    ensures
        match r {
            Ok(ib) => parsed_from(ib, value@),
            Err(e) => instruction::spec_parse_hex(value@) is Err && error_view(e) == ArgError::Invalid(
                flag@,
                instruction::spec_parse_hex(value@)->Err_0,
            ),
        },
{
    match parse_hex_instruction(value) {
        Ok(ib) => Ok(ib),
        Err(msg) => Err(InjectorParseError::InvalidValue(flag, msg)),
    }
}

impl InjectorConfig {
    /// The defaults, running on `target`.
    pub fn with_target(target: TargetSpec) -> (r: Self)
        ensures
            r.target == target,
            config_matches(r, default_model()),
    {
        InjectorConfig {
            target,
            dry_run: false,
            worker: false,
            mode: SearchMode::Tunnel,
            output_mode: OutputMode::Text,
            show_tick: false,
            allow_null_access: false,
            allow_duplicate_prefixes: false,
            nx_support: true,
            seed: None,
            brute_depth: 4,
            max_prefix: 0,
            start_instruction: None,
            end_instruction: None,
            core: None,
            blacklists: Vec::new(),
            jobs: 1,
            range_bytes: 0,
        }
    }

    /// Applies a flag that takes no value; `false` when `a` is none.
    fn apply_simple_flag(&mut self, a: &[char], Ghost(m): Ghost<ConfigModel>) -> (found: bool)
        requires
            config_matches(*old(self), m),
        ensures
            found == simple_flag(a@, m) is Some,
            found ==> config_matches(*final(self), simple_flag(a@, m)->0),
            !found ==> *final(self) == *old(self),
            final(self).target == old(self).target,
    {
        if chars_eq(a, "-b") {
            self.mode = SearchMode::Brute;
        } else if chars_eq(a, "-r") {
            self.mode = SearchMode::Random;
        } else if chars_eq(a, "-t") {
            self.mode = SearchMode::Tunnel;
        } else if chars_eq(a, "-d") {
            self.mode = SearchMode::Driven;
        } else if chars_eq(a, "-R") {
            self.output_mode = OutputMode::Raw;
        } else if chars_eq(a, "-T") {
            self.output_mode = OutputMode::Text;
        } else if chars_eq(a, "-x") {
            self.show_tick = true;
        } else if chars_eq(a, "-0") {
            self.allow_null_access = true;
        } else if chars_eq(a, "-D") {
            self.allow_duplicate_prefixes = true;
        } else if chars_eq(a, "-N") {
            self.nx_support = false;
        } else if chars_eq(a, "--dry-run") {
            self.dry_run = true;
        } else if chars_eq(a, "--worker") {
            self.worker = true;
        } else if chars_eq(a, "-?") || chars_eq(a, "--help") {
        } else {
            return false;
        }
        true
    }

    /// Reads the injector's flags, starting from the defaults for `host`.
    pub fn parse_args(args: &[String], host: TargetSpec) -> (r: Result<Self, InjectorParseError>)
        ensures
            match r {
                Ok(c) => spec_parse_args(text::views(args@)) is Ok && config_matches(
                    c,
                    spec_parse_args(text::views(args@))->Ok_0,
                ) && c.target == host,
                Err(e) => spec_parse_args(text::views(args@)) == Err::<ConfigModel, ArgError>(
                    error_view(e),
                ),
            },
    {
        let ghost vs = text::views(args@);
        let mut config = Self::with_target(host);
        let ghost mut m = default_model();
        let mut index: usize = 0;
        while index < args.len()
            invariant
                index <= args.len(),
                vs == text::views(args@),
                spec_parse_args(vs) == parse_from(vs, index as nat, m),
                config_matches(config, m),
                config.target == host,
            decreases args.len() - index,
        {
            let a = chars_of(args[index].as_str());
            assert(a@ == vs[index as int]);
            proof {
                lemma_value_flags_distinct(a@);
            }
            if config.apply_simple_flag(a.as_slice(), Ghost(m)) {
                proof {
                    m = simple_flag(a@, m)->0;
                }
                index = index + 1;
            } else {
                let flag = match flag_name(a.as_slice()) {
                    Some(f) => f,
                    None => {
                        return Err(InjectorParseError::UnexpectedArgument(string_of(a.as_slice())));
                    },
                };
                let value = match next_arg(args, index + 1, flag) {
                    Ok(v) => v,
                    Err(e) => return Err(e),
                };
                let ghost v = vs[index + 1];
                if chars_eq(a.as_slice(), "-i") || chars_eq(a.as_slice(), "-e") || chars_eq(
                    a.as_slice(),
                    "-X",
                ) {
                    let ib = match parse_instruction(value, flag) {
                        Ok(ib) => ib,
                        Err(e) => return Err(e),
                    };
                    if chars_eq(a.as_slice(), "-i") {
                        config.start_instruction = Some(ib);
                    } else if chars_eq(a.as_slice(), "-e") {
                        config.end_instruction = Some(ib);
                    } else {
                        config.blacklists.push(ib);
                    }
                    proof {
                        m = set_instruction(a@, v, m);
                    }
                } else {
                    let max: u64 = if chars_eq(a.as_slice(), "-s") {
                        u64::MAX
                    } else {
                        usize::MAX as u64
                    };
                    let n = match parse_number(value, flag, max) {
                        Ok(n) => n,
                        Err(e) => return Err(e),
                    };
                    if chars_eq(a.as_slice(), "-s") {
                        config.seed = Some(n);
                    } else if chars_eq(a.as_slice(), "-B") {
                        config.brute_depth = n as usize;
                    } else if chars_eq(a.as_slice(), "-P") {
                        config.max_prefix = n as usize;
                    } else if chars_eq(a.as_slice(), "-c") {
                        config.core = Some(n as usize);
                    } else if chars_eq(a.as_slice(), "-j") {
                        config.jobs = n as usize;
                    } else {
                        config.range_bytes = n as usize;
                    }
                    proof {
                        m = set_number(a@, n as nat, m);
                    }
                }
                index = index + 2;
            }
        }
        Ok(config)
    }

    /// The usage text.
    pub fn help_text() -> (r: &'static str)
        ensures
            r@ == INJECTOR_HELP@,
    {
        INJECTOR_HELP
    }
}

/// The injector's usage text.
pub const INJECTOR_HELP: &'static str = "injector [OPTIONS...]\n\
\t[-b|-r|-t|-d] ....... mode: brute, random, tunnel, directed (default: tunnel)\n\
\t[-R|-T] ............. output: raw, text (default: text)\n\
\t[-x] ................ show tick\n\
\t[-0] ................ allow null dereference (requires sudo)\n\
\t[-D] ................ allow duplicate prefixes\n\
\t[-N] ................ no nx bit support\n\
\t[-s seed] ........... in random search, seed\n\
\t[-B brute_depth] .... in brute search, maximum search depth\n\
\t[-P max_prefix] ..... maximum number of prefixes to search\n\
\t[-i instruction] .... instruction at which to start search, inclusive\n\
\t[-e instruction] .... instruction at which to end search, exclusive\n\
\t[-c core] ........... core on which to perform search\n\
\t[-X blacklist] ...... blacklist the specified instruction\n\
\t[-j jobs] ........... number of simultaneous jobs to run\n\
\t[-l range_bytes] .... number of base instruction bytes in each sub range\n";

impl InjectorParseError {
    /// The message of the error, as it is printed.
    pub fn message(&self) -> (r: String)
        ensures
            r@ == match error_view(*self) {
                ArgError::Missing(flag) => "missing value for "@ + flag,
                ArgError::Invalid(flag, value) => "invalid value for "@ + flag + ": "@ + value,
                ArgError::Unexpected(value) => "unexpected argument: "@ + value,
            },
    {
        let mut out = String::new();
        match self {
            InjectorParseError::MissingValue(flag) => {
                push_str(&mut out, "missing value for ");
                push_str(&mut out, flag);
            },
            InjectorParseError::InvalidValue(flag, value) => {
                push_str(&mut out, "invalid value for ");
                push_str(&mut out, flag);
                push_str(&mut out, ": ");
                push_str(&mut out, value.as_str());
            },
            InjectorParseError::UnexpectedArgument(value) => {
                push_str(&mut out, "unexpected argument: ");
                push_str(&mut out, value.as_str());
            },
        }
        out
    }
}

} // verus!
