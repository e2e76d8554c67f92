//! The frontend's command line.
use vstd::prelude::*;

use crate::anomaly::FilterConfig;
use crate::text;
use crate::text::{chars_eq, chars_of, join_strings, push_str, string_of, trim_chars};

verus! {

/// The frontend's flags and the arguments it passes to the injector.
#[derive(Clone, Debug)]
pub struct CliConfig {
    pub filters: FilterConfig,
    pub tick: bool,
    pub save: bool,
    pub resume: bool,
    pub sync: bool,
    pub low_mem: bool,
    pub live_ui: bool,
    pub input_path: Option<String>,
    pub injector_args: Vec<String>,
}

#[derive(Clone, Debug, PartialEq, Eq)]
pub enum CliParseError {
    UnexpectedArgument(String),
}

impl CliParseError {
    /// The message of the error, as the frontend prints it.
    pub fn message(&self) -> (r: String)
        ensures
            r@ == "unexpected argument: "@ + match self {
                CliParseError::UnexpectedArgument(a) => a@,
            },
    {
        let mut out = String::new();
        push_str(&mut out, "unexpected argument: ");
        match self {
            CliParseError::UnexpectedArgument(a) => push_str(&mut out, a.as_str()),
        }
        out
    }
}

/// The frontend's flags, strings by their characters.
pub struct CliModel {
    pub filters: FilterConfig,
    pub tick: bool,
    pub save: bool,
    pub resume: bool,
    pub sync: bool,
    pub low_mem: bool,
    pub live_ui: bool,
    pub input_path: Option<Seq<char>>,
    pub injector_args: Seq<Seq<char>>,
}

/// `c` holds the flags of `m`.
pub open spec fn cli_matches(c: CliConfig, m: CliModel) -> bool {
    &&& c.filters == m.filters
    &&& c.tick == m.tick
    &&& c.save == m.save
    &&& c.resume == m.resume
    &&& c.sync == m.sync
    &&& c.low_mem == m.low_mem
    &&& c.live_ui == m.live_ui
    &&& text::opt_view(c.input_path) == m.input_path
    &&& text::views(c.injector_args@) == m.injector_args
}

/// The defaults: no filter, no files, the live display on.
pub open spec fn default_cli() -> CliModel {
    CliModel {
        filters: FilterConfig {
            search_unknown: false,
            search_length: false,
            search_disasm_length: false,
            search_invalid_known: false,
            search_executed_unknown: false,
            search_si_code: false,
        },
        tick: false,
        save: false,
        resume: false,
        sync: false,
        low_mem: false,
        live_ui: true,
        input_path: None,
        injector_args: Seq::empty(),
    }
}

/// The flags that take no value.
pub open spec fn cli_flag(a: Seq<char>, m: CliModel) -> Option<CliModel> {
    if a == "--len"@ {
        Some(CliModel { filters: FilterConfig { search_length: true, ..m.filters }, ..m })
    } else if a == "--dis"@ {
        Some(CliModel { filters: FilterConfig { search_disasm_length: true, ..m.filters }, ..m })
    } else if a == "--unk"@ {
        Some(CliModel { filters: FilterConfig { search_unknown: true, ..m.filters }, ..m })
    } else if a == "--ill"@ {
        Some(CliModel { filters: FilterConfig { search_invalid_known: true, ..m.filters }, ..m })
    } else if a == "--tick"@ {
        Some(CliModel { tick: true, ..m })
    } else if a == "--save"@ {
        Some(CliModel { save: true, ..m })
    } else if a == "--resume"@ {
        Some(CliModel { resume: true, ..m })
    } else if a == "--sync"@ {
        Some(CliModel { sync: true, ..m })
    } else if a == "--low-mem"@ {
        Some(CliModel { low_mem: true, ..m })
    } else if a == "--no-ui"@ {
        Some(CliModel { live_ui: false, ..m })
    } else {
        None
    }
}

/// What the arguments from `i` on make of `m`; after `--` every argument
/// goes to the injector. The error is the argument refused.
pub open spec fn cli_parse_from(args: Seq<Seq<char>>, i: nat, m: CliModel, passthrough: bool) -> Result<
    CliModel,
    Seq<char>,
>
    decreases args.len() - i,
{
    if i >= args.len() {
        Ok(m)
    } else {
        let a = args[i as int];
        if passthrough {
            cli_parse_from(
                args,
                i + 1,
                CliModel { injector_args: m.injector_args.push(a), ..m },
                true,
            )
        } else if a == "--"@ {
            cli_parse_from(args, i + 1, m, true)
        } else if a == "--input"@ {
            if i + 1 >= args.len() {
                Err("--input requires a path"@)
            } else {
                cli_parse_from(
                    args,
                    i + 2,
                    CliModel { input_path: Some(args[i + 1int]), live_ui: false, ..m },
                    false,
                )
            }
        } else if cli_flag(a, m) is Some {
            cli_parse_from(args, i + 1, cli_flag(a, m)->0, false)
        } else {
            Err(a)
        }
    }
}

pub open spec fn spec_parse_cli(args: Seq<Seq<char>>) -> Result<CliModel, Seq<char>> {
    cli_parse_from(args, 0, default_cli(), false)
}

impl CliConfig {
    pub fn new() -> (r: Self)
        ensures
            cli_matches(r, default_cli()),
    {
        let r = CliConfig {
            filters: FilterConfig::default(),
            tick: false,
            save: false,
            resume: false,
            sync: false,
            low_mem: false,
            live_ui: true,
            input_path: None,
            injector_args: Vec::new(),
        };
        assert(text::views(r.injector_args@) =~= Seq::<Seq<char>>::empty());
        r
    }

    #[verifier::spinoff_prover]
    #[verifier::rlimit(40)]
    fn apply_flag(&mut self, a: &[char], Ghost(m): Ghost<CliModel>) -> (found: bool)
        requires
            cli_matches(*old(self), m),
        ensures
            found == cli_flag(a@, m) is Some,
            found ==> cli_matches(*final(self), cli_flag(a@, m)->0),
            !found ==> *final(self) == *old(self),
    {
        if chars_eq(a, "--len") {
            self.filters.search_length = true;
        } else if chars_eq(a, "--dis") {
            self.filters.search_disasm_length = true;
        } else if chars_eq(a, "--unk") {
            self.filters.search_unknown = true;
        } else if chars_eq(a, "--ill") {
            self.filters.search_invalid_known = true;
        } else if chars_eq(a, "--tick") {
            self.tick = true;
        } else if chars_eq(a, "--save") {
            self.save = true;
        } else if chars_eq(a, "--resume") {
            self.resume = true;
        } else if chars_eq(a, "--sync") {
            self.sync = true;
        } else if chars_eq(a, "--low-mem") {
            self.low_mem = true;
        } else if chars_eq(a, "--no-ui") {
            self.live_ui = false;
        } else {
            return false;
        }
        true
    }
}

/// Reads the frontend's arguments.
pub fn parse_cli_args(args: &[String]) -> (r: Result<CliConfig, CliParseError>)
    ensures
        match r {
            Ok(c) => spec_parse_cli(text::views(args@)) is Ok && cli_matches(
                c,
                spec_parse_cli(text::views(args@))->Ok_0,
            ),
            Err(CliParseError::UnexpectedArgument(a)) => spec_parse_cli(text::views(args@)) == Err::<
                CliModel,
                Seq<char>,
            >(a@),
        },
        (forall|k: int| 0 <= k < args@.len() ==> is_switch(#[trigger] text::views(args@)[k])) ==> (
        r matches Ok(c) && c.filters.search_length == text::views(args@).contains("--len"@)
            && c.filters.search_disasm_length == text::views(args@).contains("--dis"@)
            && c.filters.search_unknown == text::views(args@).contains("--unk"@)
            && c.filters.search_invalid_known == text::views(args@).contains("--ill"@)
            && !c.filters.search_executed_unknown && !c.filters.search_si_code),
{
    proof {
        let vs = text::views(args@);
        if forall|k: int| 0 <= k < args@.len() ==> is_switch(#[trigger] vs[k]) {
            assert forall|k: int| 0 <= k < vs.len() implies is_switch(#[trigger] vs[k]) by {}
            lemma_switches_set_their_fields(vs);
        }
    }
    let ghost vs = text::views(args@);
    let mut config = CliConfig::new();
    let ghost mut m = default_cli();
    let mut passthrough = false;
    let mut index: usize = 0;
    while index < args.len()
        invariant
            index <= args.len(),
            vs == text::views(args@),
            spec_parse_cli(vs) == cli_parse_from(vs, index as nat, m, passthrough),
            cli_matches(config, m),
            (forall|k: int| 0 <= k < args@.len() ==> is_switch(#[trigger] text::views(args@)[k]))
                ==> spec_parse_cli(vs) is Ok,
        decreases args.len() - index,
    {
        let a = chars_of(args[index].as_str());
        assert(a@ == vs[index as int]);
        if passthrough {
            config.injector_args.push(args[index].clone());
            proof {
                m = CliModel { injector_args: m.injector_args.push(a@), ..m };
                assert(text::views(config.injector_args@) =~= m.injector_args);
            }
            index = index + 1;
        } else if chars_eq(a.as_slice(), "--") {
            passthrough = true;
            index = index + 1;
        } else if chars_eq(a.as_slice(), "--input") {
            if index + 1 >= args.len() {
                return Err(CliParseError::UnexpectedArgument(String::from_str("--input requires a path")));
            }
            let path = args[index + 1].clone();
            assert(path@ == vs[index + 1]);
            config.input_path = Some(path);
            config.live_ui = false;
            proof {
                m = CliModel { input_path: Some(vs[index + 1]), live_ui: false, ..m };
            }
            index = index + 2;
        } else if config.apply_flag(a.as_slice(), Ghost(m)) {
            proof {
                m = cli_flag(a@, m)->0;
            }
            index = index + 1;
        } else {
            return Err(CliParseError::UnexpectedArgument(string_of(a.as_slice())));
        }
    }
    Ok(config)
}

/// Whether `args` holds `flag` as an argument of its own.
pub fn has_arg(args: &[String], flag: &str) -> (r: bool)
    ensures
        r == text::views(args@).contains(flag@),
{
    let ghost vs = text::views(args@);
    let mut i: usize = 0;
    while i < args.len()
        invariant
            i <= args.len(),
            vs == text::views(args@),
            forall|j: int| 0 <= j < i ==> vs[j] != flag@,
        decreases args.len() - i,
    {
        let a = chars_of(args[i].as_str());
        if chars_eq(a.as_slice(), flag) {
            assert(vs[i as int] == flag@);
            return true;
        }
        i = i + 1;
    }
    false
}

/// Resuming from the last candidate saved: `-i` and the saved text, trimmed.
/// Refused when the arguments already give `-i`.
pub fn push_resume_start(injector_args: &mut Vec<String>, last_contents: &str) -> (r: Result<(), String>)
    ensures
        match r {
            Ok(()) => !text::views(old(injector_args)@).contains("-i"@) && text::views(
                final(injector_args)@,
            ) == text::views(old(injector_args)@).push("-i"@).push(text::trim(last_contents@)),
            Err(e) => text::views(old(injector_args)@).contains("-i"@) && e@
                == "--resume is incompatible with -i"@ && final(injector_args)@ == old(
                injector_args,
            )@,
        },
{
    if has_arg(injector_args.as_slice(), "-i") {
        return Err(String::from_str("--resume is incompatible with -i"));
    }
    let ghost before = text::views(injector_args@);
    injector_args.push(String::from_str("-i"));
    let start = trim_chars(chars_of(last_contents).as_slice());
    injector_args.push(string_of(start.as_slice()));
    assert(text::views(injector_args@) =~= before.push("-i"@).push(text::trim(last_contents@)));
    Ok(())
}

/// The last arguments the frontend adds: `-x` for ticks when not already
/// there, then `-R` for packet output.
pub fn finish_injector_args(injector_args: &mut Vec<String>, tick: bool)
    ensures
        text::views(final(injector_args)@) == (if tick && !text::views(old(injector_args)@).contains(
            "-x"@,
        ) {
            text::views(old(injector_args)@).push("-x"@)
        } else {
            text::views(old(injector_args)@)
        }).push("-R"@),
{
    let ghost before = text::views(injector_args@);
    if tick && !has_arg(injector_args.as_slice(), "-x") {
        injector_args.push(String::from_str("-x"));
        assert(text::views(injector_args@) =~= before.push("-x"@));
    }
    let ghost mid = text::views(injector_args@);
    injector_args.push(String::from_str("-R"));
    assert(text::views(injector_args@) =~= mid.push("-R"@));
}

/// How the injector is named in the logs: `import <path>` for a packet file,
/// else its path and arguments separated by spaces.
pub fn injector_command_text(input_path: &Option<String>, injector_path: &str, args: &Vec<String>) -> (r: String)
    ensures
        r@ == match input_path {
            Some(p) => "import "@ + p@,
            None => injector_path@ + " "@ + text::join(text::views(args@), ' '),
        },
{
    let mut out = String::new();
    match input_path {
        Some(p) => {
            push_str(&mut out, "import ");
            push_str(&mut out, p.as_str());
        },
        None => {
            push_str(&mut out, injector_path);
            push_str(&mut out, " ");
            let joined = join_strings(args, ' ');
            push_str(&mut out, joined.as_str());
        },
    }
    out
}

/// The frontend's usage line.
pub const SIFTER_HELP: &'static str = "sifter [--input sb1.log] [--len] [--dis] [--unk] [--ill] [--tick] [--save] [--resume] [--sync] [--low-mem] [--no-ui] -- [injector args...]\n";

pub fn help_text() -> (r: &'static str)
    ensures
        r@ == SIFTER_HELP@,
{
    SIFTER_HELP
}


/// The frontend's switches: the flags that take no value.
pub open spec fn is_switch(a: Seq<char>) -> bool {
    ||| a == "--len"@
    ||| a == "--dis"@
    ||| a == "--unk"@
    ||| a == "--ill"@
    ||| a == "--tick"@
    ||| a == "--save"@
    ||| a == "--resume"@
    ||| a == "--sync"@
    ||| a == "--low-mem"@
    ||| a == "--no-ui"@
}

/// The flag literals tell apart by length and a character.
proof fn lemma_flag_literals()
    ensures
        "--len"@.len() == 5 && "--len"@[2] == 'l',
        "--dis"@.len() == 5 && "--dis"@[2] == 'd',
        "--unk"@.len() == 5 && "--unk"@[2] == 'u',
        "--ill"@.len() == 5 && "--ill"@[2] == 'i',
        "--tick"@.len() == 6 && "--tick"@[2] == 't',
        "--save"@.len() == 6 && "--save"@[2] == 's' && "--save"@[3] == 'a',
        "--sync"@.len() == 6 && "--sync"@[2] == 's' && "--sync"@[3] == 'y',
        "--resume"@.len() == 8,
        "--low-mem"@.len() == 9,
        "--no-ui"@.len() == 7 && "--no-ui"@[2] == 'n',
        "--input"@.len() == 7 && "--input"@[2] == 'i',
        "--"@.len() == 2,
{
    reveal_strlit("--len");
    reveal_strlit("--dis");
    reveal_strlit("--unk");
    reveal_strlit("--ill");
    reveal_strlit("--tick");
    reveal_strlit("--save");
    reveal_strlit("--resume");
    reveal_strlit("--sync");
    reveal_strlit("--low-mem");
    reveal_strlit("--no-ui");
    reveal_strlit("--input");
    reveal_strlit("--");
}

proof fn lemma_skip_contains(args: Seq<Seq<char>>, i: int, f: Seq<char>)
    requires
        0 <= i < args.len(),
    ensures
        args.skip(i).contains(f) == (args[i] == f || args.skip(i + 1).contains(f)),
{
    let s = args.skip(i);
    let t = args.skip(i + 1);
    assert(s =~= seq![args[i]] + t);
    if s.contains(f) {
        let j = choose|j: int| 0 <= j < s.len() && #[trigger] s[j] == f;
        if j > 0 {
            assert(t[j - 1] == f);
        }
    }
    if t.contains(f) {
        let j = choose|j: int| 0 <= j < t.len() && #[trigger] t[j] == f;
        assert(s[j + 1] == f);
    }
    if args[i] == f {
        assert(s[0] == f);
    }
}

proof fn lemma_switches_from(args: Seq<Seq<char>>, i: nat, m: CliModel)
    requires
        i <= args.len(),
        forall|k: int| 0 <= k < args.len() ==> is_switch(#[trigger] args[k]),
    ensures
        cli_parse_from(args, i, m, false) matches Ok(r) && {
            &&& r.filters.search_length == (m.filters.search_length || args.skip(i as int).contains(
                "--len"@,
            ))
            &&& r.filters.search_disasm_length == (m.filters.search_disasm_length || args.skip(
                i as int,
            ).contains("--dis"@))
            &&& r.filters.search_unknown == (m.filters.search_unknown || args.skip(
                i as int,
            ).contains("--unk"@))
            &&& r.filters.search_invalid_known == (m.filters.search_invalid_known || args.skip(
                i as int,
            ).contains("--ill"@))
            &&& r.filters.search_executed_unknown == m.filters.search_executed_unknown
            &&& r.filters.search_si_code == m.filters.search_si_code
            &&& r.tick == (m.tick || args.skip(i as int).contains("--tick"@))
            &&& r.save == (m.save || args.skip(i as int).contains("--save"@))
            &&& r.resume == (m.resume || args.skip(i as int).contains("--resume"@))
            &&& r.sync == (m.sync || args.skip(i as int).contains("--sync"@))
            &&& r.low_mem == (m.low_mem || args.skip(i as int).contains("--low-mem"@))
            &&& r.live_ui == (m.live_ui && !args.skip(i as int).contains("--no-ui"@))
            &&& r.input_path == m.input_path
            &&& r.injector_args == m.injector_args
        },
    decreases args.len() - i,
{
    if i == args.len() {
        assert(args.skip(i as int) =~= Seq::<Seq<char>>::empty());
    } else {
        let a = args[i as int];
        assert(is_switch(a));
        lemma_flag_literals();
        assert(a != "--"@ && a != "--input"@);
        let m1 = cli_flag(a, m)->0;
        assert(cli_flag(a, m) is Some);
        lemma_switches_from(args, i + 1, m1);
        lemma_skip_contains(args, i as int, "--len"@);
        lemma_skip_contains(args, i as int, "--dis"@);
        lemma_skip_contains(args, i as int, "--unk"@);
        lemma_skip_contains(args, i as int, "--ill"@);
        lemma_skip_contains(args, i as int, "--tick"@);
        lemma_skip_contains(args, i as int, "--save"@);
        lemma_skip_contains(args, i as int, "--resume"@);
        lemma_skip_contains(args, i as int, "--sync"@);
        lemma_skip_contains(args, i as int, "--low-mem"@);
        lemma_skip_contains(args, i as int, "--no-ui"@);
    }
}

/// Switches set exactly their own fields: for an argument list made of
/// switches only, in any order and with any repetition, each filter, file
/// and display option is on exactly when its switch is present (`--dis` the
/// disassembler-length search, `--len` the length search, `--unk` the
/// unknown search, `--ill` the invalid-known search), the searches no
/// switch names stay off, and nothing goes to the injector.
pub proof fn lemma_switches_set_their_fields(args: Seq<Seq<char>>)
    requires
        forall|k: int| 0 <= k < args.len() ==> is_switch(#[trigger] args[k]),
    ensures
        spec_parse_cli(args) matches Ok(r) && {
            &&& r.filters.search_length == args.contains("--len"@)
            &&& r.filters.search_disasm_length == args.contains("--dis"@)
            &&& r.filters.search_unknown == args.contains("--unk"@)
            &&& r.filters.search_invalid_known == args.contains("--ill"@)
            &&& !r.filters.search_executed_unknown
            &&& !r.filters.search_si_code
            &&& r.tick == args.contains("--tick"@)
            &&& r.save == args.contains("--save"@)
            &&& r.resume == args.contains("--resume"@)
            &&& r.sync == args.contains("--sync"@)
            &&& r.low_mem == args.contains("--low-mem"@)
            &&& r.live_ui == !args.contains("--no-ui"@)
            &&& r.input_path is None
            &&& r.injector_args.len() == 0
        },
{
    lemma_switches_from(args, 0, default_cli());
    assert(args.skip(0) =~= args);
}

} // verus!
