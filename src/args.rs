//! The run's settings: command-line options, the optional settings file, and
//! how the two merge.
use vstd::prelude::*;
use crate::pattern::{MatchSpec, chars_of};
use crate::engine::SearchConfig;

verus! {

/// The settings of one run as given on the command line.
#[derive(Clone, Debug)]
pub struct Arguments {
    pub prefix: Option<String>,
    pub suffix: Option<String>,
    pub contain: Option<String>,
    pub n: usize,
    pub threads: u32,
}

/// The settings read from a settings file; every field is optional.
#[derive(Clone, Debug, Default)]
pub struct Config {
    pub prefix: Option<String>,
    pub suffix: Option<String>,
    pub contain: Option<String>,
    pub n: Option<usize>,
    pub threads: Option<u32>,
}

/// `args` completed by `config`: a text option keeps its command-line value
/// when given, `n` keeps it unless it is the default 1, and `threads` unless
/// it equals `default_threads`.
pub open spec fn merged(args: Arguments, config: Option<Config>, default_threads: u32) -> Arguments {
    match config {
        None => args,
        Some(cfg) => Arguments {
            prefix: if args.prefix is None { cfg.prefix } else { args.prefix },
            suffix: if args.suffix is None { cfg.suffix } else { args.suffix },
            contain: if args.contain is None { cfg.contain } else { args.contain },
            n: if args.n == 1 && cfg.n is Some { cfg.n->0 } else { args.n },
            threads: if args.threads == default_threads && cfg.threads is Some {
                cfg.threads->0
            } else {
                args.threads
            },
        },
    }
}

/// Relies on `num_cpus::get`: the number of logical CPUs available, which its
/// documentation promises is at least 1.
#[verifier::external_body]
fn cpu_count() -> (r: usize)
    ensures
        r >= 1,
{
    num_cpus::get()
}

/// The default worker count: the number of available CPUs, capped at `u32::MAX`.
pub fn default_threads() -> (r: u32)
    ensures
        r >= 1,
{
    let c = cpu_count();
    if c > u32::MAX as usize {
        u32::MAX
    } else {
        c as u32
    }
}

impl Arguments {
    /// Merges the command-line settings with those of a settings file, where
    /// `default_threads` is the worker count used when none is given.
    pub fn merge_with_defaults(self, config: Option<Config>, default_threads: u32) -> (r: Self)
        ensures
            r == merged(self, config, default_threads),
    {
        let mut a = self;
        match config {
            None => a,
            Some(cfg) => {
                let Config { prefix, suffix, contain, n, threads } = cfg;
                if a.prefix.is_none() {
                    a.prefix = prefix;
                }
                if a.suffix.is_none() {
                    a.suffix = suffix;
                }
                if a.contain.is_none() {
                    a.contain = contain;
                }
                if a.n == 1 {
                    if let Some(v) = n {
                        a.n = v;
                    }
                }
                if a.threads == default_threads {
                    if let Some(t) = threads {
                        a.threads = t;
                    }
                }
                a
            },
        }
    }

    /// Merges the command-line settings with those of a settings file, taking
    /// the number of available CPUs as the default worker count.
    pub fn merge_with_config(self, config: Option<Config>) -> (r: Self)
        ensures
            exists|d: u32| d >= 1 && r == merged(self, config, d),
    {
        let d = default_threads();
        self.merge_with_defaults(config, d)
    }
}

/// Why a command line is refused.
#[derive(Clone, Copy, Debug, PartialEq, Eq, Structural)]
pub enum ArgsError {
    /// clap refused the line: an unknown option, a missing or repeated value,
    /// or a request for help or the version.
    Refused,
    /// A count that is not a decimal number in range.
    InvalidNumber,
}

/// The options given, before defaults are filled in.
pub struct Parsed {
    pub prefix: Option<Seq<char>>,
    pub suffix: Option<Seq<char>>,
    pub contain: Option<Seq<char>>,
    pub n: Option<nat>,
    pub threads: Option<nat>,
}

pub open spec fn prefix_name() -> Seq<char> {
    seq!['p', 'r', 'e', 'f', 'i', 'x']
}

pub open spec fn suffix_name() -> Seq<char> {
    seq!['s', 'u', 'f', 'f', 'i', 'x']
}

pub open spec fn contain_name() -> Seq<char> {
    seq!['c', 'o', 'n', 't', 'a', 'i', 'n']
}

pub open spec fn n_name() -> Seq<char> {
    seq!['n']
}

pub open spec fn threads_name() -> Seq<char> {
    seq!['t', 'h', 'r', 'e', 'a', 'd', 's']
}

/// The names of the options of the command line.
pub open spec fn is_option_name(s: Seq<char>) -> bool {
    s == prefix_name() || s == suffix_name() || s == contain_name() || s == n_name() || s == threads_name()
}

/// The text of each token of a command line.
pub open spec fn argv_view(argv: Seq<&str>) -> Seq<Seq<char>> {
    argv.map_values(|s: &str| s@)
}

/// What clap makes of the command line `argv` for the option `name`: `None`
/// where it refuses the line, else the option's value where one is given.
pub uninterp spec fn cli_value(argv: Seq<Seq<char>>, name: Seq<char>) -> Option<Option<Seq<char>>>;

pub open spec fn opt_opt_view(o: Option<Option<String>>) -> Option<Option<Seq<char>>> {
    match o {
        Some(v) => Some(opt_view(v)),
        None => None,
    }
}

/// Relies on clap's `Command::try_get_matches_from`, for the command `vansol`
/// with the options `-p`/`--prefix`, `-s`/`--suffix`, `-c`/`--contain`,
/// `-n`/`--n` and `-t`/`--threads`, each taking one value; and on
/// `ArgMatches::get_one`, which panics only for a name the command does not
/// define. The result depends on the tokens and the name alone.
#[verifier::external_body]
fn cli_lookup(argv: &[&str], name: &str) -> (r: Option<Option<String>>)
    requires
        is_option_name(name@),
    ensures
        opt_opt_view(r) == cli_value(argv_view(argv@), name@),
{
    let matches = clap::Command::new("vansol")
        .arg(clap::Arg::new("prefix").short('p').long("prefix"))
        .arg(clap::Arg::new("suffix").short('s').long("suffix"))
        .arg(clap::Arg::new("contain").short('c').long("contain"))
        .arg(clap::Arg::new("n").short('n').long("n"))
        .arg(clap::Arg::new("threads").short('t').long("threads"))
        .try_get_matches_from(argv.iter().copied())
        .ok()?;
    Some(matches.get_one::<String>(name).cloned())
}

pub open spec fn is_digit(c: char) -> bool {
    '0' <= c && c <= '9'
}

pub open spec fn all_digits(s: Seq<char>) -> bool {
    forall|i: int| 0 <= i < s.len() ==> is_digit(#[trigger] s[i])
}

/// The value of a string of decimal digits.
pub open spec fn decimal_value(s: Seq<char>) -> nat
    decreases s.len(),
{
    if s.len() == 0 {
        0
    } else {
        decimal_value(s.drop_last()) * 10 + ((s.last() as u32) - 48) as nat
    }
}

/// `s` is a non-empty decimal number no larger than `max`.
pub open spec fn number_ok(s: Seq<char>, max: nat) -> bool {
    s.len() > 0 && all_digits(s) && decimal_value(s) <= max
}

pub open spec fn opt_view(o: Option<String>) -> Option<Seq<char>> {
    match o {
        Some(s) => Some(s@),
        None => None,
    }
}

/// `a` holds the options of `m`, with `n` 1 and `threads` `default_threads`
/// where they were not given.
pub open spec fn describes(a: Arguments, m: Parsed, default_threads: u32) -> bool {
    &&& opt_view(a.prefix) == m.prefix
    &&& opt_view(a.suffix) == m.suffix
    &&& opt_view(a.contain) == m.contain
    &&& a.n == (if m.n is Some { m.n->0 } else { 1 })
    &&& a.threads == (if m.threads is Some { m.threads->0 } else { default_threads as nat })
}


/// The decimal value of an optional count.
pub open spec fn count_of(v: Option<Seq<char>>) -> Option<nat> {
    match v {
        Some(s) => Some(decimal_value(s)),
        None => None,
    }
}

/// What a command line means, before defaults: the values clap gives for
/// each option, with the counts read as decimal numbers.
pub open spec fn parse_spec(argv: Seq<&str>) -> Result<Parsed, ArgsError> {
    let t = argv_view(argv);
    let p = cli_value(t, prefix_name());
    let s = cli_value(t, suffix_name());
    let c = cli_value(t, contain_name());
    let n = cli_value(t, n_name());
    let th = cli_value(t, threads_name());
    if p is None || s is None || c is None || n is None || th is None {
        Err(ArgsError::Refused)
    } else if n->0 is Some && !number_ok(n->0->0, usize::MAX as nat) {
        Err(ArgsError::InvalidNumber)
    } else if th->0 is Some && !number_ok(th->0->0, u32::MAX as nat) {
        Err(ArgsError::InvalidNumber)
    } else {
        Ok(Parsed { prefix: p->0, suffix: s->0, contain: c->0, n: count_of(n->0), threads: count_of(th->0) })
    }
}

/// Reads `t` as a decimal number no larger than `max`.
fn parse_number(t: &Vec<char>, max: usize) -> (r: Option<usize>)
    requires
        max >= 9,
    ensures
        r is Some <==> number_ok(t@, max as nat),
        r is Some ==> r->0 == decimal_value(t@),
{
    let len = t.len();
    if len == 0 {
        return None;
    }
    let mut v: usize = 0;
    let mut over = false;
    let mut i: usize = 0;
    assert(t@.subrange(0, 0) =~= Seq::<char>::empty());
    while i < len
        invariant
            len == t@.len(),
            i <= len,
            max >= 9,
            all_digits(t@.subrange(0, i as int)),
            !over ==> v == decimal_value(t@.subrange(0, i as int)) && v <= max,
            over ==> decimal_value(t@.subrange(0, i as int)) > max,
        decreases len - i,
    {
        let c = t[i];
        if !('0' <= c && c <= '9') {
            assert(!all_digits(t@));
            return None;
        }
        let d = (c as u32 - 48) as usize;
        let ghost before = decimal_value(t@.subrange(0, i as int));
        assert(t@.subrange(0, i + 1).drop_last() =~= t@.subrange(0, i as int));
        assert(decimal_value(t@.subrange(0, i + 1)) == before * 10 + d);
        if !over {
            if v > (max - d) / 10 {
                assert(v * 10 + d > max) by (nonlinear_arith)
                    requires v > (max - d) / 10, d <= 9, max >= 9;
                over = true;
            } else {
                assert(v * 10 + d <= max) by (nonlinear_arith)
                    requires v <= (max - d) / 10, d <= 9, max >= 9;
                v = v * 10 + d;
            }
        } else {
            assert(before * 10 + d > max) by (nonlinear_arith)
                requires before > max, d >= 0;
        }
        i += 1;
        assert(all_digits(t@.subrange(0, i as int))) by {
            assert forall|k: int| 0 <= k < i implies is_digit(#[trigger] t@.subrange(0, i as int)[k]) by {
                if k < i - 1 {
                    assert(t@.subrange(0, i as int)[k] == t@.subrange(0, i - 1)[k]);
                }
            }
        }
    }
    assert(t@.subrange(0, len as int) =~= t@);
    if over {
        None
    } else {
        Some(v)
    }
}

impl Arguments {
    /// Reads a command line with clap: the program's name, then the options
    /// `-p`/`--prefix`, `-s`/`--suffix` and `-c`/`--contain`, which take text,
    /// and `-n`/`--n` and `-t`/`--threads`, which take decimal counts and
    /// default to 1 and to `default_threads`.
    pub fn parse_with_default(argv: &[&str], default_threads: u32) -> (r: Result<Arguments, ArgsError>)
        ensures
            r is Ok <==> parse_spec(argv@) is Ok,
            r is Ok ==> describes(r->Ok_0, parse_spec(argv@)->Ok_0, default_threads),
            r is Err ==> r->Err_0 == parse_spec(argv@)->Err_0,
    {
        proof {
            reveal_strlit("prefix");
            reveal_strlit("suffix");
            reveal_strlit("contain");
            reveal_strlit("n");
            reveal_strlit("threads");
            assert("prefix"@ =~= prefix_name());
            assert("suffix"@ =~= suffix_name());
            assert("contain"@ =~= contain_name());
            assert("n"@ =~= n_name());
            assert("threads"@ =~= threads_name());
        }
        let prefix = match cli_lookup(argv, "prefix") {
            Some(v) => v,
            None => return Err(ArgsError::Refused),
        };
        let suffix = match cli_lookup(argv, "suffix") {
            Some(v) => v,
            None => return Err(ArgsError::Refused),
        };
        let contain = match cli_lookup(argv, "contain") {
            Some(v) => v,
            None => return Err(ArgsError::Refused),
        };
        let n_text = match cli_lookup(argv, "n") {
            Some(v) => v,
            None => return Err(ArgsError::Refused),
        };
        let threads_text = match cli_lookup(argv, "threads") {
            Some(v) => v,
            None => return Err(ArgsError::Refused),
        };
        let n: usize = match n_text {
            Some(text) => match parse_number(&chars_of(text.as_str()), usize::MAX) {
                Some(v) => v,
                None => return Err(ArgsError::InvalidNumber),
            },
            None => 1,
        };
        let threads: u32 = match threads_text {
            Some(text) => match parse_number(&chars_of(text.as_str()), u32::MAX as usize) {
                Some(v) => v as u32,
                None => return Err(ArgsError::InvalidNumber),
            },
            None => default_threads,
        };
        Ok(Arguments { prefix, suffix, contain, n, threads })
    }

    /// Reads a command line as `parse_with_default` does, with the number of
    /// available CPUs as the default worker count.
    pub fn parse_from(argv: &[&str]) -> (r: Result<Arguments, ArgsError>)
        ensures
            r is Ok <==> parse_spec(argv@) is Ok,
            r is Ok ==> exists|d: u32| d >= 1 && describes(r->Ok_0, parse_spec(argv@)->Ok_0, d),
            r is Err ==> r->Err_0 == parse_spec(argv@)->Err_0,
    {
        let d = default_threads();
        Self::parse_with_default(argv, d)
    }
}

fn copy_text(o: &Option<String>) -> (r: Option<String>)
    ensures
        r == *o,
{
    match o {
        Some(s) => Some(s.clone()),
        None => None,
    }
}

impl Arguments {
    /// The search these settings ask for: their pattern, `n` matches, and
    /// `threads` workers drawing `batch_size` candidates per round.
    pub fn search_config(&self, batch_size: usize) -> (r: SearchConfig)
        ensures
            r.spec.prefix == self.prefix,
            r.spec.suffix == self.suffix,
            r.spec.contains == self.contain,
            r.target_count == self.n,
            r.worker_count == self.threads as usize,
            r.batch_size == batch_size,
    {
        SearchConfig {
            spec: MatchSpec {
                prefix: copy_text(&self.prefix),
                suffix: copy_text(&self.suffix),
                contains: copy_text(&self.contain),
            },
            target_count: self.n,
            worker_count: self.threads as usize,
            batch_size,
        }
    }
}

} // verus!
