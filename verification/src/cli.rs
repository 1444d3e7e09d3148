//! Command-line handling: the global options, which command runs with
//! which sampling interval, and the options of the `checkpoint`, `runs` and
//! `export` commands.

use vstd::prelude::*;

use crate::api::DEFAULT_API_SOCKET;
use crate::cache::DEFAULT_CACHE_PATH;
use crate::paths::{extension, path_extension, path_with_extension, with_extension};
use crate::runs::DEFAULT_RUNS_DIR;
use crate::text::{
    all_ascii_digits, all_ascii_digits_in, ascii_lower, chars_eq, concat2, concat3, copy_string, find_char,
    first_index, parse_usize, parsed_usize, same_text, to_ascii_lower, to_chars,
};

verus! {

/// Why a command line is refused.
#[derive(Debug, Clone)]
pub enum CliError {
    /// An option was given without its value.
    MissingValue(String),
    /// A count that is not a `usize`; its message is the one `str::parse`
    /// gives for the text.
    BadNumber(String),
    /// A number of seconds that is not an `f64`; its message is the one
    /// `str::parse` gives for the text.
    BadFloat(String),
    /// Any other refusal, with its message.
    Usage(String),
}

pub open spec fn cli_error_view(e: CliError) -> (nat, Seq<char>) {
    match e {
        CliError::MissingValue(flag) => (0, flag@),
        CliError::BadNumber(value) => (1, value@),
        CliError::Usage(message) => (2, message@),
        CliError::BadFloat(value) => (3, value@),
    }
}

pub open spec fn missing_value(flag: Seq<char>) -> (nat, Seq<char>) {
    (0, flag)
}

pub open spec fn usage(message: Seq<char>) -> (nat, Seq<char>) {
    (2, message)
}

impl CliError {
    /// The message shown for errors other than a bad number; for a bad
    /// number, the text that was refused.
    pub fn message(&self) -> (r: String)
        ensures
            match *self {
                CliError::MissingValue(flag) => r@ == flag@ + " requires a value"@,
                CliError::BadNumber(value) => r@ == value@,
                CliError::Usage(message) => r@ == message@,
                CliError::BadFloat(value) => r@ == value@,
            },
    {
        match self {
            CliError::MissingValue(flag) => concat2(flag.as_str(), " requires a value"),
            CliError::BadNumber(value) => copy_string(value.as_str()),
            CliError::Usage(message) => copy_string(message.as_str()),
            CliError::BadFloat(value) => copy_string(value.as_str()),
        }
    }
}

pub open spec fn texts(v: Seq<String>) -> Seq<Seq<char>> {
    v.map_values(|s: String| s@)
}

/// Removes the option at `index` and its value, returning the value.
pub fn take_value(args: &mut Vec<String>, index: usize, flag: &str) -> (r: Result<String, CliError>)
    requires
        index < usize::MAX,
    ensures
        match r {
            Ok(v) => index + 1 < old(args)@.len() && v@ == old(args)@[index + 1]@ && texts(
                final(args)@,
            ) == texts(old(args)@).take(index as int) + texts(old(args)@).skip(index + 2),
            Err(e) => index + 1 >= old(args)@.len() && cli_error_view(e) == missing_value(flag@)
                && final(args)@ == old(args)@,
        },
{
    if index + 1 >= args.len() {
        return Err(CliError::MissingValue(copy_string(flag)));
    }
    let ghost before = texts(args@);
    let value = args.remove(index + 1);
    args.remove(index);
    assert(texts(args@) =~= before.take(index as int) + before.skip(index + 2));
    Ok(value)
}

/// The value after the option at `*index`; the index moves past both.
pub fn argument_value(args: &[String], index: &mut usize, flag: &str) -> (r: Result<String, CliError>)
    requires
        *old(index) < usize::MAX,
    ensures
        match r {
            Ok(v) => *old(index) + 1 < args@.len() && v@ == args@[*old(index) + 1]@
                && *final(index) == *old(index) + 2,
            Err(e) => *old(index) + 1 >= args@.len() && cli_error_view(e) == missing_value(flag@)
                && *final(index) == *old(index),
        },
{
    if *index + 1 >= args.len() {
        return Err(CliError::MissingValue(copy_string(flag)));
    }
    let value = copy_string(args[*index + 1].as_str());
    *index = *index + 2;
    Ok(value)
}

/// At most `width` characters of `value`: longer text keeps `width - 1`
/// characters and ends in an ellipsis.
pub open spec fn truncated_text(value: Seq<char>, width: nat) -> Seq<char> {
    if value.len() <= width {
        value
    } else {
        value.take(if width > 0 { width - 1 } else { 0 }).push('…')
    }
}

pub fn truncate(value: &str, width: usize) -> (r: String)
    ensures
        r@ == truncated_text(value@, width as nat),
{
    let chars = to_chars(value);
    if chars.len() <= width {
        return copy_string(value);
    }
    let keep = if width > 0 {
        width - 1
    } else {
        0
    };
    let mut out: Vec<char> = Vec::new();
    let mut i: usize = 0;
    while i < keep
        invariant
            keep < chars@.len(),
            i <= keep,
            out@ == chars@.take(i as int),
        decreases keep - i,
    {
        out.push(chars[i]);
        assert(out@ =~= chars@.take(i + 1));
        i = i + 1;
    }
    out.push('…');
    crate::text::string_of(out.as_slice())
}

/// A float's mantissa: ASCII digits with at most one `.`, and a digit on at
/// least one side of the `.`.
pub open spec fn mantissa_text(m: Seq<char>) -> bool {
    match first_index(m, '.') {
        None => m.len() > 0 && all_ascii_digits(m),
        Some(d) => m.len() > 1 && all_ascii_digits(m.take(d)) && all_ascii_digits(m.skip(d + 1)),
    }
}

/// A float's exponent after the `e`: an optional sign, then ASCII digits.
pub open spec fn exponent_text(x: Seq<char>) -> bool {
    let digits = if x.len() > 0 && (x[0] == '+' || x[0] == '-') {
        x.skip(1)
    } else {
        x
    };
    digits.len() > 0 && all_ascii_digits(digits)
}

/// A lowercased float number without its sign: a mantissa, optionally
/// followed by `e` and an exponent.
pub open spec fn number_text(s: Seq<char>) -> bool {
    match first_index(s, 'e') {
        None => mantissa_text(s),
        Some(e) => mantissa_text(s.take(e)) && exponent_text(s.skip(e + 1)),
    }
}

/// The texts that `f64::from_str` accepts, by the grammar its documentation
/// gives for the lowercased text: an optional sign, then `inf`, `infinity`,
/// `nan` or a number.
pub open spec fn float_text(t: Seq<char>) -> bool {
    let s = ascii_lower(t);
    let body = if s.len() > 0 && (s[0] == '+' || s[0] == '-') {
        s.skip(1)
    } else {
        s
    };
    body == "inf"@ || body == "infinity"@ || body == "nan"@ || number_text(body)
}

fn is_mantissa(m: &[char]) -> (r: bool)
    ensures
        r == mantissa_text(m@),
{
    match find_char(m, '.') {
        None => {
            assert(m@.subrange(0, m@.len() as int) =~= m@);
            m.len() > 0 && all_ascii_digits_in(m, 0, m.len())
        },
        Some(d) => {
            assert(m@.subrange(0, d as int) =~= m@.take(d as int));
            assert(m@.subrange(d + 1, m@.len() as int) =~= m@.skip(d + 1));
            m.len() > 1 && all_ascii_digits_in(m, 0, d) && all_ascii_digits_in(m, d + 1, m.len())
        },
    }
}

fn is_exponent(x: &[char]) -> (r: bool)
    ensures
        r == exponent_text(x@),
{
    let start: usize = if x.len() > 0 && (x[0] == '+' || x[0] == '-') {
        1
    } else {
        0
    };
    assert(x@.subrange(start as int, x@.len() as int) =~= x@.skip(start as int));
    assert(x@.skip(0) =~= x@);
    x.len() > start && all_ascii_digits_in(x, start, x.len())
}

fn is_number(s: &[char]) -> (r: bool)
    ensures
        r == number_text(s@),
{
    let n = s.len();
    match find_char(s, 'e') {
        None => is_mantissa(s),
        Some(e) => {
            assert(e < n);
            let m = &s[0..e];
            let x = &s[e + 1..s.len()];
            assert(m@ =~= s@.take(e as int));
            assert(x@ =~= s@.skip(e + 1));
            is_mantissa(m) && is_exponent(x)
        },
    }
}

/// Whether `f64::from_str` accepts the text.
pub fn is_float_text(t: &str) -> (r: bool)
    ensures
        r == float_text(t@),
{
    let chars = to_chars(t);
    let s = to_ascii_lower(chars.as_slice());
    let start: usize = if s.len() > 0 && (s[0] == '+' || s[0] == '-') {
        1
    } else {
        0
    };
    let body = &s.as_slice()[start..s.len()];
    assert(body@ =~= if start == 1 { s@.skip(1) } else { s@ });
    let inf = to_chars("inf");
    let infinity = to_chars("infinity");
    let nan = to_chars("nan");
    chars_eq(body, inf.as_slice()) || chars_eq(body, infinity.as_slice()) || chars_eq(body, nan.as_slice())
        || is_number(body)
}

/// The global options.
#[derive(Debug, Clone)]
pub struct GlobalOptions {
    pub cache: String,
    /// The `--interval` text, in seconds; `f64::from_str` accepts it, and
    /// the caller reads it as a float.
    pub interval: Option<String>,
    pub history: usize,
    pub runs_dir: String,
    pub api_socket: String,
    pub once: bool,
}

pub struct OptionsView {
    pub cache: Seq<char>,
    pub interval: Option<Seq<char>>,
    pub history: usize,
    pub runs_dir: Seq<char>,
    pub api_socket: Seq<char>,
    pub once: bool,
}

pub open spec fn options_view(o: GlobalOptions) -> OptionsView {
    OptionsView {
        cache: o.cache@,
        interval: match o.interval {
            Some(t) => Some(t@),
            None => None,
        },
        history: o.history,
        runs_dir: o.runs_dir@,
        api_socket: o.api_socket@,
        once: o.once,
    }
}

pub open spec fn default_options() -> OptionsView {
    OptionsView {
        cache: "/run/simaai-sentinel/cache.json"@,
        interval: None,
        history: 240,
        runs_dir: "/var/lib/simaai-sentinel/runs"@,
        api_socket: "/run/simaai-sentinel/api.sock"@,
        once: false,
    }
}

/// What the global options ask for: help, the version, or a command given
/// by the arguments that are not global options.
#[derive(Debug)]
pub enum Invocation {
    Help,
    Version,
    Command(Vec<String>),
}

pub enum InvocationView {
    Help,
    Version,
    Command(Seq<Seq<char>>),
}

pub open spec fn invocation_view(i: Invocation) -> InvocationView {
    match i {
        Invocation::Help => InvocationView::Help,
        Invocation::Version => InvocationView::Version,
        Invocation::Command(rest) => InvocationView::Command(texts(rest@)),
    }
}

/// Reads the global options from the front of `args`: each one is taken
/// with its value, `-h`/`--help` and `-V`/`--version` end the scan, and any
/// other argument is kept for the command.
pub open spec fn scan_options(args: Seq<Seq<char>>, o: OptionsView) -> Result<(OptionsView, InvocationView), (nat, Seq<char>)>
    decreases args.len(),
{
    if args.len() == 0 {
        Ok((o, InvocationView::Command(seq![])))
    } else {
        let a = args[0];
        if a == "--cache"@ || a == "--interval"@ || a == "--history"@ || a == "--runs-dir"@ || a
            == "--api-socket"@ {
            if args.len() < 2 {
                Err(missing_value(a))
            } else {
                let v = args[1];
                if a == "--history"@ {
                    match parsed_usize(v) {
                        Some(n) => scan_options(args.skip(2), OptionsView { history: n, ..o }),
                        None => Err((1, v)),
                    }
                } else if a == "--cache"@ {
                    scan_options(args.skip(2), OptionsView { cache: v, ..o })
                } else if a == "--interval"@ {
                    if float_text(v) {
                        scan_options(args.skip(2), OptionsView { interval: Some(v), ..o })
                    } else {
                        Err((3, v))
                    }
                } else if a == "--runs-dir"@ {
                    scan_options(args.skip(2), OptionsView { runs_dir: v, ..o })
                } else {
                    scan_options(args.skip(2), OptionsView { api_socket: v, ..o })
                }
            }
        } else if a == "--once"@ {
            scan_options(args.skip(1), OptionsView { once: true, ..o })
        } else if a == "-h"@ || a == "--help"@ {
            Ok((o, InvocationView::Help))
        } else if a == "-V"@ || a == "--version"@ {
            Ok((o, InvocationView::Version))
        } else {
            match scan_options(args.skip(1), o) {
                Ok((o2, InvocationView::Command(rest))) => Ok(
                    (o2, InvocationView::Command(seq![a] + rest)),
                ),
                other => other,
            }
        }
    }
}

/// `kept` arguments put before whatever the rest of the scan keeps.
pub open spec fn after_kept(kept: Seq<Seq<char>>, r: Result<(OptionsView, InvocationView), (nat, Seq<char>)>) -> Result<(OptionsView, InvocationView), (nat, Seq<char>)> {
    match r {
        Ok((o, InvocationView::Command(rest))) => Ok((o, InvocationView::Command(kept + rest))),
        other => other,
    }
}

proof fn lemma_after_kept_push(kept: Seq<Seq<char>>, a: Seq<char>, r: Result<(OptionsView, InvocationView), (nat, Seq<char>)>)
    ensures
        after_kept(kept.push(a), r) == after_kept(
            kept,
            match r {
                Ok((o2, InvocationView::Command(rest))) => Ok::<(OptionsView, InvocationView), (nat, Seq<char>)>(
                    (o2, InvocationView::Command(seq![a] + rest)),
                ),
                other => other,
            },
        ),
{
    match r {
        Ok((o, InvocationView::Command(rest))) => {
            assert(kept.push(a) + rest =~= kept + (seq![a] + rest));
        },
        _ => {},
    }
}

pub fn parse_global_options(args: &[String]) -> (r: Result<(GlobalOptions, Invocation), CliError>)
    ensures
        match r {
            Ok((o, i)) => scan_options(texts(args@), default_options()) == Ok::<(OptionsView, InvocationView), (nat, Seq<char>)>((options_view(o), invocation_view(i))),
            Err(e) => scan_options(texts(args@), default_options()) == Err::<(OptionsView, InvocationView), (nat, Seq<char>)>(cli_error_view(e)),
        },
{
    let ghost all = texts(args@);
    let mut o = GlobalOptions {
        cache: copy_string(DEFAULT_CACHE_PATH),
        interval: None,
        history: 240,
        runs_dir: copy_string(DEFAULT_RUNS_DIR),
        api_socket: copy_string(DEFAULT_API_SOCKET),
        once: false,
    };
    let mut kept: Vec<String> = Vec::new();
    let mut i: usize = 0;
    assert(all.skip(0) =~= all);
    assert(kept@.map_values(|s: String| s@) =~= Seq::<Seq<char>>::empty());
    assert(after_kept(seq![], scan_options(all, default_options())) == scan_options(all, default_options())) by {
        match scan_options(all, default_options()) {
            Ok((o, InvocationView::Command(rest))) => {
                assert(Seq::<Seq<char>>::empty() + rest =~= rest);
            },
            _ => {},
        }
    }
    while i < args.len()
        invariant
            all == texts(args@),
            i <= args@.len(),
            scan_options(all, default_options()) == after_kept(
                texts(kept@),
                scan_options(all.skip(i as int), options_view(o)),
            ),
        decreases args@.len() - i,
    {
        let ghost suffix = all.skip(i as int);
        assert(suffix[0] == args@[i as int]@);
        let a = args[i].as_str();
        if same_text(a, "--cache") || same_text(a, "--interval") || same_text(a, "--history")
            || same_text(a, "--runs-dir") || same_text(a, "--api-socket") {
            if args.len() - i < 2 {
                return Err(CliError::MissingValue(copy_string(a)));
            }
            assert(suffix[1] == args@[i + 1]@);
            assert(suffix.skip(2) =~= all.skip(i + 2));
            let v = args[i + 1].as_str();
            if same_text(a, "--history") {
                let vc = to_chars(v);
                match parse_usize(vc.as_slice()) {
                    Some(n) => {
                        o.history = n;
                    },
                    None => {
                        return Err(CliError::BadNumber(copy_string(v)));
                    },
                }
            } else if same_text(a, "--cache") {
                o.cache = copy_string(v);
            } else if same_text(a, "--interval") {
                if !is_float_text(v) {
                    return Err(CliError::BadFloat(copy_string(v)));
                }
                o.interval = Some(copy_string(v));
            } else if same_text(a, "--runs-dir") {
                o.runs_dir = copy_string(v);
            } else {
                o.api_socket = copy_string(v);
            }
            i = i + 2;
        } else if same_text(a, "--once") {
            assert(suffix.skip(1) =~= all.skip(i + 1));
            o.once = true;
            i = i + 1;
        } else if same_text(a, "-h") || same_text(a, "--help") {
            return Ok((o, Invocation::Help));
        } else if same_text(a, "-V") || same_text(a, "--version") {
            return Ok((o, Invocation::Version));
        } else {
            assert(suffix.skip(1) =~= all.skip(i + 1));
            proof {
                lemma_after_kept_push(texts(kept@), args@[i as int]@, scan_options(all.skip(i + 1), options_view(o)));
            }
            let ghost before = texts(kept@);
            kept.push(copy_string(a));
            assert(texts(kept@) =~= before.push(a@));
            i = i + 1;
        }
    }
    assert(all.skip(i as int) =~= Seq::<Seq<char>>::empty());
    assert(texts(kept@) + Seq::<Seq<char>>::empty() =~= texts(kept@));
    Ok((o, Invocation::Command(kept)))
}

/// The command to run.
#[derive(Debug, Clone, Copy, PartialEq, Eq, Structural)]
pub enum Command {
    Daemon,
    Table,
    OpsOnce,
    Ops,
    Checkpoint,
    Runs,
    ExportCache,
    ExportRuns,
    Sensors,
    Status,
}

/// The command named by the first remaining argument (`ops` when there is
/// none); `export` alone prints the live cache.
pub open spec fn command_choice(rest: Seq<Seq<char>>, once: bool) -> Result<Command, (nat, Seq<char>)> {
    let c = if rest.len() > 0 {
        rest[0]
    } else {
        "ops"@
    };
    if c == "daemon"@ {
        Ok(Command::Daemon)
    } else if c == "table"@ {
        Ok(Command::Table)
    } else if c == "ops"@ {
        Ok(if once { Command::OpsOnce } else { Command::Ops })
    } else if c == "checkpoint"@ {
        Ok(Command::Checkpoint)
    } else if c == "runs"@ {
        Ok(Command::Runs)
    } else if c == "export"@ {
        Ok(if rest.len() == 1 { Command::ExportCache } else { Command::ExportRuns })
    } else if c == "sensors"@ || c == "metrics"@ {
        Ok(Command::Sensors)
    } else if c == "status"@ {
        Ok(Command::Status)
    } else {
        Err(usage("unknown command '"@ + c + "'"@))
    }
}

pub fn parse_command(rest: &[String], once: bool) -> (r: Result<Command, CliError>)
    ensures
        match r {
            Ok(c) => command_choice(texts(rest@), once) == Ok::<Command, (nat, Seq<char>)>(c),
            Err(e) => command_choice(texts(rest@), once) == Err::<Command, (nat, Seq<char>)>(cli_error_view(e)),
        },
{
    let c: &str = if rest.len() > 0 {
        rest[0].as_str()
    } else {
        "ops"
    };
    if same_text(c, "daemon") {
        Ok(Command::Daemon)
    } else if same_text(c, "table") {
        Ok(Command::Table)
    } else if same_text(c, "ops") {
        Ok(if once { Command::OpsOnce } else { Command::Ops })
    } else if same_text(c, "checkpoint") {
        Ok(Command::Checkpoint)
    } else if same_text(c, "runs") {
        Ok(Command::Runs)
    } else if same_text(c, "export") {
        Ok(if rest.len() == 1 { Command::ExportCache } else { Command::ExportRuns })
    } else if same_text(c, "sensors") || same_text(c, "metrics") {
        Ok(Command::Sensors)
    } else if same_text(c, "status") {
        Ok(Command::Status)
    } else {
        Err(CliError::Usage(concat3("unknown command '", c, "'")))
    }
}

/// The sampling interval a command uses without `--interval`, and the
/// shortest it accepts, in milliseconds.
pub open spec fn interval_bounds_of(c: Command) -> (u64, u64) {
    match c {
        Command::Daemon => (2000, 500),
        Command::Ops => (500, 500),
        _ => (500, 200),
    }
}

pub fn interval_bounds(c: Command) -> (r: (u64, u64))
    ensures
        r == interval_bounds_of(c),
{
    match c {
        Command::Daemon => (2000, 500),
        Command::Ops => (500, 500),
        _ => (500, 200),
    }
}

/// What `checkpoint` is asked to do.
#[derive(Debug)]
pub enum CheckpointRequest {
    Stop,
    Start { name: String, note: Option<String>, tags: Vec<String> },
}

pub enum CheckpointView {
    Stop,
    Start(Seq<char>, Option<Seq<char>>, Seq<Seq<char>>),
}

pub open spec fn checkpoint_view(c: CheckpointRequest) -> CheckpointView {
    match c {
        CheckpointRequest::Stop => CheckpointView::Stop,
        CheckpointRequest::Start { name, note, tags } => CheckpointView::Start(
            name@,
            match note {
                Some(n) => Some(n@),
                None => None,
            },
            texts(tags@),
        ),
    }
}

/// The options seen so far: name, note, tags and whether `--stop` was given.
pub struct CheckpointScan {
    pub name: Option<Seq<char>>,
    pub note: Option<Seq<char>>,
    pub tags: Seq<Seq<char>>,
    pub stop: bool,
}

/// Reads `checkpoint` options from the front of `args`.
pub open spec fn scan_checkpoint(args: Seq<Seq<char>>, s: CheckpointScan) -> Result<CheckpointScan, (nat, Seq<char>)>
    decreases args.len(),
{
    if args.len() == 0 {
        Ok(s)
    } else {
        let a = args[0];
        if a == "--name"@ || a == "--note"@ || a == "--tag"@ {
            if args.len() < 2 {
                Err(missing_value(a))
            } else if a == "--name"@ {
                scan_checkpoint(args.skip(2), CheckpointScan { name: Some(args[1]), ..s })
            } else if a == "--note"@ {
                scan_checkpoint(args.skip(2), CheckpointScan { note: Some(args[1]), ..s })
            } else {
                scan_checkpoint(args.skip(2), CheckpointScan { tags: s.tags.push(args[1]), ..s })
            }
        } else if a == "--stop"@ {
            scan_checkpoint(args.skip(1), CheckpointScan { stop: true, ..s })
        } else {
            Err(usage("unknown checkpoint option '"@ + a + "'"@))
        }
    }
}

/// The request `checkpoint` options make: `--stop` alone, or a start with a
/// name, an optional note and any tags.
pub open spec fn checkpoint_choice(args: Seq<Seq<char>>) -> Result<CheckpointView, (nat, Seq<char>)> {
    match scan_checkpoint(args, CheckpointScan { name: None, note: None, tags: seq![], stop: false }) {
        Err(e) => Err(e),
        Ok(s) => if s.stop {
            if s.name is Some || s.note is Some || s.tags.len() > 0 {
                Err(usage("--stop cannot be combined with --name, --note, or --tag"@))
            } else {
                Ok(CheckpointView::Stop)
            }
        } else {
            match s.name {
                Some(n) => Ok(CheckpointView::Start(n, s.note, s.tags)),
                None => Err(usage("checkpoint requires --name NAME or --stop"@)),
            }
        },
    }
}

pub open spec fn opt_text(o: Option<String>) -> Option<Seq<char>> {
    match o {
        Some(s) => Some(s@),
        None => None,
    }
}

pub fn parse_checkpoint_args(args: &[String]) -> (r: Result<CheckpointRequest, CliError>)
    ensures
        match r {
            Ok(c) => checkpoint_choice(texts(args@)) == Ok::<CheckpointView, (nat, Seq<char>)>(checkpoint_view(c)),
            Err(e) => checkpoint_choice(texts(args@)) == Err::<CheckpointView, (nat, Seq<char>)>(cli_error_view(e)),
        },
{
    let ghost all = texts(args@);
    let ghost init = CheckpointScan { name: None, note: None, tags: seq![], stop: false };
    let mut name: Option<String> = None;
    let mut note: Option<String> = None;
    let mut tags: Vec<String> = Vec::new();
    let mut stop = false;
    let mut index: usize = 0;
    assert(all.skip(0) =~= all);
    assert(texts(tags@) =~= Seq::<Seq<char>>::empty());
    while index < args.len()
        invariant
            all == texts(args@),
            init == (CheckpointScan { name: None, note: None, tags: seq![], stop: false }),
            index <= args@.len(),
            scan_checkpoint(all, init) == scan_checkpoint(
                all.skip(index as int),
                CheckpointScan { name: opt_text(name), note: opt_text(note), tags: texts(tags@), stop },
            ),
        decreases args@.len() - index,
    {
        let ghost suffix = all.skip(index as int);
        assert(suffix[0] == args@[index as int]@);
        let a = args[index].as_str();
        if same_text(a, "--name") || same_text(a, "--note") || same_text(a, "--tag") {
            let ghost at = index;
            match argument_value(args, &mut index, a) {
                Err(e) => {
                    return Err(e);
                },
                Ok(v) => {
                    assert(suffix[1] == args@[at + 1]@);
                    assert(suffix.skip(2) =~= all.skip(index as int));
                    if same_text(a, "--name") {
                        name = Some(v);
                    } else if same_text(a, "--note") {
                        note = Some(v);
                    } else {
                        let ghost before = texts(tags@);
                        tags.push(v);
                        assert(texts(tags@) =~= before.push(args@[at + 1]@));
                    }
                },
            }
        } else if same_text(a, "--stop") {
            assert(suffix.skip(1) =~= all.skip(index + 1));
            stop = true;
            index = index + 1;
        } else {
            return Err(CliError::Usage(concat3("unknown checkpoint option '", a, "'")));
        }
    }
    assert(all.skip(index as int) =~= Seq::<Seq<char>>::empty());
    if stop {
        if name.is_some() || note.is_some() || tags.len() > 0 {
            return Err(CliError::Usage(copy_string("--stop cannot be combined with --name, --note, or --tag")));
        }
        return Ok(CheckpointRequest::Stop);
    }
    match name {
        Some(n) => Ok(CheckpointRequest::Start { name: n, note, tags }),
        None => Err(CliError::Usage(copy_string("checkpoint requires --name NAME or --stop"))),
    }
}

/// What `runs` is asked to do.
#[derive(Debug)]
pub enum RunsRequest {
    List,
    Show(String),
    Delete(String),
    Clear,
}

pub enum RunsView {
    List,
    Show(Seq<char>),
    Delete(Seq<char>),
    Clear,
}

pub open spec fn runs_view(r: RunsRequest) -> RunsView {
    match r {
        RunsRequest::List => RunsView::List,
        RunsRequest::Show(s) => RunsView::Show(s@),
        RunsRequest::Delete(s) => RunsView::Delete(s@),
        RunsRequest::Clear => RunsView::Clear,
    }
}

/// The `runs` subcommand: `list` (the default), `show RUN`, `delete RUN`,
/// or `clear --force`.
pub open spec fn runs_choice(args: Seq<Seq<char>>) -> Result<RunsView, (nat, Seq<char>)> {
    let c = if args.len() > 0 {
        args[0]
    } else {
        "list"@
    };
    if c == "list"@ && args.len() <= 1 {
        Ok(RunsView::List)
    } else if c == "show"@ && args.len() == 2 {
        Ok(RunsView::Show(args[1]))
    } else if c == "delete"@ && args.len() == 2 {
        Ok(RunsView::Delete(args[1]))
    } else if c == "clear"@ && args.len() == 2 && args[1] == "--force"@ {
        Ok(RunsView::Clear)
    } else if c == "clear"@ {
        Err(usage("clearing all completed runs is destructive; confirm with: simaai-sentinel runs clear --force"@))
    } else if c == "list"@ || c == "show"@ || c == "delete"@ {
        Err(usage("usage: simaai-sentinel runs "@ + c + " [RUN]"@))
    } else {
        Err(usage("unknown runs command '"@ + c + "'"@))
    }
}

pub fn parse_runs_args(args: &[String]) -> (r: Result<RunsRequest, CliError>)
    ensures
        match r {
            Ok(x) => runs_choice(texts(args@)) == Ok::<RunsView, (nat, Seq<char>)>(runs_view(x)),
            Err(e) => runs_choice(texts(args@)) == Err::<RunsView, (nat, Seq<char>)>(cli_error_view(e)),
        },
{
    let c: &str = if args.len() > 0 {
        args[0].as_str()
    } else {
        "list"
    };
    if same_text(c, "list") && args.len() <= 1 {
        Ok(RunsRequest::List)
    } else if same_text(c, "show") && args.len() == 2 {
        Ok(RunsRequest::Show(copy_string(args[1].as_str())))
    } else if same_text(c, "delete") && args.len() == 2 {
        Ok(RunsRequest::Delete(copy_string(args[1].as_str())))
    } else if same_text(c, "clear") && args.len() == 2 && same_text(args[1].as_str(), "--force") {
        Ok(RunsRequest::Clear)
    } else if same_text(c, "clear") {
        Err(CliError::Usage(copy_string("clearing all completed runs is destructive; confirm with: simaai-sentinel runs clear --force")))
    } else if same_text(c, "list") || same_text(c, "show") || same_text(c, "delete") {
        Err(CliError::Usage(concat3("usage: simaai-sentinel runs ", c, " [RUN]")))
    } else {
        Err(CliError::Usage(concat3("unknown runs command '", c, "'")))
    }
}

/// The runs to export and where: the selectors, the format text and the
/// output path.
#[derive(Debug)]
pub struct ExportRequest {
    pub selectors: Vec<String>,
    pub format: String,
    pub output: String,
}

pub struct ExportScan {
    pub selectors: Seq<Seq<char>>,
    pub format: Option<Seq<char>>,
    pub output: Option<Seq<char>>,
}

/// Reads `export` arguments from the front of `args`: `--format` and
/// `--output` with their values, any other option refused, and every other
/// argument a run selector.
pub open spec fn scan_export(args: Seq<Seq<char>>, s: ExportScan) -> Result<ExportScan, (nat, Seq<char>)>
    decreases args.len(),
{
    if args.len() == 0 {
        Ok(s)
    } else {
        let a = args[0];
        if a == "--format"@ || a == "--output"@ {
            if args.len() < 2 {
                Err(missing_value(a))
            } else if a == "--format"@ {
                scan_export(args.skip(2), ExportScan { format: Some(args[1]), ..s })
            } else {
                scan_export(args.skip(2), ExportScan { output: Some(args[1]), ..s })
            }
        } else if a.len() > 0 && a[0] == '-' {
            Err(usage("unknown export option '"@ + a + "'"@))
        } else {
            scan_export(args.skip(1), ExportScan { selectors: s.selectors.push(a), ..s })
        }
    }
}

pub open spec fn export_choice(args: Seq<Seq<char>>) -> Result<(Seq<Seq<char>>, Seq<char>, Seq<char>), (nat, Seq<char>)> {
    match scan_export(args, ExportScan { selectors: seq![], format: None, output: None }) {
        Err(e) => Err(e),
        Ok(s) => if s.selectors.len() == 0 {
            Err(usage("export requires at least one RUN name or ID"@))
        } else {
            match (s.format, s.output) {
                (None, _) => Err(usage("export requires --format csv|json"@)),
                (Some(_), None) => Err(usage("export requires --output PATH"@)),
                (Some(f), Some(o)) => Ok((s.selectors, f, o)),
            }
        },
    }
}

pub fn parse_export_args(args: &[String]) -> (r: Result<ExportRequest, CliError>)
    ensures
        match r {
            Ok(x) => export_choice(texts(args@)) == Ok::<(Seq<Seq<char>>, Seq<char>, Seq<char>), (nat, Seq<char>)>((texts(x.selectors@), x.format@, x.output@)),
            Err(e) => export_choice(texts(args@)) == Err::<(Seq<Seq<char>>, Seq<char>, Seq<char>), (nat, Seq<char>)>(cli_error_view(e)),
        },
{
    let ghost all = texts(args@);
    let ghost init = ExportScan { selectors: seq![], format: None, output: None };
    let mut selectors: Vec<String> = Vec::new();
    let mut format: Option<String> = None;
    let mut output: Option<String> = None;
    let mut index: usize = 0;
    assert(all.skip(0) =~= all);
    assert(texts(selectors@) =~= Seq::<Seq<char>>::empty());
    while index < args.len()
        invariant
            all == texts(args@),
            init == (ExportScan { selectors: seq![], format: None, output: None }),
            index <= args@.len(),
            scan_export(all, init) == scan_export(
                all.skip(index as int),
                ExportScan { selectors: texts(selectors@), format: opt_text(format), output: opt_text(output) },
            ),
        decreases args@.len() - index,
    {
        let ghost suffix = all.skip(index as int);
        assert(suffix[0] == args@[index as int]@);
        let a = args[index].as_str();
        let ac = to_chars(a);
        if same_text(a, "--format") || same_text(a, "--output") {
            let ghost at = index;
            match argument_value(args, &mut index, a) {
                Err(e) => {
                    return Err(e);
                },
                Ok(v) => {
                    assert(suffix[1] == args@[at + 1]@);
                    assert(suffix.skip(2) =~= all.skip(index as int));
                    if same_text(a, "--format") {
                        format = Some(v);
                    } else {
                        output = Some(v);
                    }
                },
            }
        } else if ac.len() > 0 && ac[0] == '-' {
            return Err(CliError::Usage(concat3("unknown export option '", a, "'")));
        } else {
            assert(suffix.skip(1) =~= all.skip(index + 1));
            let ghost before = texts(selectors@);
            selectors.push(copy_string(a));
            assert(texts(selectors@) =~= before.push(a@));
            index = index + 1;
        }
    }
    assert(all.skip(index as int) =~= Seq::<Seq<char>>::empty());
    if selectors.len() == 0 {
        return Err(CliError::Usage(copy_string("export requires at least one RUN name or ID")));
    }
    match (format, output) {
        (None, _) => Err(CliError::Usage(copy_string("export requires --format csv|json"))),
        (Some(_), None) => Err(CliError::Usage(copy_string("export requires --output PATH"))),
        (Some(f), Some(o)) => Ok(ExportRequest { selectors, format: f, output: o }),
    }
}

/// An export file format.
#[derive(Debug, Clone, Copy, PartialEq, Eq, Structural)]
pub enum ExportFormat {
    Csv,
    Json,
}

pub open spec fn format_choice(format: Seq<char>) -> Result<ExportFormat, (nat, Seq<char>)> {
    if format == "csv"@ {
        Ok(ExportFormat::Csv)
    } else if format == "json"@ {
        Ok(ExportFormat::Json)
    } else {
        Err(usage("unsupported export format '"@ + format + "'; use csv or json"@))
    }
}

pub fn export_format(format: &str) -> (r: Result<ExportFormat, CliError>)
    ensures
        match r {
            Ok(f) => format_choice(format@) == Ok::<ExportFormat, (nat, Seq<char>)>(f),
            Err(e) => format_choice(format@) == Err::<ExportFormat, (nat, Seq<char>)>(cli_error_view(e)),
        },
{
    if same_text(format, "csv") {
        Ok(ExportFormat::Csv)
    } else if same_text(format, "json") {
        Ok(ExportFormat::Json)
    } else {
        Err(CliError::Usage(concat3("unsupported export format '", format, "'; use csv or json")))
    }
}

proof fn lemma_concat_without_slash(a: Seq<char>, b: Seq<char>)
    requires
        !a.contains('/'),
        !b.contains('/'),
    ensures
        !(a + b).contains('/'),
{
    assert forall|i: int| 0 <= i < (a + b).len() implies (a + b)[i] != '/' by {
        if i < a.len() {
            assert((a + b)[i] == a[i]);
        } else {
            assert((a + b)[i] == b[i - a.len()]);
        }
    }
}

/// Where the run metadata of a CSV export goes: the output path with
/// `<extension>.metadata.json` as its extension (`csv` when it has none).
pub fn metadata_path(output: &str) -> (r: String)
    ensures
        r@ == path_with_extension(
            output@,
            match path_extension(output@) {
                Some(e) => e,
                None => "csv"@,
            } + ".metadata.json"@,
        ),
{
    let ext = match extension(output) {
        Some(e) => e,
        None => copy_string("csv"),
    };
    let full = concat2(ext.as_str(), ".metadata.json");
    proof {
        reveal_strlit("csv");
        reveal_strlit(".metadata.json");
        lemma_concat_without_slash(ext@, ".metadata.json"@);
    }
    with_extension(output, full.as_str())
}

/// Where an export is written before it replaces `path`: the extension
/// followed by `.tmp`.
pub fn temp_output_path(path: &str) -> (r: String)
    ensures
        r@ == path_with_extension(
            path@,
            match path_extension(path@) {
                Some(e) => e,
                None => seq![],
            } + ".tmp"@,
        ),
{
    let full = match extension(path) {
        Some(e) => concat2(e.as_str(), ".tmp"),
        None => copy_string(".tmp"),
    };
    proof {
        reveal_strlit(".tmp");
        assert(Seq::<char>::empty() + ".tmp"@ =~= ".tmp"@);
        if let Some(e) = path_extension(path@) {
            lemma_concat_without_slash(e, ".tmp"@);
        }
    }
    with_extension(path, full.as_str())
}

} // verus!
