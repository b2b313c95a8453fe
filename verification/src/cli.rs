use vstd::prelude::*;

use crate::config::{Config, EmitMode, Verbosity};
use crate::style::str_eq;
use crate::text::{chars_of, string_of};

verus! {

/// Errors of formatting a text.
pub enum FormattingError {
    ParseContentError(String),
    FmtError(String),
}

impl FormattingError {
    /// The message of the error: its text.
    pub fn message(&self) -> (r: String)
        ensures
            r@ == match self {
                FormattingError::ParseContentError(s) => s@,
                FormattingError::FmtError(s) => s@,
            },
    {
        let mut r = String::new();
        match self {
            FormattingError::ParseContentError(s) => r.append(s.as_str()),
            FormattingError::FmtError(s) => r.append(s.as_str()),
        }
        assert(r@ =~= match self {
            FormattingError::ParseContentError(s) => s@,
            FormattingError::FmtError(s) => s@,
        });
        r
    }
}

/// Errors in the command line.
#[derive(Debug, PartialEq, Eq)]
pub enum CliError {
    /// `--emit` was given something else than one of its four values.
    InvalidEmit,
    /// Both `--verbose` and `--quiet` were given.
    VerboseAndQuiet,
    /// A `--config` entry is not of the form `key=val`.
    NotKeyVal(String),
}

/// The emit mode that `--emit` names.
pub open spec fn spec_emit_mode(s: Seq<char>) -> Option<EmitMode> {
    if s == "overwrite"@ {
        Some(EmitMode::Overwrite)
    } else if s == "new_file"@ {
        Some(EmitMode::NewFile)
    } else if s == "stdout"@ {
        Some(EmitMode::Stdout)
    } else if s == "diff"@ {
        Some(EmitMode::Diff)
    } else {
        None
    }
}

/// Reads the value of `--emit`.
pub fn emit_mode_from_emit_str(emit_str: &str) -> (r: Result<EmitMode, CliError>)
    ensures
        match spec_emit_mode(emit_str@) {
            Some(m) => r == Ok::<EmitMode, CliError>(m),
            None => r == Err::<EmitMode, CliError>(CliError::InvalidEmit),
        },
{
    if str_eq(emit_str, "overwrite") {
        Ok(EmitMode::Overwrite)
    } else if str_eq(emit_str, "new_file") {
        Ok(EmitMode::NewFile)
    } else if str_eq(emit_str, "stdout") {
        Ok(EmitMode::Stdout)
    } else if str_eq(emit_str, "diff") {
        Ok(EmitMode::Diff)
    } else {
        Err(CliError::InvalidEmit)
    }
}

/// Checks that `--verbose` and `--quiet` are not both given.
pub fn check_verbosity_flags(verbose: bool, quiet: bool) -> (r: Result<(), CliError>)
    ensures
        r is Err <==> verbose && quiet,
        r matches Err(e) ==> e == CliError::VerboseAndQuiet,
{
    if verbose && quiet {
        Err(CliError::VerboseAndQuiet)
    } else {
        Ok(())
    }
}

/// Applies the command line options to a configuration: verbosity (verbose wins over quiet)
/// and emit mode.
pub fn apply_options(verbose: Option<bool>, quiet: Option<bool>, emit_mode: Option<EmitMode>, config: &mut Config)
    ensures
        final(config).verbose == if verbose == Some(true) {
            Verbosity::Verbose
        } else if quiet == Some(true) {
            Verbosity::Quiet
        } else {
            old(config).verbose
        },
        final(config).emit_mode == match emit_mode {
            Some(m) => m,
            None => old(config).emit_mode,
        },
        final(config).max_width == old(config).max_width,
        final(config).hard_tabs == old(config).hard_tabs,
        final(config).tab_spaces == old(config).tab_spaces,
        final(config).wrap_comments == old(config).wrap_comments,
        final(config).comment_width == old(config).comment_width,
        final(config).normalize_comments == old(config).normalize_comments,
{
    if verbose.is_some() && verbose.unwrap() {
        config.verbose = Verbosity::Verbose;
    } else if quiet.is_some() && quiet.unwrap() {
        config.verbose = Verbosity::Quiet;
    }
    if let Some(m) = emit_mode {
        config.emit_mode = m;
    }
}

/// The position of the first `c` in `s` at or after `a`, or the length of `s`.
pub open spec fn first_of(s: Seq<char>, c: char, a: nat) -> nat
    decreases s.len() - a,
{
    if a >= s.len() {
        s.len() as nat
    } else if s[a as int] == c {
        a
    } else {
        first_of(s, c, a + 1)
    }
}

pub proof fn lemma_first_of(s: Seq<char>, c: char, a: nat)
    requires
        a <= s.len(),
    ensures
        a <= first_of(s, c, a) <= s.len(),
        first_of(s, c, a) < s.len() ==> s[first_of(s, c, a) as int] == c,
        forall|j: int| a <= j < first_of(s, c, a) ==> s[j] != c,
    decreases s.len() - a,
{
    if a < s.len() && s[a as int] != c {
        lemma_first_of(s, c, a + 1);
    }
}

/// The pieces of `s[a..]` between commas, as `str::split(',')` gives them (an empty text gives
/// one empty piece).
pub open spec fn comma_pieces(s: Seq<char>, a: nat) -> Seq<Seq<char>>
    decreases s.len() - a,
{
    let e = first_of(s, ',', a);
    if e < s.len() && e >= a {
        seq![s.subrange(a as int, e as int)] + comma_pieces(s, e + 1)
    } else {
        seq![s.subrange(a as int, s.len() as int)]
    }
}

/// A `key=val` piece split at its first `=`.
pub open spec fn key_val(p: Seq<char>) -> Option<(Seq<char>, Seq<char>)> {
    let e = first_of(p, '=', 0);
    if e < p.len() {
        Some((p.take(e as int), p.skip(e + 1 as int)))
    } else {
        None
    }
}

/// The `key=val` pairs of the pieces `ps[i..]`, or the first piece that is not one.
pub open spec fn key_vals(ps: Seq<Seq<char>>, i: nat) -> Result<Seq<(Seq<char>, Seq<char>)>, Seq<char>>
    decreases ps.len() - i,
{
    if i >= ps.len() {
        Ok(Seq::empty())
    } else {
        match key_val(ps[i as int]) {
            None => Err(ps[i as int]),
            Some(kv) => match key_vals(ps, i + 1) {
                Ok(rest) => Ok(seq![kv] + rest),
                Err(p) => Err(p),
            },
        }
    }
}

/// The position of the first `c` in `v[a..to]`, or `to`.
pub fn find_char(v: &Vec<char>, c: char, a: usize, to: usize) -> (e: usize)
    requires
        a <= to <= v@.len(),
    ensures
        a <= e <= to,
        e < to ==> v@[e as int] == c,
        forall|j: int| a <= j < e ==> v@[j] != c,
{
    let mut e = a;
    while e < to && v[e] != c
        invariant
            a <= e <= to <= v@.len(),
            forall|j: int| a <= j < e ==> v@[j] != c,
        decreases to - e,
    {
        e = e + 1;
    }
    e
}

pub proof fn lemma_first_of_find(s: Seq<char>, c: char, a: nat, e: nat)
    requires
        a <= e <= s.len(),
        e < s.len() ==> s[e as int] == c,
        forall|j: int| a <= j < e ==> s[j] != c,
    ensures
        first_of(s, c, a) == e,
    decreases e - a,
{
    if a < e {
        lemma_first_of_find(s, c, a + 1, e);
    }
}

/// Splits one `--config` value, a comma-separated list of `key=val` pairs, into its pairs (each
/// split at its first `=`). Fails on the first piece without `=`.
pub fn split_key_vals(config: &str) -> (r: Result<Vec<(String, String)>, CliError>)
    ensures
        match key_vals(comma_pieces(config@, 0), 0) {
            Ok(kvs) => r matches Ok(v) && v@.len() == kvs.len() && forall|i: int|
                0 <= i < kvs.len() ==> (#[trigger] v@[i]).0@ == kvs[i].0 && v@[i].1@ == kvs[i].1,
            Err(p) => r matches Err(CliError::NotKeyVal(q)) && q@ == p,
        },
{
    let v = chars_of(config);
    let n = v.len();
    let ghost s = config@;
    let ghost target = key_vals(comma_pieces(s, 0), 0);
    let ghost mut done: Seq<(Seq<char>, Seq<char>)> = Seq::empty();
    let mut out: Vec<(String, String)> = Vec::new();
    let mut a: usize = 0;
    loop
        invariant
            s == config@,
            v@ == s,
            n == s.len(),
            a <= n,
            out@.len() == done.len(),
            forall|i: int|
                0 <= i < done.len() ==> (#[trigger] out@[i]).0@ == done[i].0 && out@[i].1@ == done[i].1,
            target == key_vals(comma_pieces(s, 0), 0),
            target == match key_vals(comma_pieces(s, a as nat), 0) {
                Ok(rest) => Ok(done + rest),
                Err(p) => Err::<Seq<(Seq<char>, Seq<char>)>, Seq<char>>(p),
            },
        decreases n + 1 - a,
    {
        let e = find_char(&v, ',', a, n);
        proof {
            lemma_first_of_find(s, ',', a as nat, e as nat);
        }
        let eq = find_char(&v, '=', a, e);
        let ghost piece = s.subrange(a as int, e as int);
        proof {
            lemma_first_of_find(piece, '=', 0, (eq - a) as nat);
            assert(comma_pieces(s, a as nat)[0] == piece);
        }
        if eq == e {
            proof {
                assert(key_val(piece) is None);
                let ps = comma_pieces(s, a as nat);
                assert(key_vals(ps, 0) == Err::<Seq<(Seq<char>, Seq<char>)>, Seq<char>>(piece));
            }
            return Err(CliError::NotKeyVal(string_of(&v, a, e)));
        }
        let key = string_of(&v, a, eq);
        let val = string_of(&v, eq + 1, e);
        proof {
            assert(piece.take(eq - a) =~= key@);
            assert(piece.skip(eq - a + 1) =~= val@);
            let ps = comma_pieces(s, a as nat);
            let rest_ps = if e < n { comma_pieces(s, (e + 1) as nat) } else { Seq::empty() };
            assert(ps =~= seq![piece] + rest_ps);
            assert(key_vals(ps, 0) == match key_vals(ps, 1) {
                Ok(rest) => Ok(seq![(key@, val@)] + rest),
                Err(p) => Err::<Seq<(Seq<char>, Seq<char>)>, Seq<char>>(p),
            });
            lemma_key_vals_shift(seq![piece], rest_ps);
            let old_done = done;
            done = done.push((key@, val@));
            if let Ok(r2) = key_vals(rest_ps, 0) {
                assert(old_done + (seq![(key@, val@)] + r2) =~= done + r2);
            }
        }
        let ghost out_before = out@;
        out.push((key, val));
        proof {
            assert forall|i: int| 0 <= i < done.len() implies (#[trigger] out@[i]).0@ == done[i].0
                && out@[i].1@ == done[i].1 by {
                if i < done.len() - 1 {
                    assert(out@[i] == out_before[i]);
                }
            }
        }
        if e >= n {
            proof {
                assert(key_vals(Seq::<Seq<char>>::empty(), 0) == Ok::<Seq<(Seq<char>, Seq<char>)>, Seq<char>>(Seq::empty()));
                assert(done + Seq::<(Seq<char>, Seq<char>)>::empty() =~= done);
            }
            return Ok(out);
        }
        a = e + 1;
    }
}

/// The pairs of `first + rest` from the first piece of `rest` on are the pairs of `rest`.
pub proof fn lemma_key_vals_shift(first: Seq<Seq<char>>, rest: Seq<Seq<char>>)
    requires
        first.len() == 1,
    ensures
        key_vals(first + rest, 1) == key_vals(rest, 0),
{
    assert((first + rest).skip(1) =~= rest);
    lemma_key_vals_offset(first + rest, rest, 1);
}

proof fn lemma_key_vals_offset(ps: Seq<Seq<char>>, rest: Seq<Seq<char>>, k: nat)
    requires
        k <= ps.len(),
        ps.skip(k as int) == rest,
    ensures
        key_vals(ps, k) == key_vals(rest, 0),
{
    lemma_key_vals_offset_from(ps, rest, k, 0);
}

proof fn lemma_key_vals_offset_from(ps: Seq<Seq<char>>, rest: Seq<Seq<char>>, k: nat, i: nat)
    requires
        k <= ps.len(),
        ps.skip(k as int) == rest,
    ensures
        key_vals(ps, k + i) == key_vals(rest, i),
    decreases rest.len() - i,
{
    if i < rest.len() {
        assert(ps[k + i as int] == rest[i as int]);
        lemma_key_vals_offset_from(ps, rest, k, i + 1);
    }
}

/// Whether a file name is that of a Move source the formatter works on: it ends with `.move`
/// and is not an output of the formatter (`.fmt`) or of a test (`.out`).
pub open spec fn spec_is_move_source_name(name: Seq<char>) -> bool {
    &&& crate::text::has_suffix(name, ".move"@)
    &&& !crate::string_fmt::contains_seq(name, ".fmt"@)
    &&& !crate::string_fmt::contains_seq(name, ".out"@)
}

pub fn is_move_source_name(name: &str) -> (b: bool)
    ensures
        b == spec_is_move_source_name(name@),
{
    let v = chars_of(name);
    let n = v.len();
    proof {
        reveal_strlit(".move");
    }
    let ends = n >= 5 && crate::text::starts_with_at(&v, n - 5, ".move");
    proof {
        if n >= 5 {
            assert(v@.subrange(n - 5, n as int) =~= v@.subrange(n - 5, n - 5 + ".move"@.len()));
        }
    }
    ends && !crate::string_fmt::contains_str(&v, ".fmt") && !crate::string_fmt::contains_str(&v, ".out")
}

/// Which help was asked for.
#[derive(Debug, PartialEq, Eq)]
pub enum HelpOp {
    NoTopic,
    Config,
}

/// What the command line asks the formatter to do.
#[derive(Debug, PartialEq, Eq)]
pub enum Operation {
    /// Format the files given on the command line (or found from it).
    Format,
    /// Print the help message.
    Help(HelpOp),
    /// Print version information.
    Version,
    /// Output the default configuration to a file, or to stdout if there is no path.
    ConfigOutputDefault { path: Option<String> },
    /// Output the configuration in force for a path.
    ConfigOutputCurrent { path: Option<String> },
    /// Read the code from stdin.
    Stdin,
}

/// Errors in choosing the operation.
#[derive(Debug, PartialEq, Eq)]
pub enum OperationError {
    /// An unknown help topic was requested.
    UnknownHelpTopic(String),
    /// An unknown print-config option was requested.
    UnknownPrintConfigTopic(String),
}

pub open spec fn topic_is_config(t: Option<&str>) -> bool {
    match t {
        Some(x) => x@ == "config"@,
        None => false,
    }
}

pub open spec fn opt_string_view(o: Option<String>) -> Option<Seq<char>> {
    match o {
        Some(x) => Some(x@),
        None => None,
    }
}

pub open spec fn opt_str_view(o: Option<&str>) -> Option<Seq<char>> {
    match o {
        Some(x) => Some(x@),
        None => None,
    }
}

/// Chooses the operation from the options given: help (with no topic or the `config` topic),
/// then `--print-config` (whose kind must be `default` or `current`; the path is the first
/// free argument), then version, then stdin, and formatting otherwise.
pub fn determine_operation(
    help: bool,
    help_topic: Option<&str>,
    print_config: Option<&str>,
    first_free: Option<&str>,
    version: bool,
    stdin: bool,
) -> (r: Result<Operation, OperationError>)
    ensures
        help && help_topic is None ==> r == Ok::<Operation, OperationError>(
            Operation::Help(HelpOp::NoTopic),
        ),
        help && topic_is_config(help_topic) ==> r == Ok::<
            Operation,
            OperationError,
        >(Operation::Help(HelpOp::Config)),
        !(help && (help_topic is None || topic_is_config(help_topic))) ==> {
            match print_config {
                Some(kind) => if kind@ == "default"@ {
                    r matches Ok(Operation::ConfigOutputDefault { path }) && opt_string_view(path)
                        == opt_str_view(first_free)
                } else if kind@ == "current"@ {
                    r matches Ok(Operation::ConfigOutputCurrent { path }) && opt_string_view(path)
                        == opt_str_view(first_free)
                } else {
                    r matches Err(OperationError::UnknownPrintConfigTopic(k)) && k@ == kind@
                },
                None => r == if version {
                    Ok::<Operation, OperationError>(Operation::Version)
                } else if stdin {
                    Ok::<Operation, OperationError>(Operation::Stdin)
                } else {
                    Ok::<Operation, OperationError>(Operation::Format)
                },
            }
        },
{
    if help {
        match help_topic {
            None => {
                return Ok(Operation::Help(HelpOp::NoTopic));
            },
            Some(t) => {
                if str_eq(t, "config") {
                    return Ok(Operation::Help(HelpOp::Config));
                }
            },
        }
    }
    let path = match first_free {
        Some(p) => Some(p.to_string()),
        None => None,
    };
    if let Some(kind) = print_config {
        if str_eq(kind, "default") {
            return Ok(Operation::ConfigOutputDefault { path });
        } else if str_eq(kind, "current") {
            return Ok(Operation::ConfigOutputCurrent { path });
        } else {
            return Err(OperationError::UnknownPrintConfigTopic(kind.to_string()));
        }
    }
    if version {
        return Ok(Operation::Version);
    }
    if stdin {
        Ok(Operation::Stdin)
    } else {
        Ok(Operation::Format)
    }
}

} // verus!
