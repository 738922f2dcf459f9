//! The options of the command line.
//!
//! - `--dont-exit-on-errors`, `-e`: report a failure and go on;
//! - `--allow-caps-types`, `-c`: match commit types without regard to case;
//! - `--types RULES`, `-t RULES`: replace the default rules by `RULES`, in
//!   the one-line form that [`crate::config`] reads.

use vstd::prelude::*;
use crate::config::{parse_commit_types, rules_of};
use crate::rules::{default_commit_types, default_rules, CommitMessage, Rule};

verus! {

/// Why the arguments are no options.
#[derive(Clone, Copy, Debug, PartialEq, Eq)]
pub enum OptionsError {
    /// `--types` or `-t` is the last argument: the rules are missing.
    MissingTypes,
}

impl OptionsError {
    /// What the error says.
    pub open spec fn text(self) -> Seq<char> {
        match self {
            OptionsError::MissingTypes => "Missing argument for types"@,
        }
    }

    /// The error in words.
    pub fn message(&self) -> (text: String)
        ensures
            text@ == self.text(),
    {
        match self {
            OptionsError::MissingTypes => "Missing argument for types".to_owned(),
        }
    }
}

/// The options as values: the two switches, and the rules.
pub struct Options {
    pub dont_exit_on_errors: bool,
    pub allow_caps_types: bool,
    pub rules: Seq<Rule>,
}

/// The options with the given values.
pub open spec fn options(dont_exit_on_errors: bool, allow_caps_types: bool, rules: Seq<Rule>) -> Options {
    Options { dont_exit_on_errors, allow_caps_types, rules }
}

/// The options where no argument sets any: both switches off, the default
/// rules.
pub open spec fn defaults() -> Options {
    options(false, false, default_rules())
}

/// `o` after the argument at `i`. A switch is set by its name. `--types`
/// takes the rules from the argument after it, and fails where there is
/// none. Any other argument changes nothing: so the argument after
/// `--types` is read as rules first, and then as an argument of its own.
pub open spec fn option_at(args: Seq<Seq<char>>, i: int, o: Options) -> Result<
    Options,
    OptionsError,
> {
    let arg = args[i];
    if arg == "--dont-exit-on-errors"@ || arg == "-e"@ {
        Ok(Options { dont_exit_on_errors: true, ..o })
    } else if arg == "--allow-caps-types"@ || arg == "-c"@ {
        Ok(Options { allow_caps_types: true, ..o })
    } else if arg == "--types"@ || arg == "-t"@ {
        if i + 1 < args.len() {
            Ok(Options { rules: rules_of(args[i + 1]), ..o })
        } else {
            Err(OptionsError::MissingTypes)
        }
    } else {
        Ok(o)
    }
}

/// The options after the first `n` arguments, read from left to right, or
/// the error that the first offending one of them raised.
pub open spec fn options_after(args: Seq<Seq<char>>, n: nat) -> Result<Options, OptionsError>
    decreases n,
{
    if n == 0 {
        Ok(defaults())
    } else {
        match options_after(args, (n - 1) as nat) {
            Ok(o) => option_at(args, n - 1, o),
            Err(e) => Err(e),
        }
    }
}

/// The options that `args` set.
pub open spec fn options_of(args: Seq<Seq<char>>) -> Result<Options, OptionsError> {
    options_after(args, args.len())
}

/// Whether `arg` is the word `name`.
fn is_word(arg: &String, name: &str) -> (same: bool)
    ensures
        same == (arg@ == name@),
{
    *arg == name.to_owned()
}

/// Reads the options from the arguments of the command line, the program's
/// name among them.
///
/// Returns whether to go on after an error, whether commit types are matched
/// without regard to case, and the rules: those that the last `--types` or
/// `-t` gave, or the default rules.
pub fn parse_args(args: Vec<String>) -> (r: Result<(bool, bool, Vec<CommitMessage>), OptionsError>)
    ensures
        match r {
            Ok(o) => options_of(args.deep_view()) == Ok::<Options, OptionsError>(
                options(o.0, o.1, o.2.deep_view()),
            ),
            Err(e) => options_of(args.deep_view()) == Err::<Options, OptionsError>(e),
        },
{
    let mut dont_exit_on_errors = false;
    let mut allow_caps_types = false;
    let mut commit_types = default_commit_types();
    let ghost all = args.deep_view();
    let mut i: usize = 0;
    while i < args.len()
        invariant
            i <= args.len(),
            all == args.deep_view(),
            options_after(all, i as nat) == Ok::<Options, OptionsError>(
                options(dont_exit_on_errors, allow_caps_types, commit_types.deep_view()),
            ),
        decreases args.len() - i,
    {
        assert(all[i as int] == args[i as int]@);
        if is_word(&args[i], "--dont-exit-on-errors") || is_word(&args[i], "-e") {
            dont_exit_on_errors = true;
        } else if is_word(&args[i], "--allow-caps-types") || is_word(&args[i], "-c") {
            allow_caps_types = true;
        } else if is_word(&args[i], "--types") || is_word(&args[i], "-t") {
            if i + 1 < args.len() {
                assert(all[i + 1] == args[i + 1]@);
                commit_types = parse_commit_types(args[i + 1].clone());
            } else {
                proof {
                    lemma_options_error_stays(all, (i + 1) as nat, all.len());
                }
                return Err(OptionsError::MissingTypes);
            }
        }
        i = i + 1;
    }
    Ok((dont_exit_on_errors, allow_caps_types, commit_types))
}

/// Once an argument has failed, the arguments after it change nothing.
pub proof fn lemma_options_error_stays(args: Seq<Seq<char>>, n: nat, m: nat)
    requires
        n <= m,
        options_after(args, n) is Err,
    ensures
        options_after(args, m) == options_after(args, n),
    decreases m,
{
    if n < m {
        lemma_options_error_stays(args, n, (m - 1) as nat);
    }
}

} // verus!
