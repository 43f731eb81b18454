//! Reading the command line: which switches were given, which argument names
//! the environment, which argument is a switch that is not known.

use crate::text::{chars_of, eq_text};
use vstd::prelude::*;

verus! {

/// A switch of the command line.
#[derive(Clone, Copy, Debug, PartialEq, Eq, Structural)]
pub enum Flag {
    Help,
    Verbose,
    Scan,
    Clean,
    NoColor,
}

/// What the command line asks for.
#[derive(Clone, Debug, PartialEq, Eq)]
pub struct Options {
    pub help: bool,
    pub verbose: bool,
    pub scan: bool,
    pub clean: bool,
    pub no_color: bool,
    /// The first argument that is no switch.
    pub env_name: Option<String>,
    /// The first argument that begins with `-` and is no known switch.
    pub unknown_flag: Option<String>,
}

/// The mathematical value of [`Options`].
pub struct OptionsView {
    pub help: bool,
    pub verbose: bool,
    pub scan: bool,
    pub clean: bool,
    pub no_color: bool,
    pub env_name: Option<Seq<char>>,
    pub unknown_flag: Option<Seq<char>>,
}

impl View for Options {
    type V = OptionsView;

    open spec fn view(&self) -> OptionsView {
        OptionsView {
            help: self.help,
            verbose: self.verbose,
            scan: self.scan,
            clean: self.clean,
            no_color: self.no_color,
            env_name: self.env_name.deep_view(),
            unknown_flag: self.unknown_flag.deep_view(),
        }
    }
}

/// The switch that an argument is a spelling of, if it is one.
pub open spec fn flag_named(arg: Seq<char>) -> Option<Flag> {
    if arg == "-h"@ || arg == "--help"@ || arg == "/?"@ {
        Some(Flag::Help)
    } else if arg == "-v"@ || arg == "--verbose"@ {
        Some(Flag::Verbose)
    } else if arg == "-s"@ || arg == "--scan"@ {
        Some(Flag::Scan)
    } else if arg == "-c"@ || arg == "--clean"@ {
        Some(Flag::Clean)
    } else if arg == "--no-color"@ {
        Some(Flag::NoColor)
    } else {
        None
    }
}

/// The argument begins with `-`.
pub open spec fn dashed(arg: Seq<char>) -> bool {
    arg.len() > 0 && arg[0] == '-'
}

/// The argument looks like a switch and is none that is known.
pub open spec fn is_unknown(arg: Seq<char>) -> bool {
    flag_named(arg) is None && dashed(arg)
}

/// The argument is no switch at all: it may name an environment.
pub open spec fn is_name(arg: Seq<char>) -> bool {
    flag_named(arg) is None && !dashed(arg)
}

/// `flag` is spelled by an argument after the program's name and before
/// index `end`.
pub open spec fn given_before(args: Seq<Seq<char>>, flag: Flag, end: int) -> bool {
    exists|i: int| 1 <= i < end && i < args.len() && flag_named(#[trigger] args[i]) == Some(flag)
}

/// `flag` is spelled by an argument after the program's name.
pub open spec fn given(args: Seq<Seq<char>>, flag: Flag) -> bool {
    given_before(args, flag, args.len() as int)
}

/// The first argument at or after index `from` that is wanted.
pub open spec fn first_where(
    args: Seq<Seq<char>>,
    wanted: spec_fn(Seq<char>) -> bool,
    from: nat,
) -> Option<Seq<char>>
    decreases args.len() - from,
{
    if from >= args.len() {
        None
    } else if wanted(args[from as int]) {
        Some(args[from as int])
    } else {
        first_where(args, wanted, from + 1)
    }
}

/// What a command line asks for. Its first argument is the program's name
/// and is not looked at.
pub open spec fn parsed(args: Seq<Seq<char>>) -> OptionsView {
    OptionsView {
        help: given(args, Flag::Help),
        verbose: given(args, Flag::Verbose),
        scan: given(args, Flag::Scan),
        clean: given(args, Flag::Clean),
        no_color: given(args, Flag::NoColor),
        env_name: first_where(args, |a: Seq<char>| is_name(a), 1),
        unknown_flag: first_where(args, |a: Seq<char>| is_unknown(a), 1),
    }
}

/// The switch that `arg` is a spelling of.
pub fn flag_of(arg: &str) -> (r: Option<Flag>)
    ensures
        r == flag_named(arg@),
{
    if eq_text(arg, "-h") || eq_text(arg, "--help") || eq_text(arg, "/?") {
        Some(Flag::Help)
    } else if eq_text(arg, "-v") || eq_text(arg, "--verbose") {
        Some(Flag::Verbose)
    } else if eq_text(arg, "-s") || eq_text(arg, "--scan") {
        Some(Flag::Scan)
    } else if eq_text(arg, "-c") || eq_text(arg, "--clean") {
        Some(Flag::Clean)
    } else if eq_text(arg, "--no-color") {
        Some(Flag::NoColor)
    } else {
        None
    }
}

/// Whether `arg` begins with `-`.
pub fn is_dashed(arg: &str) -> (r: bool)
    ensures
        r == dashed(arg@),
{
    let v = chars_of(arg);
    v.len() > 0 && v[0] == '-'
}

/// One more argument is looked at: the switch is given before `end + 1`
/// exactly if it was given before `end` or the argument at `end` spells it.
proof fn lemma_given_grows(args: Seq<Seq<char>>, flag: Flag, end: int)
    requires
        1 <= end < args.len(),
    ensures
        given_before(args, flag, end + 1) == (given_before(args, flag, end) || flag_named(
            args[end],
        ) == Some(flag)),
{
    if given_before(args, flag, end + 1) {
        let i = choose|i: int|
            1 <= i < end + 1 && i < args.len() && flag_named(#[trigger] args[i]) == Some(flag);
        if i < end {
            assert(given_before(args, flag, end));
        }
    }
    if given_before(args, flag, end) {
        let i = choose|i: int|
            1 <= i < end && i < args.len() && flag_named(#[trigger] args[i]) == Some(flag);
        assert(1 <= i < end + 1 && flag_named(args[i]) == Some(flag));
    }
    if flag_named(args[end]) == Some(flag) {
        assert(given_before(args, flag, end + 1));
    }
}

/// Reads the command line `args`, whose first entry is the program's name.
pub fn parse_args(args: &Vec<String>) -> (r: Options)
    ensures
        r@ == parsed(args.deep_view()),
{
    let mut options = Options {
        help: false,
        verbose: false,
        scan: false,
        clean: false,
        no_color: false,
        env_name: None,
        unknown_flag: None,
    };
    let ghost all = args.deep_view();
    let ghost names = |a: Seq<char>| is_name(a);
    let ghost unknowns = |a: Seq<char>| is_unknown(a);
    if args.len() <= 1 {
        return options;
    }
    let mut i: usize = 1;
    while i < args.len()
        invariant
            1 <= i <= args.len(),
            all == args.deep_view(),
            names == |a: Seq<char>| is_name(a),
            unknowns == |a: Seq<char>| is_unknown(a),
            options.help == given_before(all, Flag::Help, i as int),
            options.verbose == given_before(all, Flag::Verbose, i as int),
            options.scan == given_before(all, Flag::Scan, i as int),
            options.clean == given_before(all, Flag::Clean, i as int),
            options.no_color == given_before(all, Flag::NoColor, i as int),
            first_where(all, names, 1) == (if options.env_name is Some {
                options.env_name.deep_view()
            } else {
                first_where(all, names, i as nat)
            }),
            first_where(all, unknowns, 1) == (if options.unknown_flag is Some {
                options.unknown_flag.deep_view()
            } else {
                first_where(all, unknowns, i as nat)
            }),
        decreases args.len() - i,
    {
        let arg = args[i].as_str();
        proof {
            assert(all[i as int] == arg@);
            lemma_given_grows(all, Flag::Help, i as int);
            lemma_given_grows(all, Flag::Verbose, i as int);
            lemma_given_grows(all, Flag::Scan, i as int);
            lemma_given_grows(all, Flag::Clean, i as int);
            lemma_given_grows(all, Flag::NoColor, i as int);
        }
        match flag_of(arg) {
            Some(Flag::Help) => {
                options.help = true;
            },
            Some(Flag::Verbose) => {
                options.verbose = true;
            },
            Some(Flag::Scan) => {
                options.scan = true;
            },
            Some(Flag::Clean) => {
                options.clean = true;
            },
            Some(Flag::NoColor) => {
                options.no_color = true;
            },
            None => {
                if is_dashed(arg) {
                    if options.unknown_flag.is_none() {
                        options.unknown_flag = Some(args[i].clone());
                    }
                } else if options.env_name.is_none() {
                    options.env_name = Some(args[i].clone());
                }
            },
        }
        i += 1;
    }
    options
}

} // verus!
