//! The run configuration: how many words to draw, how many of them to
//! capitalize, and how many digit and symbol tokens to insert.

use vstd::prelude::*;

use crate::text::{is_usize_literal, parse_usize, str_equal, usize_literal_value, views_of};

verus! {

/// A validated configuration. `caps <= words` holds for every configuration
/// produced by [`Config::build`] or [`Config::new`].
#[derive(Clone, Copy, Debug, PartialEq, Eq, Structural)]
pub struct Config {
    /// Number of dictionary words drawn.
    pub words: usize,
    /// Number of distinct word positions capitalized.
    pub caps: usize,
    /// Number of digit tokens inserted.
    pub nums: usize,
    /// Number of symbol tokens inserted.
    pub syms: usize,
    /// Print usage text instead of generating a passphrase.
    pub help: bool,
    /// Print the resolved configuration before generating.
    pub debug: bool,
}

/// Clamp the capitalization count down to the word count, leaving every
/// other field as given.
pub open spec fn spec_resolve(
    words: usize,
    caps: usize,
    nums: usize,
    syms: usize,
    help: bool,
    debug: bool,
) -> Config {
    Config {
        words,
        caps: if caps <= words {
            caps
        } else {
            words
        },
        nums,
        syms,
        help,
        debug,
    }
}

impl Config {
    /// The configuration invariant: no more capitalizations than words.
    pub open spec fn wf(self) -> bool {
        self.caps <= self.words
    }

    /// Construct a configuration directly from counts, clamping `caps`
    /// down to `words`.
    pub fn build(
        words: usize,
        caps: usize,
        nums: usize,
        syms: usize,
        help: bool,
        debug: bool,
    ) -> (r: Config)
        ensures
            r == spec_resolve(words, caps, nums, syms, help, debug),
            r.wf(),
    {
        let capped: usize = if caps <= words {
            caps
        } else {
            words
        };
        Config { words, caps: capped, nums, syms, help, debug }
    }
}

/// A capitalization count above the word count resolves to exactly the
/// configuration obtained by asking for one capitalization per word: the
/// clamp is idempotent.
pub proof fn lemma_clamp_idempotent(
    words: usize,
    caps: usize,
    nums: usize,
    syms: usize,
    help: bool,
    debug: bool,
)
    requires
        caps > words,
    ensures
        spec_resolve(words, caps, nums, syms, help, debug) == spec_resolve(
            words,
            words,
            nums,
            syms,
            help,
            debug,
        ),
{
}

/// The flags that take one integer argument.
#[derive(Clone, Copy, Debug, PartialEq, Eq, Structural)]
pub enum Flag {
    /// `-w` / `--words`.
    Words,
    /// `-c` / `--caps`.
    Caps,
    /// `-n` / `--numbers`.
    Numbers,
    /// `-s` / `--symbols`.
    Symbols,
}

/// Why the arguments could not be parsed.
#[derive(Debug, PartialEq, Eq)]
pub enum ArgError {
    /// The flag's argument is not a valid non-negative integer.
    InvalidParameter(Flag),
    /// The flag is last on the line, with no argument after it.
    NoParameter(Flag),
    /// An argument that is no known flag.
    UnknownArgument { arg: String },
}

/// A parse failure as the specification describes it, the offending unknown
/// argument given by its characters.
pub enum ArgIssue {
    /// The flag's argument is not a valid non-negative integer.
    InvalidParameter(Flag),
    /// The flag is last on the line, with no argument after it.
    NoParameter(Flag),
    /// An argument that is no known flag.
    UnknownArgument { arg: Seq<char> },
}

impl ArgError {
    /// The failure this error reports.
    pub open spec fn issue(self) -> ArgIssue {
        match self {
            ArgError::InvalidParameter(f) => ArgIssue::InvalidParameter(f),
            ArgError::NoParameter(f) => ArgIssue::NoParameter(f),
            ArgError::UnknownArgument { arg } => ArgIssue::UnknownArgument { arg: arg@ },
        }
    }

    /// The diagnostic for this error.
    pub open spec fn spec_message(self) -> Seq<char> {
        match self {
            ArgError::InvalidParameter(f) => match f {
                Flag::Words => "invalid parameter for option -w"@,
                Flag::Caps => "invalid parameter for option -c"@,
                Flag::Numbers => "invalid parameter for option -n"@,
                Flag::Symbols => "invalid parameter for option -s"@,
            },
            ArgError::NoParameter(f) => match f {
                Flag::Words => "no parameter for option -w"@,
                Flag::Caps => "no parameter for option -c"@,
                Flag::Numbers => "no parameter for option -n"@,
                Flag::Symbols => "no parameter for option -s"@,
            },
            ArgError::UnknownArgument { .. } => "invalid argument"@,
        }
    }

    /// A diagnostic line for this error, naming the offending flag.
    pub fn message(&self) -> (r: String)
        ensures
            r@ == self.spec_message(),
    {
        match self {
            ArgError::InvalidParameter(f) => match f {
                Flag::Words => "invalid parameter for option -w".to_owned(),
                Flag::Caps => "invalid parameter for option -c".to_owned(),
                Flag::Numbers => "invalid parameter for option -n".to_owned(),
                Flag::Symbols => "invalid parameter for option -s".to_owned(),
            },
            ArgError::NoParameter(f) => match f {
                Flag::Words => "no parameter for option -w".to_owned(),
                Flag::Caps => "no parameter for option -c".to_owned(),
                Flag::Numbers => "no parameter for option -n".to_owned(),
                Flag::Symbols => "no parameter for option -s".to_owned(),
            },
            ArgError::UnknownArgument { .. } => "invalid argument".to_owned(),
        }
    }
}

/// The configuration before any flag is read: four words, nothing else.
pub open spec fn default_config() -> Config {
    Config { words: 4, caps: 0, nums: 0, syms: 0, help: false, debug: false }
}

/// Parse the arguments from position `i` on, folding them into `acc`:
/// each value flag consumes the argument after it and overwrites its count,
/// and the final configuration is resolved by clamping the capitalization
/// count to the word count, so that flag order does not matter.
pub open spec fn parse_rest(args: Seq<Seq<char>>, i: int, acc: Config) -> Result<Config, ArgIssue>
    decreases args.len() - i,
{
    if i >= args.len() {
        Ok(spec_resolve(acc.words, acc.caps, acc.nums, acc.syms, acc.help, acc.debug))
    } else if args[i] == "-w"@ || args[i] == "--words"@ {
        if i + 1 < args.len() {
            if is_usize_literal(args[i + 1]) {
                parse_rest(
                    args,
                    i + 2,
                    Config { words: usize_literal_value(args[i + 1]) as usize, ..acc },
                )
            } else {
                Err(ArgIssue::InvalidParameter(Flag::Words))
            }
        } else {
            Err(ArgIssue::NoParameter(Flag::Words))
        }
    } else if args[i] == "-c"@ || args[i] == "--caps"@ {
        if i + 1 < args.len() {
            if is_usize_literal(args[i + 1]) {
                parse_rest(
                    args,
                    i + 2,
                    Config { caps: usize_literal_value(args[i + 1]) as usize, ..acc },
                )
            } else {
                Err(ArgIssue::InvalidParameter(Flag::Caps))
            }
        } else {
            Err(ArgIssue::NoParameter(Flag::Caps))
        }
    } else if args[i] == "-n"@ || args[i] == "--numbers"@ {
        if i + 1 < args.len() {
            if is_usize_literal(args[i + 1]) {
                parse_rest(
                    args,
                    i + 2,
                    Config { nums: usize_literal_value(args[i + 1]) as usize, ..acc },
                )
            } else {
                Err(ArgIssue::InvalidParameter(Flag::Numbers))
            }
        } else {
            Err(ArgIssue::NoParameter(Flag::Numbers))
        }
    } else if args[i] == "-s"@ || args[i] == "--symbols"@ {
        if i + 1 < args.len() {
            if is_usize_literal(args[i + 1]) {
                parse_rest(
                    args,
                    i + 2,
                    Config { syms: usize_literal_value(args[i + 1]) as usize, ..acc },
                )
            } else {
                Err(ArgIssue::InvalidParameter(Flag::Symbols))
            }
        } else {
            Err(ArgIssue::NoParameter(Flag::Symbols))
        }
    } else if args[i] == "-h"@ || args[i] == "--help"@ {
        parse_rest(args, i + 1, Config { help: true, ..acc })
    } else if args[i] == "-d"@ || args[i] == "--debug"@ {
        parse_rest(args, i + 1, Config { debug: true, ..acc })
    } else {
        Err(ArgIssue::UnknownArgument { arg: args[i] })
    }
}

/// The configuration the argument line resolves to, or the first failure.
/// The first argument is the program's own name and is skipped.
pub open spec fn spec_parse(args: Seq<Seq<char>>) -> Result<Config, ArgIssue> {
    parse_rest(args, 1, default_config())
}

impl Config {
    /// Parse a command line into a configuration. The first argument is the
    /// program's own name; every further argument must be one of the known
    /// flags or the integer argument of the flag before it.
    pub fn new(args: &Vec<String>) -> (r: Result<Config, ArgError>)
        ensures
            (r is Ok) == (spec_parse(views_of(args@)) is Ok),
            r matches Ok(c) ==> Ok::<Config, ArgIssue>(c) == spec_parse(views_of(args@)),
            r matches Ok(c) ==> c.wf(),
            r matches Err(e) ==> Err::<Config, ArgIssue>(e.issue()) == spec_parse(
                views_of(args@),
            ),
    {
        let ghost argv = views_of(args@);
        let mut words: usize = 4;
        let mut caps: usize = 0;
        let mut nums: usize = 0;
        let mut syms: usize = 0;
        let mut help = false;
        let mut debug = false;
        let n = args.len();
        let mut i: usize = 1;
        while i < n
            invariant
                1 <= i,
                n == args@.len(),
                argv == views_of(args@),
                spec_parse(argv) == parse_rest(
                    argv,
                    i as int,
                    Config { words, caps, nums, syms, help, debug },
                ),
            decreases n - i,
        {
            let ghost cur = Config { words, caps, nums, syms, help, debug };
            if str_equal(args[i].as_str(), "-w") || str_equal(args[i].as_str(), "--words") {
                if i + 1 < n {
                    match parse_usize(args[i + 1].as_str()) {
                        Some(v) => {
                            words = v;
                            i = i + 2;
                        },
                        None => {
                            return Err(ArgError::InvalidParameter(Flag::Words));
                        },
                    }
                } else {
                    return Err(ArgError::NoParameter(Flag::Words));
                }
            } else if str_equal(args[i].as_str(), "-c") || str_equal(args[i].as_str(), "--caps") {
                if i + 1 < n {
                    match parse_usize(args[i + 1].as_str()) {
                        Some(v) => {
                            caps = v;
                            i = i + 2;
                        },
                        None => {
                            return Err(ArgError::InvalidParameter(Flag::Caps));
                        },
                    }
                } else {
                    return Err(ArgError::NoParameter(Flag::Caps));
                }
            } else if str_equal(args[i].as_str(), "-n") || str_equal(
                args[i].as_str(),
                "--numbers",
            ) {
                if i + 1 < n {
                    match parse_usize(args[i + 1].as_str()) {
                        Some(v) => {
                            nums = v;
                            i = i + 2;
                        },
                        None => {
                            return Err(ArgError::InvalidParameter(Flag::Numbers));
                        },
                    }
                } else {
                    return Err(ArgError::NoParameter(Flag::Numbers));
                }
            } else if str_equal(args[i].as_str(), "-s") || str_equal(
                args[i].as_str(),
                "--symbols",
            ) {
                if i + 1 < n {
                    match parse_usize(args[i + 1].as_str()) {
                        Some(v) => {
                            syms = v;
                            i = i + 2;
                        },
                        None => {
                            return Err(ArgError::InvalidParameter(Flag::Symbols));
                        },
                    }
                } else {
                    return Err(ArgError::NoParameter(Flag::Symbols));
                }
            } else if str_equal(args[i].as_str(), "-h") || str_equal(args[i].as_str(), "--help") {
                help = true;
                i = i + 1;
            } else if str_equal(args[i].as_str(), "-d") || str_equal(args[i].as_str(), "--debug") {
                debug = true;
                i = i + 1;
            } else {
                let arg = args[i].clone();
                return Err(ArgError::UnknownArgument { arg });
            }
        }
        Ok(Config::build(words, caps, nums, syms, help, debug))
    }
}

/// The usage text, documenting every flag and its default.
pub open spec fn usage_chars() -> Seq<char> {
    "usage: xkcdpwgen [-h] [-w WORDS] [-c CAPS] [-n NUMBERS] [-s SYMBOLS]
                
                Generate a secure, memorable password using the XKCD method
                                
                optional arguments:
                    -h, --help            show this help message and exit
                    -d, --debug           include debug info in the output
                    -w WORDS, --words WORDS
                                          include WORDS words in the password (default=4)
                    -c CAPS, --caps CAPS  capitalize the first letter of CAPS random words
                                          (default=0)
                    -n NUMBERS, --numbers NUMBERS
                                          insert NUMBERS random numbers in the password
                                          (default=0)
                    -s SYMBOLS, --symbols SYMBOLS
                                          insert SYMBOLS random symbols in the password
                                          (default=0)"@
}

/// The usage text printed for `-h` / `--help`.
pub fn usage_text() -> (r: &'static str)
    ensures
        r@ == usage_chars(),
{
    "usage: xkcdpwgen [-h] [-w WORDS] [-c CAPS] [-n NUMBERS] [-s SYMBOLS]
                
                Generate a secure, memorable password using the XKCD method
                                
                optional arguments:
                    -h, --help            show this help message and exit
                    -d, --debug           include debug info in the output
                    -w WORDS, --words WORDS
                                          include WORDS words in the password (default=4)
                    -c CAPS, --caps CAPS  capitalize the first letter of CAPS random words
                                          (default=0)
                    -n NUMBERS, --numbers NUMBERS
                                          insert NUMBERS random numbers in the password
                                          (default=0)
                    -s SYMBOLS, --symbols SYMBOLS
                                          insert SYMBOLS random symbols in the password
                                          (default=0)"
}

} // verus!
