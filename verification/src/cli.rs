use vstd::prelude::*;
use vstd::string::StringExecFns;

verus! {

/// What the command line asks for.
#[derive(Debug)]
pub enum Action {
    /// Print this usage text.
    Help(String),
    /// Format some code.
    Format(FormatRequest),
}

#[derive(Debug)]
pub struct FormatRequest {
    /// Write the result back to the files instead of printing it.
    pub write_to_file: bool,
    pub target: FormatTarget,
}

/// Where the code to format comes from.
#[derive(Debug)]
pub enum FormatTarget {
    Files { paths: Vec<String> },
    Stdin,
}

/// The texts of some strings.
pub open spec fn texts(s: Seq<String>) -> Seq<Seq<char>> {
    s.map_values(|x: String| x@)
}

/// Some free argument is `-`, which stands for the standard input.
pub open spec fn names_stdin(free: Seq<Seq<char>>) -> bool {
    exists|i: int| 0 <= i < free.len() && #[trigger] free[i] == seq!['-']
}

/// `action` is what the command line asks for, given whether `-h` was given, whether
/// `-w` was given, the free arguments and the usage text. Without free arguments, or
/// with `-h`, the usage is shown; otherwise the free arguments name the files to
/// format, or the standard input where one of them is `-`.
pub open spec fn decided(action: Action, help: bool, write: bool, free: Seq<Seq<char>>, usage: Seq<char>) -> bool {
    if help || free.len() == 0 {
        action matches Action::Help(u) && u@ == usage
    } else {
        action matches Action::Format(request) && {
            &&& request.write_to_file == write
            &&& names_stdin(free) ==> request.target is Stdin
            &&& !names_stdin(free) ==> (request.target matches FormatTarget::Files { paths } && texts(paths@)
                == free)
        }
    }
}

/// Decides what to do from the parsed command line: whether `-h` was given, whether
/// `-w` was given, the free arguments, and the usage text.
pub fn decide_action(help: bool, write: bool, free: Vec<String>, usage: String) -> (action: Action)
    ensures
        decided(action, help, write, texts(free@), usage@),
{
    if help || free.len() == 0 {
        return Action::Help(usage);
    }
    let dash = String::from_str("-");
    proof {
        reveal_strlit("-");
        assert(dash@ =~= seq!['-']);
    }
    let mut stdin = false;
    let n = free.len();
    let mut i: usize = 0;
    while i < n
        invariant
            n == free@.len(),
            0 <= i <= n,
            dash@ == seq!['-'],
            stdin <==> exists|j: int| 0 <= j < i && (#[trigger] free@[j])@ == seq!['-'],
        decreases n - i,
    {
        if free[i] == dash {
            stdin = true;
        }
        i = i + 1;
    }
    proof {
        let t = texts(free@);
        assert forall|j: int| 0 <= j < n implies #[trigger] t[j] == free@[j]@ by {}
        if stdin {
            let j = choose|j: int| 0 <= j < n && (#[trigger] free@[j])@ == seq!['-'];
            assert(t[j] == seq!['-']);
        }
        if names_stdin(t) {
            let j = choose|j: int| 0 <= j < t.len() && #[trigger] t[j] == seq!['-'];
            assert(free@[j]@ == seq!['-']);
        }
    }
    let target = if stdin {
        FormatTarget::Stdin
    } else {
        FormatTarget::Files { paths: free }
    };
    Action::Format(FormatRequest { write_to_file: write, target })
}

/// A flag of the command line: its short name, its long name and what it does.
pub struct FlagSpec {
    pub short: String,
    pub long: String,
    pub desc: String,
}

/// The flags as text.
pub open spec fn flag_texts(flags: Seq<FlagSpec>) -> Seq<(Seq<char>, Seq<char>, Seq<char>)> {
    flags.map_values(|f: FlagSpec| (f.short@, f.long@, f.desc@))
}

/// Names that `getopts` accepts: a short name of one ASCII character or none, and a
/// long name of at least two characters, by which a match is looked up.
pub open spec fn flags_valid(flags: Seq<FlagSpec>) -> bool {
    forall|i: int|
        0 <= i < flags.len() ==> {
            &&& (#[trigger] flags[i]).short@.len() == 0 || (flags[i].short@.len() == 1
                && (flags[i].short@[0] as u32) < 128)
            &&& flags[i].long@.len() >= 2
        }
}

/// What `getopts` makes of `args` with these flags: for each flag whether it was
/// given, and the free arguments; or the text of the failure.
pub uninterp spec fn getopts_parse(
    flags: Seq<(Seq<char>, Seq<char>, Seq<char>)>,
    args: Seq<Seq<char>>,
) -> Result<(Seq<bool>, Seq<Seq<char>>), Seq<char>>;

/// The usage text that `getopts` writes for these flags under `brief`.
pub uninterp spec fn getopts_usage(flags: Seq<(Seq<char>, Seq<char>, Seq<char>)>, brief: Seq<char>) -> Seq<char>;

/// How the usage text starts: the brief, an empty line and `Options:`.
pub open spec fn usage_head(brief: Seq<char>) -> Seq<char> {
    brief + "\n\nOptions:\n"@
}

/// What a successful parse found: for each flag whether it was given, and the free
/// arguments.
pub struct ParsedArgs {
    pub present: Vec<bool>,
    pub free: Vec<String>,
}

/// `getopts::Options` with these flags (`Options::new`, then `optflag` for each), then
/// `Options::parse` on `args` and, on success, `Matches::opt_present` for each flag by
/// its long name and `Matches::free`; on failure the `Display` text of `Fail`; and
/// `Options::usage` with `brief`, which starts with the brief, an empty line and
/// `Options:`.
///
/// The contract names the outcome `getopts_parse` and the usage `getopts_usage`, both
/// functions of the flags, the arguments and the brief alone; it claims that one answer
/// per flag comes back. Which arguments are flags and which are free is left to those
/// names.
#[verifier::external_body]
fn run_getopts(flags: &Vec<FlagSpec>, brief: &str, args: &Vec<String>) -> (r: (Result<ParsedArgs, String>, String))
    requires
        flags_valid(flags@),
    ensures
        r.1@ == getopts_usage(flag_texts(flags@), brief@),
        usage_head(brief@).is_prefix_of(r.1@),
        match r.0 {
            Ok(p) => getopts_parse(flag_texts(flags@), texts(args@)) == Ok::<_, Seq<char>>((p.present@, texts(p.free@)))
                && p.present@.len() == flags@.len(),
            Err(m) => getopts_parse(flag_texts(flags@), texts(args@)) == Err::<(Seq<bool>, Seq<Seq<char>>), _>(m@),
        },
{
    let mut o = getopts::Options::new();
    for f in flags.iter() {
        o.optflag(&f.short, &f.long, &f.desc);
    }
    let usage = o.usage(brief);
    let parsed = match o.parse(args) {
        Ok(m) => Ok(ParsedArgs { present: flags.iter().map(|f| m.opt_present(&f.long)).collect(), free: m.free }),
        Err(e) => Err(e.to_string()),
    };
    (parsed, usage)
}

/// The flags of `rbfmt`: `-h` and `-w`.
pub open spec fn rbfmt_flags() -> Seq<(Seq<char>, Seq<char>, Seq<char>)> {
    seq![
        ("h"@, "help"@, "print this help message"@),
        ("w"@, "write"@, "Write output to files instead of STDOUT"@),
    ]
}

/// The first line of the usage text.
pub open spec fn usage_brief() -> Seq<char> {
    "Usage: rbfmt [options] [path/-]..."@
}

fn build_flags() -> (flags: Vec<FlagSpec>)
    ensures
        flags@.len() == 2,
        flag_texts(flags@) == rbfmt_flags(),
        flags_valid(flags@),
{
    proof {
        reveal_strlit("h");
        reveal_strlit("help");
        reveal_strlit("w");
        reveal_strlit("write");
    }
    let mut flags: Vec<FlagSpec> = Vec::new();
    flags.push(
        FlagSpec {
            short: String::from_str("h"),
            long: String::from_str("help"),
            desc: String::from_str("print this help message"),
        },
    );
    flags.push(
        FlagSpec {
            short: String::from_str("w"),
            long: String::from_str("write"),
            desc: String::from_str("Write output to files instead of STDOUT"),
        },
    );
    proof {
        assert(flag_texts(flags@) =~= rbfmt_flags());
    }
    flags
}

/// Reads the command line `args` (without the program name): the usage where `-h` or
/// no path is given, else what to format; a command line that `getopts` refuses gives
/// its failure text.
pub fn parse_args(args: Vec<String>) -> (r: Result<Action, String>)
    ensures
        match getopts_parse(rbfmt_flags(), texts(args@)) {
            Ok((present, free)) => r matches Ok(action) && decided(
                action,
                present[0],
                present[1],
                free,
                getopts_usage(rbfmt_flags(), usage_brief()),
            ),
            Err(message) => r matches Err(m) && m@ == message,
        },
        r matches Ok(Action::Help(u)) ==> usage_head(usage_brief()).is_prefix_of(u@),
{
    let flags = build_flags();
    let brief = "Usage: rbfmt [options] [path/-]...";
    let (parsed, usage) = run_getopts(&flags, brief, &args);
    match parsed {
        Ok(p) => {
            let help = p.present[0];
            let write = p.present[1];
            Ok(decide_action(help, write, p.free, usage))
        },
        Err(m) => Err(m),
    }
}

/// Whether a file with extension `ext` is Ruby code to format: `rb`.
pub fn is_ruby_extension(ext: &str) -> (b: bool)
    ensures
        b == (ext@ == seq!['r', 'b']),
{
    let rb = String::from_str("rb");
    proof {
        reveal_strlit("rb");
        assert(rb@ =~= seq!['r', 'b']);
    }
    let e = String::from_str(ext);
    e == rb
}

/// Formatted files are separated by a header line when more than one path was given.
pub fn need_file_separator(paths: &Vec<String>) -> (b: bool)
    ensures
        b == (paths@.len() > 1),
{
    paths.len() > 1
}

} // verus!
