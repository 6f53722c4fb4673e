//! The command-line surface: the parsed configuration, the command words,
//! and a parser that turns the argument list into either a configuration
//! or a usage error.
use vstd::prelude::*;

use vstd::string::StrSliceExecFns;

verus! {

/// The command a run of the program performs.
#[derive(Clone, Copy, PartialEq, Eq, Structural, Debug)]
pub enum Command {
    /// Print the usage text.
    Help,
    /// Print the embedded readme.
    Readme,
    /// Print the version line.
    Version,
    /// Run the rendezvous server.
    Helper,
    /// Send a file.
    Send,
    /// Receive a file.
    Receive,
}

/// Why an argument list was rejected.
#[derive(Clone, Copy, PartialEq, Eq, Structural, Debug)]
pub enum CliError {
    /// The first argument is no known command word.
    UnrecognizedCommand,
    /// A flag that needs a value stands last.
    MissingFlagArgument,
    /// A numeric argument does not parse as its number type.
    BadNumber,
    /// More positional arguments than the command takes.
    TooManyArguments,
}

/// The parsed configuration.
#[derive(Debug)]
pub struct Cli {
    /// The program name, as invoked, without its directory part.
    pub binary: String,
    /// The command to run.
    pub command: Command,
    /// UDP port of the rendezvous server when running it.
    pub port: u16,
    /// Path of the file to send or receive.
    pub file: String,
    /// The pairing tag both peers present.
    pub tag: String,
    /// Rendezvous server address, when given on the command line.
    pub helper: String,
    /// Per-packet pacing in microseconds.
    pub delay: u64,
    /// Payload bytes per stream chunk.
    pub bitrate: usize,
    /// File byte offset at which to resume.
    pub start: u64,
}

/// The settable fields of the configuration, as mathematical values.
#[verifier::ext_equal]
pub struct CliModel {
    /// Path of the file to send or receive.
    pub file: Seq<char>,
    /// The pairing tag.
    pub tag: Seq<char>,
    /// Rendezvous server address from the command line.
    pub helper: Seq<char>,
    /// UDP port of the rendezvous server.
    pub port: u16,
    /// Per-packet pacing in microseconds.
    pub delay: u64,
    /// Payload bytes per stream chunk.
    pub bitrate: usize,
    /// File byte offset at which to resume.
    pub start: u64,
}

/// The configuration before any argument is read: everything at its
/// default.
pub open spec fn spec_init_model() -> CliModel {
    CliModel {
        file: Seq::empty(),
        tag: Seq::empty(),
        helper: Seq::empty(),
        port: crate::DEFAULT_PORT,
        delay: crate::DELAY,
        bitrate: crate::BITRATE,
        start: 0,
    }
}

/// The settable fields of a parsed configuration.
pub open spec fn model_of(c: Cli) -> CliModel {
    CliModel {
        file: c.file@,
        tag: c.tag@,
        helper: c.helper@,
        port: c.port,
        delay: c.delay,
        bitrate: c.bitrate,
        start: c.start,
    }
}

/// Whether a character is a decimal digit.
pub open spec fn spec_is_digit(c: char) -> bool {
    48 <= c as int <= 57
}

/// The value of a decimal digit character.
pub open spec fn spec_digit(c: char) -> int {
    c as int - 48
}

/// Whether every character of a string is a decimal digit.
pub open spec fn spec_all_digits(s: Seq<char>) -> bool {
    forall|i: int| 0 <= i < s.len() ==> spec_is_digit(s[i])
}

/// The number a digit string denotes in decimal.
pub open spec fn spec_dec_val(s: Seq<char>) -> int
    decreases s.len(),
{
    if s.len() == 0 {
        0
    } else {
        spec_dec_val(s.drop_last()) * 10 + spec_digit(s.last())
    }
}

/// The digit part of a decimal string: everything after an optional
/// leading plus sign.
pub open spec fn spec_digits_part(s: Seq<char>) -> Seq<char> {
    if s.len() > 0 && s[0] == '+' {
        s.skip(1)
    } else {
        s
    }
}

/// Whether a string parses as an unsigned number no greater than `max`:
/// an optional plus sign, then at least one digit, denoting a value in
/// range.
pub open spec fn spec_parses_as(s: Seq<char>, max: int) -> bool {
    spec_digits_part(s).len() > 0 && spec_all_digits(spec_digits_part(s)) && spec_dec_val(
        spec_digits_part(s)) <= max
}

/// A digit string denotes a nonnegative number.
proof fn lemma_dec_val_nonneg(s: Seq<char>)
    requires
        spec_all_digits(s),
    ensures
        spec_dec_val(s) >= 0,
    decreases s.len(),
{
    if s.len() > 0 {
        assert(spec_all_digits(s.drop_last()));
        lemma_dec_val_nonneg(s.drop_last());
    }
}

/// Extending a digit string never shrinks its value.
proof fn lemma_dec_val_prefix(s: Seq<char>, k: int)
    requires
        spec_all_digits(s),
        0 <= k <= s.len(),
    ensures
        spec_dec_val(s) >= spec_dec_val(s.take(k)),
    decreases s.len(),
{
    if k == s.len() {
        assert(s.take(k) =~= s);
    } else {
        assert(spec_all_digits(s.drop_last()));
        assert(s.drop_last().take(k) =~= s.take(k));
        lemma_dec_val_prefix(s.drop_last(), k);
        lemma_dec_val_nonneg(s.drop_last());
        assert(spec_dec_val(s.drop_last()) * 10 >= spec_dec_val(s.drop_last())) by (
        nonlinear_arith)
            requires
                spec_dec_val(s.drop_last()) >= 0,
        ;
    }
}

/// Whether two string slices hold the same characters.
pub fn str_eq(a: &str, b: &str) -> (r: bool)
    ensures
        r == (a@ == b@),
{
    let na = a.unicode_len();
    let nb = b.unicode_len();
    if na != nb {
        return false;
    }
    let mut i: usize = 0;
    while i < na
        invariant
            i <= na,
            na == a@.len(),
            na == b@.len(),
            forall|k: int| 0 <= k < i ==> a@[k] == b@[k],
        decreases na - i,
    {
        if a.get_char(i) != b.get_char(i) {
            return false;
        }
        i = i + 1;
    }
    proof {
        assert(a@ =~= b@);
    }
    true
}

/// Parse a string as a decimal 64-bit number, the way the standard
/// library does: an optional leading plus sign, then only digits, and the
/// value must fit.
pub fn parse_u64(s: &str) -> (r: Option<u64>)
    ensures
        (r is Some) == spec_parses_as(s@, u64::MAX as int),
        r matches Some(v) ==> v == spec_dec_val(spec_digits_part(s@)),
{
    let n = s.unicode_len();
    let start: usize = if n > 0 && s.get_char(0) == '+' {
        1
    } else {
        0
    };
    let ghost dp = spec_digits_part(s@);
    proof {
        assert(dp =~= s@.skip(start as int));
    }
    if n == start {
        return None;
    }
    let mut val: u64 = 0;
    let mut i: usize = start;
    proof {
        assert(dp.take(0) =~= Seq::<char>::empty());
    }
    while i < n
        invariant
            start <= i <= n,
            n == s@.len(),
            dp == spec_digits_part(s@),
            dp == s@.skip(start as int),
            dp.len() == n - start,
            spec_all_digits(dp.take(i - start)),
            val == spec_dec_val(dp.take(i - start)),
        decreases n - i,
    {
        let c = s.get_char(i);
        let cv = c as u32;
        proof {
            assert(dp[i - start] == s@[i as int]);
            assert(c as int == cv as int);
        }
        if cv < 48 || cv > 57 {
            proof {
                assert(!spec_is_digit(s@[i as int]));
                assert(!spec_all_digits(dp));
            }
            return None;
        }
        let d = (cv - 48) as u64;
        let ghost prev = dp.take(i - start);
        proof {
            assert(dp.take(i - start + 1).drop_last() =~= prev);
            assert(dp.take(i - start + 1).last() == dp[i - start]);
            assert(spec_is_digit(dp[i - start]));
            assert(spec_all_digits(dp.take(i - start + 1)));
            assert(spec_digit(dp[i - start]) == d);
            assert(spec_dec_val(dp.take(i - start + 1)) == val * 10 + d);
        }
        match val.checked_mul(10) {
            None => {
                proof {
                    assert(spec_dec_val(dp.take(i - start + 1)) > u64::MAX);
                    lemma_all_digits_or_bail(dp, i - start + 1);
                }
                return None;
            },
            Some(m) => {
                match m.checked_add(d) {
                    None => {
                        proof {
                            assert(spec_dec_val(dp.take(i - start + 1)) > u64::MAX);
                            lemma_all_digits_or_bail(dp, i - start + 1);
                        }
                        return None;
                    },
                    Some(t) => {
                        val = t;
                    },
                }
            },
        }
        i = i + 1;
    }
    proof {
        assert(dp.take(dp.len() as int) =~= dp);
    }
    Some(val)
}

/// When a digit prefix already exceeds the range, the whole string either
/// has a non-digit or denotes a value out of range.
proof fn lemma_all_digits_or_bail(dp: Seq<char>, k: int)
    requires
        0 <= k <= dp.len(),
        spec_all_digits(dp.take(k)),
        spec_dec_val(dp.take(k)) > u64::MAX,
    ensures
        !(spec_all_digits(dp) && spec_dec_val(dp) <= u64::MAX),
{
    if spec_all_digits(dp) {
        lemma_dec_val_prefix(dp, k);
    }
}

/// Parse a string as a decimal 16-bit number, standard-library style.
pub fn parse_u16(s: &str) -> (r: Option<u16>)
    ensures
        (r is Some) == spec_parses_as(s@, u16::MAX as int),
        r matches Some(v) ==> v == spec_dec_val(spec_digits_part(s@)),
{
    match parse_u64(s) {
        None => {
            proof {
                if spec_parses_as(s@, u16::MAX as int) {
                    assert(spec_parses_as(s@, u64::MAX as int));
                }
            }
            None
        },
        Some(v) => {
            if v <= 0xFFFF {
                Some(v as u16)
            } else {
                None
            }
        },
    }
}

/// Parse a string as a decimal pointer-sized number, standard-library
/// style.
pub fn parse_usize(s: &str) -> (r: Option<usize>)
    ensures
        (r is Some) == spec_parses_as(s@, usize::MAX as int),
        r matches Some(v) ==> v == spec_dec_val(spec_digits_part(s@)),
{
    match parse_u64(s) {
        None => {
            proof {
                if spec_parses_as(s@, usize::MAX as int) {
                    assert(spec_parses_as(s@, u64::MAX as int));
                }
            }
            None
        },
        Some(v) => {
            if v <= usize::MAX as u64 {
                Some(v as usize)
            } else {
                None
            }
        },
    }
}

/// The part of a path after its last slash: the bare program name.
pub open spec fn spec_basename(s: Seq<char>) -> Seq<char>
    decreases s.len(),
{
    if s.len() == 0 {
        Seq::empty()
    } else if s.last() == '/' {
        Seq::empty()
    } else {
        spec_basename(s.drop_last()) + seq![s.last()]
    }
}

/// A suffix that starts right after the last slash is the basename.
proof fn lemma_basename_suffix(s: Seq<char>, i: int)
    requires
        0 <= i <= s.len(),
        forall|k: int| i <= k < s.len() ==> s[k] != '/',
        i > 0 ==> s[i - 1] == '/',
    ensures
        spec_basename(s) == s.subrange(i, s.len() as int),
    decreases s.len(),
{
    if i == s.len() {
        assert(s.subrange(i, s.len() as int) =~= Seq::<char>::empty());
    } else {
        assert(s.last() != '/');
        assert(forall|k: int| i <= k < s.len() - 1 ==> s.drop_last()[k] != '/');
        lemma_basename_suffix(s.drop_last(), i);
        assert(s.drop_last().subrange(i, s.len() - 1) =~= s.subrange(i, s.len() - 1));
        assert(s.subrange(i, s.len() - 1) + seq![s.last()] =~= s.subrange(i, s.len() as int));
    }
}

/// The command a word on the command line names, if any.
pub open spec fn spec_command(s: Seq<char>) -> Option<Command> {
    if s == "readme"@ {
        Some(Command::Readme)
    } else if s == "help"@ || s == "-h"@ || s == "--help"@ || s == "h"@ {
        Some(Command::Help)
    } else if s == "helper"@ || s == "H"@ {
        Some(Command::Helper)
    } else if s == "send"@ || s == "S"@ || s == "s"@ {
        Some(Command::Send)
    } else if s == "receive"@ || s == "R"@ || s == "r"@ {
        Some(Command::Receive)
    } else if s == "version"@ || s == "-V"@ || s == "v"@ || s == "V"@ || s == "--version"@ {
        Some(Command::Version)
    } else {
        None
    }
}

/// Fold the arguments after the command word into the configuration: the
/// rendezvous server takes port numbers; sending and receiving take the
/// three numeric flags and then file, tag and helper address in order;
/// the other commands take nothing.
pub open spec fn spec_apply_args(m: CliModel, cmd: Command, args: Seq<Seq<char>>) -> Result<
    CliModel,
    CliError,
>
    decreases args.len(),
{
    if args.len() == 0 {
        Ok(m)
    } else {
        match cmd {
            Command::Helper => if spec_parses_as(args[0], u16::MAX as int) {
                spec_apply_args(
                    CliModel { port: spec_dec_val(spec_digits_part(args[0])) as u16, ..m },
                    cmd,
                    args.skip(1),
                )
            } else {
                Err(CliError::BadNumber)
            },
            Command::Send | Command::Receive => if args[0] == "-d"@ || args[0] == "-r"@
                || args[0] == "-s"@ {
                if args.len() < 2 {
                    Err(CliError::MissingFlagArgument)
                } else if args[0] == "-d"@ {
                    if spec_parses_as(args[1], u64::MAX as int) {
                        spec_apply_args(
                            CliModel {
                                delay: spec_dec_val(spec_digits_part(args[1])) as u64,
                                ..m
                            },
                            cmd,
                            args.skip(2),
                        )
                    } else {
                        Err(CliError::BadNumber)
                    }
                } else if args[0] == "-r"@ {
                    if spec_parses_as(args[1], usize::MAX as int) {
                        spec_apply_args(
                            CliModel {
                                bitrate: spec_dec_val(spec_digits_part(args[1])) as usize,
                                ..m
                            },
                            cmd,
                            args.skip(2),
                        )
                    } else {
                        Err(CliError::BadNumber)
                    }
                } else {
                    if spec_parses_as(args[1], u64::MAX as int) {
                        spec_apply_args(
                            CliModel {
                                start: spec_dec_val(spec_digits_part(args[1])) as u64,
                                ..m
                            },
                            cmd,
                            args.skip(2),
                        )
                    } else {
                        Err(CliError::BadNumber)
                    }
                }
            } else if m.file.len() == 0 {
                spec_apply_args(CliModel { file: args[0], ..m }, cmd, args.skip(1))
            } else if m.tag.len() == 0 {
                spec_apply_args(CliModel { tag: args[0], ..m }, cmd, args.skip(1))
            } else if m.helper.len() == 0 {
                spec_apply_args(CliModel { helper: args[0], ..m }, cmd, args.skip(1))
            } else {
                Err(CliError::TooManyArguments)
            },
            _ => Err(CliError::TooManyArguments),
        }
    }
}

/// The views of an argument list.
pub open spec fn spec_views(args: Seq<String>) -> Seq<Seq<char>> {
    args.map_values(|s: String| s@)
}

/// The arguments after the command word.
pub open spec fn spec_rest(args: Seq<Seq<char>>) -> Seq<Seq<char>> {
    if args.len() >= 2 {
        args.skip(2)
    } else {
        Seq::empty()
    }
}

/// The suffix of the arguments from position `i` on.
pub open spec fn spec_suffix(args: Seq<Seq<char>>, i: int) -> Seq<Seq<char>> {
    if 0 <= i <= args.len() {
        args.skip(i)
    } else {
        Seq::empty()
    }
}

/// What parsing an argument list yields: the command named by the second
/// argument (help when there is none), and the configuration folded from
/// the rest; or the first usage error met.
pub open spec fn spec_parse_cli(args: Seq<Seq<char>>) -> Result<(Command, CliModel), CliError>
    recommends
        args.len() >= 1,
{
    let cmd_opt = if args.len() >= 2 {
        spec_command(args[1])
    } else {
        Some(Command::Help)
    };
    match cmd_opt {
        None => Err(CliError::UnrecognizedCommand),
        Some(cmd) => match spec_apply_args(spec_init_model(), cmd, spec_rest(args)) {
            Ok(m) => Ok((cmd, m)),
            Err(e) => Err(e),
        },
    }
}

/// Recognize a command word.
pub fn command_of(s: &str) -> (r: Option<Command>)
    ensures
        r == spec_command(s@),
{
    if str_eq(s, "readme") {
        Some(Command::Readme)
    } else if str_eq(s, "help") || str_eq(s, "-h") || str_eq(s, "--help") || str_eq(s, "h") {
        Some(Command::Help)
    } else if str_eq(s, "helper") || str_eq(s, "H") {
        Some(Command::Helper)
    } else if str_eq(s, "send") || str_eq(s, "S") || str_eq(s, "s") {
        Some(Command::Send)
    } else if str_eq(s, "receive") || str_eq(s, "R") || str_eq(s, "r") {
        Some(Command::Receive)
    } else if str_eq(s, "version") || str_eq(s, "-V") || str_eq(s, "v") || str_eq(s, "V")
        || str_eq(s, "--version") {
        Some(Command::Version)
    } else {
        None
    }
}

/// Cut a path down to what follows its last slash.
pub fn basename_of(s: &str) -> (r: String)
    ensures
        r@ == spec_basename(s@),
{
    let n = s.unicode_len();
    let mut i: usize = n;
    let mut found = false;
    while i > 0 && !found
        invariant
            i <= n,
            n == s@.len(),
            forall|k: int| i <= k < n ==> s@[k] != '/',
            found ==> i > 0 && s@[i - 1] == '/',
        decreases i + (if found {
            0int
        } else {
            1int
        }),
    {
        if s.get_char(i - 1) == '/' {
            found = true;
        } else {
            i = i - 1;
        }
    }
    proof {
        lemma_basename_suffix(s@, i as int);
    }
    let tail = s.substring_char(i, n);
    tail.to_owned()
}

/// Parse the argument list, first element the program path, into a
/// configuration, or say why it is no valid invocation.
pub fn parse_cli(args: &Vec<String>) -> (r: Result<Cli, CliError>)
    requires
        args@.len() >= 1,
    ensures
        r matches Ok(c) ==> (spec_parse_cli(spec_views(args@)) matches Ok(p) && c.command == p.0
            && c.binary@ == spec_basename(args@[0]@) && model_of(c) == p.1),
        r matches Err(e) ==> (spec_parse_cli(spec_views(args@)) matches Err(e2) && e == e2),
    {
    let ghost views = spec_views(args@);
    proof {
        assert(views.len() == args@.len());
        assert(forall|k: int| 0 <= k < args@.len() ==> views[k] == args@[k]@);
    }
    let binary = basename_of(args[0].as_str());
    let command: Command;
    if args.len() >= 2 {
        match command_of(args[1].as_str()) {
            Some(c) => {
                command = c;
            },
            None => {
                return Err(CliError::UnrecognizedCommand);
            },
        }
    } else {
        command = Command::Help;
    }
    let mut cli = Cli {
        binary,
        command,
        port: crate::DEFAULT_PORT,
        file: String::new(),
        tag: String::new(),
        helper: String::new(),
        delay: crate::DELAY,
        bitrate: crate::BITRATE,
        start: 0,
    };
    let ghost target = spec_apply_args(spec_init_model(), command, spec_rest(views));
    proof {
        assert(model_of(cli) =~= spec_init_model());
        assert(spec_rest(views) =~= spec_suffix(views, 2));
    }
    let mut i: usize = 2;
    while i < args.len()
        invariant
            2 <= i,
            views == spec_views(args@),
            views.len() == args@.len(),
            forall|k: int| 0 <= k < args@.len() ==> views[k] == args@[k]@,
            cli.command == command,
            cli.binary@ == spec_basename(args@[0]@),
            target == spec_apply_args(spec_init_model(), command, spec_rest(views)),
            target == spec_apply_args(model_of(cli), command, spec_suffix(views, i as int)),
            target matches Ok(mm) ==> spec_parse_cli(views) == Ok::<(Command, CliModel),
                CliError>((command, mm)),
            target matches Err(e) ==> spec_parse_cli(views) == Err::<(Command, CliModel),
                CliError>(e),
        decreases args@.len() - i,
    {
        let ghost m0 = model_of(cli);
        let ghost suf = spec_suffix(views, i as int);
        proof {
            assert(suf == views.skip(i as int));
            assert(suf[0] == views[i as int]);
            assert(suf.len() == views.len() - i);
        }
        match command {
            Command::Helper => {
                match parse_u16(args[i].as_str()) {
                    None => {
                        return Err(CliError::BadNumber);
                    },
                    Some(p) => {
                        cli.port = p;
                        i = i + 1;
                        proof {
                            assert(model_of(cli) =~= (CliModel { port: spec_dec_val(
                                spec_digits_part(suf[0])) as u16, ..m0 }));
                            assert(suf.skip(1) =~= spec_suffix(views, i as int));
                        }
                    },
                }
            },
            Command::Send | Command::Receive => {
                let is_d = str_eq(args[i].as_str(), "-d");
                let is_r = str_eq(args[i].as_str(), "-r");
                let is_s = str_eq(args[i].as_str(), "-s");
                if is_d || is_r || is_s {
                    if i + 1 >= args.len() {
                        return Err(CliError::MissingFlagArgument);
                    }
                    proof {
                        assert(suf[1] == views[i + 1]);
                    }
                    if is_d {
                        match parse_u64(args[i + 1].as_str()) {
                            None => {
                                return Err(CliError::BadNumber);
                            },
                            Some(v) => {
                                cli.delay = v;
                            },
                        }
                        proof {
                            assert(model_of(cli) =~= (CliModel { delay: spec_dec_val(
                                spec_digits_part(suf[1])) as u64, ..m0 }));
                        }
                    } else if is_r {
                        match parse_usize(args[i + 1].as_str()) {
                            None => {
                                return Err(CliError::BadNumber);
                            },
                            Some(v) => {
                                cli.bitrate = v;
                            },
                        }
                        proof {
                            assert(model_of(cli) =~= (CliModel { bitrate: spec_dec_val(
                                spec_digits_part(suf[1])) as usize, ..m0 }));
                        }
                    } else {
                        match parse_u64(args[i + 1].as_str()) {
                            None => {
                                return Err(CliError::BadNumber);
                            },
                            Some(v) => {
                                cli.start = v;
                            },
                        }
                        proof {
                            assert(model_of(cli) =~= (CliModel { start: spec_dec_val(
                                spec_digits_part(suf[1])) as u64, ..m0 }));
                        }
                    }
                    i = i + 2;
                    proof {
                        assert(suf.skip(2) =~= spec_suffix(views, i as int));
                    }
                } else {
                    if cli.file.as_str().is_empty() {
                        cli.file = args[i].clone();
                        proof {
                            assert(model_of(cli) =~= (CliModel { file: suf[0], ..m0 }));
                        }
                    } else if cli.tag.as_str().is_empty() {
                        cli.tag = args[i].clone();
                        proof {
                            assert(model_of(cli) =~= (CliModel { tag: suf[0], ..m0 }));
                        }
                    } else if cli.helper.as_str().is_empty() {
                        cli.helper = args[i].clone();
                        proof {
                            assert(model_of(cli) =~= (CliModel { helper: suf[0], ..m0 }));
                        }
                    } else {
                        return Err(CliError::TooManyArguments);
                    }
                    i = i + 1;
                    proof {
                        assert(suf.skip(1) =~= spec_suffix(views, i as int));
                    }
                }
            },
            _ => {
                return Err(CliError::TooManyArguments);
            },
        }
    }
    proof {
        assert(spec_suffix(views, i as int) =~= Seq::<Seq<char>>::empty());
        assert(target == Ok::<CliModel, CliError>(model_of(cli)));
    }
    Ok(cli)
}

} // verus!
