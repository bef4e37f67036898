//! The command line of the home client, and the addresses it talks to.
use vstd::prelude::*;
use vstd::string::StringExecFns;

use crate::text::{chars_of, replace_all, replace_chars, string_of, string_views};

verus! {

/// What the client is asked to do.
#[derive(Debug)]
pub enum Commands {
    /// Send a magic packet to `mac` through the broadcast address `broadcast`.
    Wol { mac: String, broadcast: String },
    /// List the devices the server knows.
    List,
    /// Ask whether the server is up.
    Status,
}

/// The parsed command line.
#[derive(Debug)]
pub struct Args {
    pub server_url: String,
    pub command: Option<Commands>,
}

/// Why the client stops before doing anything: it printed its help (and
/// exits with status 0), or the command line is wrong (it prints the message
/// and exits with status 1).
#[derive(Debug, PartialEq, Eq)]
pub enum ArgsExit {
    Help,
    Invalid(String),
}

/// A command, by the texts it holds.
pub enum CommandSpec {
    Wol(Seq<char>, Seq<char>),
    List,
    Status,
}

/// Where reading a command line ends.
pub enum CliSpec {
    /// The server URL and the command read.
    Parsed(Seq<char>, Option<CommandSpec>),
    /// `--help` or `-h`.
    Help,
    /// An error, with its message.
    Invalid(Seq<char>),
    /// A `wol` option that needs a value comes last: the reader makes no
    /// further progress and never ends.
    Stalls,
}

/// Where the reader is: at the top level, reading the words after `wol`, or
/// reading the options after them.
pub enum CliMode {
    Top,
    WolWords(Seq<char>, Seq<char>),
    WolOptions(Seq<char>, Seq<char>),
}

pub open spec fn mode_rank(m: CliMode) -> int {
    match m {
        CliMode::Top => 0,
        CliMode::WolOptions(..) => 1,
        CliMode::WolWords(..) => 2,
    }
}

pub open spec fn default_broadcast() -> Seq<char> {
    "255.255.255.255"@
}

pub open spec fn default_server_url() -> Seq<char> {
    "http://localhost:3000"@
}

/// Whether a word is an option, i.e. starts with `-`.
pub open spec fn is_option(a: Seq<char>) -> bool {
    a.len() > 0 && a[0] == '-'
}

/// Reading the command line `args` from position `i` on, with the server URL
/// and command read so far.
pub open spec fn cli_run(
    args: Seq<Seq<char>>,
    i: int,
    url: Seq<char>,
    cmd: Option<CommandSpec>,
    mode: CliMode,
) -> CliSpec
    decreases args.len() - i, mode_rank(mode),
{
    if i < 0 {
        CliSpec::Parsed(url, cmd)
    } else {
        match mode {
            CliMode::Top => if i >= args.len() {
                CliSpec::Parsed(url, cmd)
            } else {
                let a = args[i];
                if a == "--server-url"@ || a == "-s"@ {
                    if i + 1 < args.len() {
                        cli_run(args, i + 2, args[i + 1], cmd, CliMode::Top)
                    } else {
                        CliSpec::Invalid("Error: --server-url requires a value"@)
                    }
                } else if a == "wol"@ {
                    cli_run(
                        args,
                        i + 1,
                        url,
                        cmd,
                        CliMode::WolWords(Seq::empty(), default_broadcast()),
                    )
                } else if a == "list"@ {
                    cli_run(args, i + 1, url, Some(CommandSpec::List), CliMode::Top)
                } else if a == "status"@ {
                    cli_run(args, i + 1, url, Some(CommandSpec::Status), CliMode::Top)
                } else if a == "--help"@ || a == "-h"@ {
                    CliSpec::Help
                } else {
                    CliSpec::Invalid("Unknown argument: "@ + a)
                }
            },
            CliMode::WolWords(mac, bc) => if i < args.len() && !is_option(args[i]) {
                if mac.len() == 0 {
                    cli_run(args, i + 1, url, cmd, CliMode::WolWords(args[i], bc))
                } else if bc == default_broadcast() {
                    cli_run(args, i + 1, url, cmd, CliMode::WolWords(mac, args[i]))
                } else {
                    cli_run(args, i + 1, url, cmd, CliMode::WolWords(mac, bc))
                }
            } else {
                cli_run(args, i, url, cmd, CliMode::WolOptions(mac, bc))
            },
            CliMode::WolOptions(mac, bc) => if i < args.len() && (args[i] == "--mac"@ || args[i]
                == "-m"@) {
                if i + 1 < args.len() {
                    cli_run(args, i + 2, url, cmd, CliMode::WolOptions(args[i + 1], bc))
                } else {
                    CliSpec::Stalls
                }
            } else if i < args.len() && (args[i] == "--broadcast"@ || args[i] == "-b"@) {
                if i + 1 < args.len() {
                    cli_run(args, i + 2, url, cmd, CliMode::WolOptions(mac, args[i + 1]))
                } else {
                    CliSpec::Stalls
                }
            } else if mac.len() == 0 {
                CliSpec::Invalid("Error: wol command requires --mac argument"@)
            } else {
                cli_run(args, i, url, Some(CommandSpec::Wol(mac, bc)), CliMode::Top)
            },
        }
    }
}

/// Reading the command line `args`, whose first word is the program's name.
pub open spec fn cli_outcome(args: Seq<Seq<char>>) -> CliSpec {
    cli_run(args, 1, default_server_url(), None, CliMode::Top)
}

pub open spec fn command_view(c: Option<Commands>) -> Option<CommandSpec> {
    match c {
        None => None,
        Some(Commands::Wol { mac, broadcast }) => Some(CommandSpec::Wol(mac@, broadcast@)),
        Some(Commands::List) => Some(CommandSpec::List),
        Some(Commands::Status) => Some(CommandSpec::Status),
    }
}

/// The outcome of reading, as an executable value; `None` where the reader stalls.
pub open spec fn outcome_view(r: Option<Result<Args, ArgsExit>>) -> CliSpec {
    match r {
        None => CliSpec::Stalls,
        Some(Ok(a)) => CliSpec::Parsed(a.server_url@, command_view(a.command)),
        Some(Err(ArgsExit::Help)) => CliSpec::Help,
        Some(Err(ArgsExit::Invalid(m))) => CliSpec::Invalid(m@),
    }
}

/// Whether a word equals a literal.
fn is_word(a: &String, lit: &str) -> (r: bool)
    ensures
        r == (a@ == lit@),
{
    let l = String::from_str(lit);
    *a == l
}

fn starts_with_dash(a: &String) -> (r: bool)
    ensures
        r == is_option(a@),
{
    let cs = chars_of(a.as_str());
    cs.len() > 0 && cs[0] == '-'
}

fn copy_string(a: &String) -> (r: String)
    ensures
        r@ == a@,
{
    a.clone()
}

fn read_command_line(args: &Vec<String>) -> (r: Option<Result<Args, ArgsExit>>)
    ensures
        outcome_view(r) == cli_outcome(string_views(args@)),
{
    let ghost words = string_views(args@);
    let mut i: usize = 1;
    let mut url = String::from_str("http://localhost:3000");
    let mut cmd: Option<Commands> = None;
    // 0: top level, 1: words after `wol`, 2: options after them.
    let mut mode: u8 = 0;
    let mut mac = String::new();
    let mut bc = String::from_str("255.255.255.255");
    if args.len() <= 1 {
        return Some(Ok(Args { server_url: url, command: cmd }));
    }
    loop
        invariant
            words == string_views(args@),
            1 <= i <= args@.len(),
            mode <= 2,
            cli_outcome(words) == cli_run(
                words,
                i as int,
                url@,
                command_view(cmd),
                if mode == 0 {
                    CliMode::Top
                } else if mode == 1 {
                    CliMode::WolWords(mac@, bc@)
                } else {
                    CliMode::WolOptions(mac@, bc@)
                },
            ),
        decreases args@.len() - i, if mode == 0 {
            0int
        } else if mode == 1 {
            2int
        } else {
            1int
        },
    {
        let n = args.len();
        if mode == 0 {
            if i >= n {
                return Some(Ok(Args { server_url: url, command: cmd }));
            }
            let a = &args[i];
            assert(words[i as int] == a@);
            if is_word(a, "--server-url") || is_word(a, "-s") {
                if i + 1 < n {
                    assert(words[i + 1] == args@[i + 1]@);
                    url = copy_string(&args[i + 1]);
                    i = i + 2;
                } else {
                    return Some(
                        Err(ArgsExit::Invalid(String::from_str("Error: --server-url requires a value"))),
                    );
                }
            } else if is_word(a, "wol") {
                mac = String::new();
                bc = String::from_str("255.255.255.255");
                mode = 1;
                i = i + 1;
            } else if is_word(a, "list") {
                cmd = Some(Commands::List);
                i = i + 1;
            } else if is_word(a, "status") {
                cmd = Some(Commands::Status);
                i = i + 1;
            } else if is_word(a, "--help") || is_word(a, "-h") {
                return Some(Err(ArgsExit::Help));
            } else {
                let mut m = String::from_str("Unknown argument: ");
                m.append(a.as_str());
                return Some(Err(ArgsExit::Invalid(m)));
            }
        } else if mode == 1 {
            if i < n && !starts_with_dash(&args[i]) {
                assert(words[i as int] == args@[i as int]@);
                let default = String::from_str("255.255.255.255");
                if mac.as_str().is_empty() {
                    mac = copy_string(&args[i]);
                } else if bc == default {
                    bc = copy_string(&args[i]);
                }
                i = i + 1;
            } else {
                mode = 2;
            }
        } else {
            if i < n && (is_word(&args[i], "--mac") || is_word(&args[i], "-m")) {
                assert(words[i as int] == args@[i as int]@);
                if i + 1 < n {
                    assert(words[i + 1] == args@[i + 1]@);
                    mac = copy_string(&args[i + 1]);
                    i = i + 2;
                } else {
                    return None;
                }
            } else if i < n && (is_word(&args[i], "--broadcast") || is_word(&args[i], "-b")) {
                assert(words[i as int] == args@[i as int]@);
                if i + 1 < n {
                    assert(words[i + 1] == args@[i + 1]@);
                    bc = copy_string(&args[i + 1]);
                    i = i + 2;
                } else {
                    return None;
                }
            } else {
                proof {
                    if i < n {
                        assert(words[i as int] == args@[i as int]@);
                    }
                }
                if mac.as_str().is_empty() {
                    return Some(
                        Err(
                            ArgsExit::Invalid(
                                String::from_str("Error: wol command requires --mac argument"),
                            ),
                        ),
                    );
                }
                cmd = Some(Commands::Wol { mac: copy_string(&mac), broadcast: copy_string(&bc) });
                mode = 0;
            }
        }
    }
}

impl Args {
    /// Whether reading `args` never ends: a `wol` option that needs a value
    /// (`--mac`, `-m`, `--broadcast`, `-b`) comes last.
    pub fn stalls(args: &Vec<String>) -> (r: bool)
        ensures
            r == (cli_outcome(string_views(args@)) is Stalls),
    {
        read_command_line(args).is_none()
    }

    /// Reads the command line `args`, whose first word is the program's name:
    /// `--server-url`/`-s` with a URL, `wol` with a MAC address and a
    /// broadcast address (as words or with `--mac`/`-m` and `--broadcast`/`-b`),
    /// `list`, `status`, or `--help`/`-h`.
    pub fn new(args: &Vec<String>) -> (r: Result<Args, ArgsExit>)
        requires
            !(cli_outcome(string_views(args@)) is Stalls),
        ensures
            outcome_view(Some(r)) == cli_outcome(string_views(args@)),
    {
        match read_command_line(args) {
            Some(r) => r,
            None => {
                assert(false);
                Err(ArgsExit::Help)
            },
        }
    }
}


proof fn lemma_literals()
    ensures
        "wol"@ != "--server-url"@ && "wol"@ != "-s"@,
        "-m"@ != "--server-url"@ && "-m"@ != "-s"@,
        is_option("-b"@) && is_option("--broadcast"@) && is_option("-m"@),
        "-b"@ != "--mac"@ && "-b"@ != "-m"@,
        "--broadcast"@ != "--mac"@ && "--broadcast"@ != "-m"@,
        default_broadcast().len() > 0,
{
    reveal_strlit("wol");
    reveal_strlit("-b");
    reveal_strlit("--broadcast");
    reveal_strlit("--server-url");
    reveal_strlit("-s");
    reveal_strlit("--mac");
    reveal_strlit("-m");
    reveal_strlit("255.255.255.255");
    assert("wol"@.len() != "--server-url"@.len());
    assert("wol"@[0] != "-s"@[0]);
    assert("-m"@.len() != "--server-url"@.len());
    assert("-m"@[1] != "-s"@[1]);
    assert("-b"@[1] != "-m"@[1]);
    assert("--broadcast"@[2] != "--mac"@[2]);
}

/// After `wol` and the MAC address `m` as a word, the broadcast option `o`
/// (`-b` or `--broadcast`) with `x` is the end of a `wol` command.
proof fn lemma_wol_word_then_option(args: Seq<Seq<char>>, m: Seq<char>, o: Seq<char>, x: Seq<char>)
    requires
        args.len() == 5,
        args[1] == "wol"@,
        args[2] == m,
        args[3] == o,
        args[4] == x,
        o == "-b"@ || o == "--broadcast"@,
        m.len() > 0,
        !is_option(m),
    ensures
        cli_outcome(args) == CliSpec::Parsed(default_server_url(), Some(CommandSpec::Wol(m, x))),
{
    lemma_literals();
    let url = default_server_url();
    let d = default_broadcast();
    assert(cli_run(args, 5, url, Some(CommandSpec::Wol(m, x)), CliMode::Top) == CliSpec::Parsed(
        url,
        Some(CommandSpec::Wol(m, x)),
    ));
    assert(cli_run(args, 5, url, None, CliMode::WolOptions(m, x)) == cli_run(
        args,
        5,
        url,
        Some(CommandSpec::Wol(m, x)),
        CliMode::Top,
    ));
    assert(cli_run(args, 3, url, None, CliMode::WolOptions(m, d)) == cli_run(
        args,
        5,
        url,
        None,
        CliMode::WolOptions(m, x),
    ));
    assert(cli_run(args, 3, url, None, CliMode::WolWords(m, d)) == cli_run(
        args,
        3,
        url,
        None,
        CliMode::WolOptions(m, d),
    ));
    assert(cli_run(args, 2, url, None, CliMode::WolWords(Seq::empty(), d)) == cli_run(
        args,
        3,
        url,
        None,
        CliMode::WolWords(m, d),
    ));
    assert(cli_run(args, 1, url, None, CliMode::Top) == cli_run(
        args,
        2,
        url,
        None,
        CliMode::WolWords(Seq::empty(), d),
    ));
}

proof fn lemma_wol_mac_option_then_broadcast(args: Seq<Seq<char>>, m: Seq<char>, x: Seq<char>)
    requires
        args.len() == 6,
        args[1] == "wol"@,
        args[2] == "-m"@,
        args[3] == m,
        args[4] == "-b"@,
        args[5] == x,
        m.len() > 0,
    ensures
        cli_outcome(args) == CliSpec::Parsed(default_server_url(), Some(CommandSpec::Wol(m, x))),
{
    lemma_literals();
    let url = default_server_url();
    let d = default_broadcast();
    assert(cli_run(args, 6, url, Some(CommandSpec::Wol(m, x)), CliMode::Top) == CliSpec::Parsed(
        url,
        Some(CommandSpec::Wol(m, x)),
    ));
    assert(cli_run(args, 6, url, None, CliMode::WolOptions(m, x)) == cli_run(
        args,
        6,
        url,
        Some(CommandSpec::Wol(m, x)),
        CliMode::Top,
    ));
    assert(cli_run(args, 4, url, None, CliMode::WolOptions(m, d)) == cli_run(
        args,
        6,
        url,
        None,
        CliMode::WolOptions(m, x),
    ));
    assert(cli_run(args, 2, url, None, CliMode::WolOptions(Seq::empty(), d)) == cli_run(
        args,
        4,
        url,
        None,
        CliMode::WolOptions(m, d),
    ));
    assert(cli_run(args, 2, url, None, CliMode::WolWords(Seq::empty(), d)) == cli_run(
        args,
        2,
        url,
        None,
        CliMode::WolOptions(Seq::empty(), d),
    ));
    assert(cli_run(args, 1, url, None, CliMode::Top) == cli_run(
        args,
        2,
        url,
        None,
        CliMode::WolWords(Seq::empty(), d),
    ));
}

proof fn lemma_wol_two_words(args: Seq<Seq<char>>, m: Seq<char>, x: Seq<char>)
    requires
        args.len() == 4,
        args[1] == "wol"@,
        args[2] == m,
        args[3] == x,
        m.len() > 0,
        !is_option(m),
        !is_option(x),
    ensures
        cli_outcome(args) == CliSpec::Parsed(default_server_url(), Some(CommandSpec::Wol(m, x))),
{
    lemma_literals();
    let url = default_server_url();
    let d = default_broadcast();
    assert(cli_run(args, 4, url, Some(CommandSpec::Wol(m, x)), CliMode::Top) == CliSpec::Parsed(
        url,
        Some(CommandSpec::Wol(m, x)),
    ));
    assert(cli_run(args, 4, url, None, CliMode::WolOptions(m, x)) == cli_run(
        args,
        4,
        url,
        Some(CommandSpec::Wol(m, x)),
        CliMode::Top,
    ));
    assert(cli_run(args, 4, url, None, CliMode::WolWords(m, x)) == cli_run(
        args,
        4,
        url,
        None,
        CliMode::WolOptions(m, x),
    ));
    assert(cli_run(args, 3, url, None, CliMode::WolWords(m, d)) == cli_run(
        args,
        4,
        url,
        None,
        CliMode::WolWords(m, x),
    ));
    assert(cli_run(args, 2, url, None, CliMode::WolWords(Seq::empty(), d)) == cli_run(
        args,
        3,
        url,
        None,
        CliMode::WolWords(m, d),
    ));
    assert(cli_run(args, 1, url, None, CliMode::Top) == cli_run(
        args,
        2,
        url,
        None,
        CliMode::WolWords(Seq::empty(), d),
    ));
}

/// The broadcast address of `wol` is read alike in its short and long
/// option and as a second word: `wol M -b X`, `wol M --broadcast X`,
/// `wol -m M -b X` and `wol M X` all ask to wake `M` through `X`.
pub proof fn lemma_wol_broadcast_forms(prog: Seq<char>, m: Seq<char>, x: Seq<char>)
    requires
        m.len() > 0,
        !is_option(m),
    ensures
        cli_outcome(seq![prog, "wol"@, m, "-b"@, x]) == CliSpec::Parsed(
            default_server_url(),
            Some(CommandSpec::Wol(m, x)),
        ),
        cli_outcome(seq![prog, "wol"@, m, "--broadcast"@, x]) == CliSpec::Parsed(
            default_server_url(),
            Some(CommandSpec::Wol(m, x)),
        ),
        cli_outcome(seq![prog, "wol"@, "-m"@, m, "-b"@, x]) == CliSpec::Parsed(
            default_server_url(),
            Some(CommandSpec::Wol(m, x)),
        ),
        !is_option(x) ==> cli_outcome(seq![prog, "wol"@, m, x]) == CliSpec::Parsed(
            default_server_url(),
            Some(CommandSpec::Wol(m, x)),
        ),
{
    lemma_wol_word_then_option(seq![prog, "wol"@, m, "-b"@, x], m, "-b"@, x);
    lemma_wol_word_then_option(seq![prog, "wol"@, m, "--broadcast"@, x], m, "--broadcast"@, x);
    lemma_wol_mac_option_then_broadcast(seq![prog, "wol"@, "-m"@, m, "-b"@, x], m, x);
    if !is_option(x) {
        lemma_wol_two_words(seq![prog, "wol"@, m, x], m, x);
    }
}

/// The WebSocket address of the server: its URL with `http` replaced by `ws`,
/// then `https` by `wss`, followed by `/ws`.
pub open spec fn websocket_url_of(server_url: Seq<char>) -> Seq<char> {
    replace_all(replace_all(server_url, "http"@, "ws"@), "https"@, "wss"@) + "/ws"@
}

pub fn websocket_url(server_url: &str) -> (r: String)
    ensures
        r@ == websocket_url_of(server_url@),
{
    let url = chars_of(server_url);
    let http = chars_of("http");
    let ws = chars_of("ws");
    let https = chars_of("https");
    let wss = chars_of("wss");
    proof {
        reveal_strlit("http");
        reveal_strlit("https");
    }
    let once = replace_chars(url.as_slice(), http.as_slice(), ws.as_slice());
    let twice = replace_chars(once.as_slice(), https.as_slice(), wss.as_slice());
    let mut r = string_of(twice.as_slice());
    r.append("/ws");
    r
}

} // verus!
