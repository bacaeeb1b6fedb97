//! The command line.
//!
//! Arguments are read left to right. `--help` ends the reading where it
//! stands; an argument that is not known, or `--ip` without an address after
//! it, is an error where it stands. What the flags mean together is decided
//! only when all have been read.

use vstd::prelude::*;

verus! {

/// What the process is to be.
#[derive(Debug, Clone, Copy, PartialEq, Eq)]
pub enum Mode {
    Server,
    Client,
}

/// What the command line asks for.
#[derive(Debug, PartialEq, Eq)]
pub struct Options {
    pub mode: Mode,
    /// Whether the terminal interface is to run.
    pub tui: bool,
    /// Whether logging is to be verbose.
    pub debug: bool,
    /// The relay's address, as host and port.
    pub ip: String,
}

pub struct OptionsView {
    pub mode: Mode,
    pub tui: bool,
    pub debug: bool,
    pub ip: Seq<char>,
}

impl View for Options {
    type V = OptionsView;

    open spec fn view(&self) -> OptionsView {
        OptionsView { mode: self.mode, tui: self.tui, debug: self.debug, ip: self.ip@ }
    }
}

/// Why a command line is refused.
#[derive(Debug, PartialEq, Eq)]
pub enum CliError {
    /// `--ip` was the last argument.
    MissingAddress,
    /// An argument that is not known.
    UnknownArgument(String),
    /// Both `--server` and `--client` were given.
    Conflict,
}

/// What is to be done on a command line that is not refused.
#[derive(Debug, PartialEq, Eq)]
pub enum Invocation {
    /// Print the usage.
    Help,
    /// Run as the options say.
    Run(Options),
}

/// How the reading of a command line ends, other than by running.
pub enum Stop {
    Help,
    MissingAddress,
    UnknownArgument(Seq<char>),
    Conflict,
}

/// The flags as read so far.
pub struct Flags {
    pub server: bool,
    pub client: bool,
    pub tui: bool,
    pub tui_set: bool,
    pub debug: bool,
    pub ip: Seq<char>,
}

/// The relay that a client turns to when it is given no address.
pub open spec fn default_addr() -> Seq<char> {
    "kopatz.dev:1234"@
}

/// The flags before any argument is read.
pub open spec fn no_flags() -> Flags {
    Flags {
        server: false,
        client: false,
        tui: false,
        tui_set: false,
        debug: false,
        ip: default_addr(),
    }
}

/// The flags after the arguments from position `at` on have been read, or
/// why the reading stopped.
pub open spec fn scanned(args: Seq<Seq<char>>, at: int, flags: Flags) -> Result<Flags, Stop>
    decreases args.len() - at,
{
    if at < 0 || at >= args.len() {
        Ok(flags)
    } else if args[at] == "--server"@ {
        scanned(args, at + 1, Flags { server: true, ..flags })
    } else if args[at] == "--client"@ {
        scanned(args, at + 1, Flags { client: true, tui: true, ..flags })
    } else if args[at] == "--no-tui"@ {
        scanned(args, at + 1, Flags { tui: false, tui_set: true, ..flags })
    } else if args[at] == "--ip"@ {
        if at + 1 < args.len() {
            scanned(args, at + 2, Flags { ip: args[at + 1], ..flags })
        } else {
            Err(Stop::MissingAddress)
        }
    } else if args[at] == "--debug"@ {
        scanned(args, at + 1, Flags { debug: true, ..flags })
    } else if args[at] == "--help"@ || args[at] == "--h"@ {
        Err(Stop::Help)
    } else {
        Err(Stop::UnknownArgument(args[at]))
    }
}

/// What the flags mean together. A process cannot be both server and
/// client. One that is told to be neither is a client, with the terminal
/// interface unless `--no-tui` was given.
pub open spec fn resolved(flags: Flags) -> Result<OptionsView, Stop> {
    if flags.server && flags.client {
        Err(Stop::Conflict)
    } else if !flags.server && !flags.client {
        Ok(
            OptionsView {
                mode: Mode::Client,
                tui: if flags.tui_set {
                    flags.tui
                } else {
                    true
                },
                debug: flags.debug,
                ip: flags.ip,
            },
        )
    } else {
        Ok(
            OptionsView {
                mode: if flags.server {
                    Mode::Server
                } else {
                    Mode::Client
                },
                tui: flags.tui,
                debug: flags.debug,
                ip: flags.ip,
            },
        )
    }
}

/// What a command line asks for, or why it is refused.
pub open spec fn parsed(args: Seq<Seq<char>>) -> Result<OptionsView, Stop> {
    match scanned(args, 0, no_flags()) {
        Ok(flags) => resolved(flags),
        Err(stop) => Err(stop),
    }
}

/// The texts of a list of arguments.
pub open spec fn arg_texts(args: Seq<String>) -> Seq<Seq<char>> {
    args.map_values(|arg: String| arg@)
}

/// What `parse_args` returns on a command line that asks for `outcome`.
pub open spec fn reported(result: Result<Invocation, CliError>, outcome: Result<OptionsView, Stop>) -> bool {
    match result {
        Ok(Invocation::Run(options)) => outcome == Ok::<OptionsView, Stop>(options@),
        Ok(Invocation::Help) => outcome == Err::<OptionsView, Stop>(Stop::Help),
        Err(CliError::MissingAddress) => outcome == Err::<OptionsView, Stop>(Stop::MissingAddress),
        Err(CliError::UnknownArgument(arg)) => outcome == Err::<OptionsView, Stop>(
            Stop::UnknownArgument(arg@),
        ),
        Err(CliError::Conflict) => outcome == Err::<OptionsView, Stop>(Stop::Conflict),
    }
}

fn is(arg: &String, flag: &str) -> (same: bool)
    ensures
        same == (arg@ == flag@),
{
    let flag = flag.to_owned();
    *arg == flag
}

/// Reads the arguments that follow the program's name.
pub fn parse_args(args: &Vec<String>) -> (result: Result<Invocation, CliError>)
    ensures
        reported(result, parsed(arg_texts(args@))),
{
    let ghost texts = arg_texts(args@);
    let mut server = false;
    let mut client = false;
    let mut tui = false;
    let mut tui_set = false;
    let mut debug = false;
    let mut ip: String = "kopatz.dev:1234".to_owned();
    let mut at: usize = 0;
    while at < args.len()
        invariant
            at <= args.len(),
            texts == arg_texts(args@),
            scanned(texts, 0, no_flags()) == scanned(
                texts,
                at as int,
                Flags { server, client, tui, tui_set, debug, ip: ip@ },
            ),
        decreases args.len() - at,
    {
        let arg = &args[at];
        assert(texts[at as int] == arg@);
        if is(arg, "--server") {
            server = true;
            at += 1;
        } else if is(arg, "--client") {
            client = true;
            tui = true;
            at += 1;
        } else if is(arg, "--no-tui") {
            tui = false;
            tui_set = true;
            at += 1;
        } else if is(arg, "--ip") {
            if at + 1 < args.len() {
                ip = args[at + 1].clone();
                assert(texts[at as int + 1] == ip@);
                at += 2;
            } else {
                return Err(CliError::MissingAddress);
            }
        } else if is(arg, "--debug") {
            debug = true;
            at += 1;
        } else if is(arg, "--help") || is(arg, "--h") {
            return Ok(Invocation::Help);
        } else {
            return Err(CliError::UnknownArgument(arg.clone()));
        }
    }
    if server && client {
        Err(CliError::Conflict)
    } else if !server && !client {
        Ok(
            Invocation::Run(
                Options {
                    mode: Mode::Client,
                    tui: if tui_set {
                        tui
                    } else {
                        true
                    },
                    debug,
                    ip,
                },
            ),
        )
    } else {
        Ok(
            Invocation::Run(
                Options {
                    mode: if server {
                        Mode::Server
                    } else {
                        Mode::Client
                    },
                    tui,
                    debug,
                    ip,
                },
            ),
        )
    }
}

} // verus!
