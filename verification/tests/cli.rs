use wapplatalk::cli::{parse_args, CliError, Invocation, Mode, Options};

fn args(list: &[&str]) -> Vec<String> {
    list.iter().map(|s| s.to_string()).collect()
}

fn run(mode: Mode, tui: bool, debug: bool, ip: &str) -> Result<Invocation, CliError> {
    Ok(Invocation::Run(Options { mode, tui, debug, ip: ip.to_string() }))
}

const HOME: &str = "kopatz.dev:1234";

#[test]
fn no_arguments_mean_a_client_with_the_interface() {
    assert_eq!(parse_args(&args(&[])), run(Mode::Client, true, false, HOME));
}

#[test]
fn client_flag_turns_the_interface_on() {
    assert_eq!(parse_args(&args(&["--client"])), run(Mode::Client, true, false, HOME));
}

#[test]
fn server_flag() {
    assert_eq!(parse_args(&args(&["--server"])), run(Mode::Server, false, false, HOME));
    assert_eq!(parse_args(&args(&["--server", "--debug"])), run(Mode::Server, false, true, HOME));
}

#[test]
fn no_tui_flag() {
    assert_eq!(parse_args(&args(&["--no-tui"])), run(Mode::Client, false, false, HOME));
    assert_eq!(parse_args(&args(&["--client", "--no-tui"])), run(Mode::Client, false, false, HOME));
    assert_eq!(parse_args(&args(&["--no-tui", "--client"])), run(Mode::Client, true, false, HOME));
}

#[test]
fn ip_flag_takes_the_next_argument() {
    assert_eq!(
        parse_args(&args(&["--ip", "192.0.2.1:1234"])),
        run(Mode::Client, true, false, "192.0.2.1:1234")
    );
    assert_eq!(
        parse_args(&args(&["--ip", "--server"])),
        run(Mode::Client, true, false, "--server")
    );
    assert_eq!(
        parse_args(&args(&["--ip", "a:1", "--debug", "--ip", "b:2"])),
        run(Mode::Client, true, true, "b:2")
    );
}

#[test]
fn ip_flag_without_an_address_is_refused() {
    assert_eq!(parse_args(&args(&["--ip"])), Err(CliError::MissingAddress));
    assert_eq!(parse_args(&args(&["--server", "--ip"])), Err(CliError::MissingAddress));
}

#[test]
fn unknown_argument_is_refused() {
    assert_eq!(
        parse_args(&args(&["--verbose"])),
        Err(CliError::UnknownArgument("--verbose".to_string()))
    );
    assert_eq!(
        parse_args(&args(&["--server", "extra", "--help"])),
        Err(CliError::UnknownArgument("extra".to_string()))
    );
    assert_eq!(parse_args(&args(&[""])), Err(CliError::UnknownArgument(String::new())));
}

#[test]
fn help_ends_the_reading() {
    assert_eq!(parse_args(&args(&["--help"])), Ok(Invocation::Help));
    assert_eq!(parse_args(&args(&["--h"])), Ok(Invocation::Help));
    assert_eq!(parse_args(&args(&["--server", "--client", "--help", "junk"])), Ok(Invocation::Help));
}

#[test]
fn server_and_client_together_are_refused() {
    assert_eq!(parse_args(&args(&["--server", "--client"])), Err(CliError::Conflict));
    assert_eq!(parse_args(&args(&["--client", "--debug", "--server"])), Err(CliError::Conflict));
}
