use herdr_control::cli::{
    await_socket, client_info_from_env, close_request_line, control_command, download_step,
    exit_status, opened_status, upload_step, AwaitStep, ControlCommand, CopyStep, ReadEvent,
};

fn client(protocol: Option<&str>, label: Option<&str>) -> Option<(String, String, u32)> {
    client_info_from_env(
        protocol.map(str::to_owned),
        label.map(str::to_owned),
        "1.2.3".into(),
    )
    .map(|client| (client.name, client.version, client.protocol))
}

fn named(name: &str, version: &str, protocol: u32) -> Option<(String, String, u32)> {
    Some((name.to_owned(), version.to_owned(), protocol))
}

#[test]
fn the_first_argument_decides() {
    assert!(matches!(control_command(&vec![]), ControlCommand::Bridge));
    for argument in ["help", "--help", "-h"] {
        let command = control_command(&vec![argument.to_owned(), "more".to_owned()]);
        assert!(matches!(command, ControlCommand::Help));
        assert_eq!(exit_status(&command), Some(0));
    }
    let command = control_command(&vec!["--nope".to_owned()]);
    assert_eq!(exit_status(&command), Some(2));
    assert!(matches!(command, ControlCommand::Unknown { option } if option == "--nope"));
    assert_eq!(exit_status(&ControlCommand::Bridge), None);
}

#[test]
fn clients_are_named_by_their_environment() {
    assert_eq!(client(None, None), None);
    assert_eq!(client(Some("two"), Some("  ")), None);
    assert_eq!(client(Some("2"), None), named("herdr-control", "1.2.3", 2));
    assert_eq!(client(Some(" 2\n"), Some("")), named("herdr-control", "1.2.3", 2));
    assert_eq!(client(None, Some("app/2.0")), named("app", "2.0", 1));
    assert_eq!(client(None, Some(" app/2/0 ")), named("app", "2/0", 1));
    assert_eq!(client(Some("3"), Some("app")), named("app", "", 3));
    assert_eq!(client(None, Some("/2")), named("", "2", 1));
    assert_eq!(
        client(None, Some("\u{2003}r\u{f6}ot/\u{3b2}")),
        named("r\u{f6}ot", "\u{3b2}", 1)
    );
}

#[test]
fn protocols_are_read_as_numbers() {
    for (text, protocol) in [
        ("0", 0),
        ("007", 7),
        ("+2", 2),
        ("4294967295", u32::MAX),
    ] {
        assert_eq!(
            client(Some(text), None),
            named("herdr-control", "1.2.3", protocol)
        );
        assert_eq!(text.parse::<u32>(), Ok(protocol));
    }
    for text in ["", "+", "-1", "++1", "1 2", "2.0", "4294967296", "99999999999999999999", "\u{661}"] {
        assert_eq!(client(Some(text), None), None);
        assert!(text.parse::<u32>().is_err());
    }
}

#[test]
fn a_failed_open_ends_the_bridge() {
    assert_eq!(opened_status("{\"id\":\"control\",\"result\":{}}\n"), None);
    assert_eq!(opened_status("{\"id\":\"control\",\"error\":{}}\n"), Some(1));
    assert_eq!(opened_status("\n"), Some(1));
}

#[test]
fn copying_goes_on_until_an_end() {
    assert_eq!(upload_step(ReadEvent::Data), CopyStep::Forward);
    assert_eq!(upload_step(ReadEvent::Interrupted), CopyStep::Again);
    assert_eq!(upload_step(ReadEvent::End), CopyStep::Finish);
    assert_eq!(upload_step(ReadEvent::Disconnected), CopyStep::Fail);
    assert_eq!(upload_step(ReadEvent::Failed), CopyStep::Fail);
    assert_eq!(download_step(ReadEvent::Data), CopyStep::Forward);
    assert_eq!(download_step(ReadEvent::Interrupted), CopyStep::Again);
    assert_eq!(download_step(ReadEvent::End), CopyStep::Finish);
    assert_eq!(download_step(ReadEvent::Disconnected), CopyStep::Finish);
    assert_eq!(download_step(ReadEvent::Failed), CopyStep::Fail);
}

#[test]
fn the_end_of_stdin_closes_the_stream() {
    assert_eq!(
        close_request_line(),
        "{\"id\":\"control:close\",\"method\":\"control.close\",\"params\":{}}\n"
    );
}

#[test]
fn a_started_server_has_until_its_deadline() {
    assert_eq!(
        await_socket(0, 100, false),
        AwaitStep::Sleep {
            nanoseconds: 50_000_000
        }
    );
    assert_eq!(await_socket(99, 100, true), AwaitStep::Ready);
    assert_eq!(await_socket(100, 100, true), AwaitStep::TimedOut);
}
