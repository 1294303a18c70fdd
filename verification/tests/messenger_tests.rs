use collab_notes::collaboration::{Command, InsertString, SetCursorPosition};
use collab_notes::messenger::{
    cursor_position_message, parse_command, parse_message, MessageFault, Mode,
};

fn cursor_of(c: Option<Command>) -> Option<(usize, usize)> {
    match c {
        Some(Command::SetCursorPosition(SetCursorPosition { note_id, pos })) => Some((note_id, pos)),
        _ => None,
    }
}

fn info_of(c: Option<Command>) -> Option<String> {
    match c {
        Some(Command::Info(t)) => Some(t),
        _ => None,
    }
}

#[test]
fn mode_names_parse_in_any_case() {
    assert_eq!(Mode::parse("server"), Ok(Mode::Server));
    assert_eq!(Mode::parse("SERVER"), Ok(Mode::Server));
    assert_eq!(Mode::parse("Client"), Ok(Mode::Client));
    assert_eq!("cLiEnT".parse::<Mode>(), Ok(Mode::Client));
}

#[test]
fn unknown_mode_is_refused_with_its_name() {
    assert_eq!(
        Mode::parse("peer"),
        Err("'peer' is not a valid Mode".to_string())
    );
    assert_eq!(
        " server".parse::<Mode>(),
        Err("' server' is not a valid Mode".to_string())
    );
}

#[test]
fn mode_name_reads_back() {
    assert_eq!(Mode::Server.name(), "server");
    assert_eq!(Mode::Client.name(), "client");
    assert_eq!(Mode::parse(&Mode::Server.name()), Ok(Mode::Server));
    assert_eq!(Mode::parse(&Mode::Client.name()), Ok(Mode::Client));
}

#[test]
fn cursor_message_bytes() {
    assert_eq!(cursor_position_message(3, 17), b"pos:3:17".to_vec());
    assert_eq!(cursor_position_message(0, 0), b"pos:0:0".to_vec());
    assert_eq!(
        cursor_position_message(usize::MAX, 10),
        format!("pos:{}:10", usize::MAX).into_bytes()
    );
}

#[test]
fn cursor_message_round_trip() {
    for (n, p) in [(0, 0), (3, 17), (12, 4096), (usize::MAX, usize::MAX)] {
        let bytes = cursor_position_message(n, p);
        let got = parse_message(&bytes).unwrap();
        assert_eq!(cursor_of(got), Some((n, p)));
    }
}

#[test]
fn position_commands_are_read() {
    assert_eq!(cursor_of(parse_command("pos:1:2")), Some((1, 2)));
    assert_eq!(cursor_of(parse_command("  pos:1:2 \n")), Some((1, 2)));
    assert_eq!(cursor_of(parse_command("pos:+1:007")), Some((1, 7)));
    assert_eq!(cursor_of(parse_command("pos:1:2:3")), Some((1, 2)));
}

#[test]
fn malformed_position_commands_are_ignored() {
    assert!(parse_command("pos:-1:2").is_none());
    assert!(parse_command("pos: 1:2").is_none());
    assert!(parse_command("pos:1:").is_none());
    assert!(parse_command("pos:1:x").is_none());
    assert!(parse_command("pos:x").is_none());
    assert!(parse_command("pos::5").is_none());
    assert!(parse_command("pos:18446744073709551616:1").is_none());
    assert!(parse_command("cur:1:2").is_none());
    assert!(parse_command("").is_none());
}

#[test]
fn single_field_is_information() {
    assert_eq!(info_of(parse_command("hello there")), Some("hello there".to_string()));
    assert_eq!(info_of(parse_command("  pos \t")), Some("pos".to_string()));
    assert_eq!(info_of(parse_command("   ")), Some(String::new()));
}

#[test]
fn missing_position_is_reported() {
    assert!(matches!(parse_message(b"pos:5"), Err(MessageFault::MissingPosition)));
    assert!(matches!(parse_message(b"pos:5\n"), Err(MessageFault::MissingPosition)));
    assert!(matches!(parse_message(b"pos:x"), Ok(None)));
}

#[test]
fn raw_bytes_are_decoded_lossily() {
    assert!(matches!(parse_message(b""), Ok(None)));
    let got = parse_message(&[0x68, 0xff, 0x69]).unwrap();
    assert_eq!(info_of(got), Some("h\u{fffd}i".to_string()));
    let got = parse_message("héllo".as_bytes()).unwrap();
    assert_eq!(info_of(got), Some("héllo".to_string()));
}

#[test]
fn commands_hold_their_fields() {
    let c = Command::InsertString(InsertString { note_id: 2, text: "abc".to_string() });
    match c {
        Command::InsertString(i) => {
            assert_eq!(i.note_id, 2);
            assert_eq!(i.text, "abc");
        }
        _ => unreachable!(),
    }
}
