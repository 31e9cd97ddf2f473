use chat_relay::line_proto::parse_line;
use chat_relay::numbers::parse_u64;
use chat_relay::numbers::u64_to_dec;
use chat_relay::shell_proto::parse_shell;
use chat_relay::shell_proto::ShellCommand;
use chat_relay::text::join;
use chat_relay::text::split;
use chat_relay::text::trim;

fn b(s: &str) -> Vec<u8> {
    s.as_bytes().to_vec()
}

#[test]
fn line_unicast_parses() {
    let p = parse_line(&b("B: hello")).unwrap();
    assert_eq!(p.recipients, vec![b("B")]);
    assert_eq!(p.body, b("hello"));
}

#[test]
fn line_multicast_parses_and_trims() {
    let p = parse_line(&b(" B , C :  hi there  ")).unwrap();
    assert_eq!(p.recipients, vec![b("B"), b("C")]);
    assert_eq!(p.body, b("hi there"));
}

#[test]
fn line_splits_at_first_colon_only() {
    let p = parse_line(&b("B: see: this")).unwrap();
    assert_eq!(p.recipients, vec![b("B")]);
    assert_eq!(p.body, b("see: this"));
}

#[test]
fn line_without_colon_is_discarded() {
    assert!(parse_line(&b("just text")).is_none());
    assert!(parse_line(&b("")).is_none());
}

#[test]
fn line_with_leading_colon_names_the_empty_recipient() {
    let p = parse_line(&b(": x")).unwrap();
    assert_eq!(p.recipients, vec![b("")]);
    assert_eq!(p.body, b("x"));
}

#[test]
fn shell_message_parses() {
    match parse_shell(&b("/message 5 hello world")) {
        ShellCommand::Send { to, body } => {
            assert_eq!(to, 5);
            assert_eq!(body, b("hello world"));
        },
        _ => panic!("expected a send"),
    }
}

#[test]
fn shell_message_keeps_interior_spacing() {
    match parse_shell(&b("/message 5 a  b")) {
        ShellCommand::Send { to, body } => {
            assert_eq!(to, 5);
            assert_eq!(body, b("a  b"));
        },
        _ => panic!("expected a send"),
    }
}

#[test]
fn shell_message_with_no_text_sends_empty_body() {
    match parse_shell(&b("/message 7")) {
        ShellCommand::Send { to, body } => {
            assert_eq!(to, 7);
            assert_eq!(body, b(""));
        },
        _ => panic!("expected a send"),
    }
}

#[test]
fn shell_message_without_id_wants_usage() {
    assert!(matches!(parse_shell(&b("/message")), ShellCommand::SendMissingArg));
}

#[test]
fn shell_message_with_bad_id_is_a_noop() {
    assert!(matches!(parse_shell(&b("/message abc hi")), ShellCommand::Nop));
    assert!(matches!(
        parse_shell(&b("/message 99999999999999999999 hi")),
        ShellCommand::Nop
    ));
}

#[test]
fn shell_clients_and_quit_parse() {
    assert!(matches!(parse_shell(&b("/clients")), ShellCommand::Clients));
    assert!(matches!(parse_shell(&b("/quit")), ShellCommand::Quit));
    assert!(matches!(parse_shell(&b("  /quit \r\n")), ShellCommand::Quit));
}

#[test]
fn shell_anything_else_is_a_noop() {
    assert!(matches!(parse_shell(&b("hello there")), ShellCommand::Nop));
    assert!(matches!(parse_shell(&b("")), ShellCommand::Nop));
    assert!(matches!(parse_shell(&b("   ")), ShellCommand::Nop));
    assert!(matches!(parse_shell(&b("/messages 1 hi")), ShellCommand::Nop));
}

#[test]
fn parse_u64_reads_digit_runs_exactly() {
    assert_eq!(parse_u64(&b("0")), Some(0));
    assert_eq!(parse_u64(&b("42")), Some(42));
    assert_eq!(parse_u64(&b("18446744073709551615")), Some(u64::MAX));
    assert_eq!(parse_u64(&b("18446744073709551616")), None);
    assert_eq!(parse_u64(&b("")), None);
    assert_eq!(parse_u64(&b("12a")), None);
    assert_eq!(parse_u64(&b("-3")), None);
}

#[test]
fn u64_prints_base_ten() {
    assert_eq!(u64_to_dec(0), b("0"));
    assert_eq!(u64_to_dec(1234), b("1234"));
    assert_eq!(u64_to_dec(u64::MAX), b("18446744073709551615"));
}

#[test]
fn trim_removes_ascii_whitespace_at_both_ends() {
    assert_eq!(trim(&b("  hi \r\n")), b("hi"));
    assert_eq!(trim(&b("")), b(""));
    assert_eq!(trim(&b(" \t ")), b(""));
    assert_eq!(trim(&b("a b")), b("a b"));
}

#[test]
fn split_and_join_are_inverse_on_separated_text() {
    let pieces = split(&b("a,b,,c"), b',');
    assert_eq!(pieces, vec![b("a"), b("b"), b(""), b("c")]);
    let sep = b(",");
    assert_eq!(join(&pieces, &sep), b("a,b,,c"));
    assert_eq!(split(&b(""), b','), vec![b("")]);
}
