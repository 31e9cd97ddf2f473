use chat_relay::identity::id_eq;
use chat_relay::identity::Identity;
use chat_relay::ids::generate_unique_u32;
use chat_relay::ids::IdCounter;
use chat_relay::keylist::candidate_keys;
use chat_relay::router::Intent;
use chat_relay::session::Session;
use chat_relay::session::SessionEvent;
use chat_relay::session::SessionState;
use chat_relay::shell_proto::missing_arg_bytes;
use chat_relay::shell_proto::shell_step;

fn b(s: &str) -> Vec<u8> {
    s.as_bytes().to_vec()
}

#[test]
fn session_negotiates_then_registers() {
    let mut s = Session::new();
    assert_eq!(s.state, SessionState::Negotiating);
    let intent = s.on_event(SessionEvent::Line(b("alice")));
    assert_eq!(s.state, SessionState::Active);
    match intent {
        Some(Intent::NewClient { identity }) => {
            assert!(id_eq(&identity, &Identity::Name(b("alice"))));
        },
        _ => panic!("expected a registration"),
    }
}

#[test]
fn session_that_loses_its_peer_never_registers() {
    let mut s = Session::new();
    let intent = s.on_event(SessionEvent::Eof);
    assert!(intent.is_none());
    assert_eq!(s.state, SessionState::Closed);
}

#[test]
fn active_session_submits_parsed_lines() {
    let mut s = Session::new();
    s.on_event(SessionEvent::Line(b("alice")));
    let intent = s.on_event(SessionEvent::Line(b("bob: yo")));
    match intent {
        Some(Intent::Message { from, to, body }) => {
            assert!(id_eq(&from, &Identity::Name(b("alice"))));
            assert_eq!(to.len(), 1);
            assert!(id_eq(&to[0], &Identity::Name(b("bob"))));
            assert_eq!(body, b("yo"));
        },
        _ => panic!("expected a message"),
    }
    assert_eq!(s.state, SessionState::Active);
}

#[test]
fn colonless_line_submits_nothing() {
    let mut s = Session::new();
    s.on_event(SessionEvent::Line(b("alice")));
    assert!(s.on_event(SessionEvent::Line(b("just text"))).is_none());
    assert_eq!(s.state, SessionState::Active);
}

#[test]
fn stream_end_is_an_implicit_disconnect() {
    let mut s = Session::new();
    s.on_event(SessionEvent::Line(b("alice")));
    let intent = s.on_event(SessionEvent::Eof);
    match intent {
        Some(Intent::Disconnect { identity }) => {
            assert!(id_eq(&identity, &Identity::Name(b("alice"))));
        },
        _ => panic!("expected a disconnect"),
    }
    assert_eq!(s.state, SessionState::Closing);
}

#[test]
fn shutdown_stops_reading_but_keeps_the_entry() {
    let mut s = Session::new();
    s.on_event(SessionEvent::Line(b("alice")));
    assert!(s.on_event(SessionEvent::Shutdown).is_none());
    assert_eq!(s.state, SessionState::Closing);
    assert!(s.on_event(SessionEvent::Line(b("x: y"))).is_none());
    assert_eq!(s.state, SessionState::Closed);
}

#[test]
fn shell_step_dispatches_every_verb() {
    let send = shell_step(1, &b("/message 2 hello"));
    assert!(send.intent.is_some());
    assert!(!send.reply_usage && !send.reply_clients && !send.close);
    match send.intent.unwrap() {
        Intent::Message { from, to, body } => {
            assert!(id_eq(&from, &Identity::Id(1)));
            assert_eq!(to.len(), 1);
            assert!(id_eq(&to[0], &Identity::Id(2)));
            assert_eq!(body, b("hello"));
        },
        _ => panic!("expected a message"),
    }

    let usage = shell_step(1, &b("/message"));
    assert!(usage.intent.is_none() && usage.reply_usage && !usage.close);

    let clients = shell_step(1, &b("/clients"));
    assert!(clients.intent.is_none() && clients.reply_clients && !clients.close);

    let quit = shell_step(1, &b("/quit"));
    assert!(quit.close);
    match quit.intent.unwrap() {
        Intent::Disconnect { identity } => assert!(id_eq(&identity, &Identity::Id(1))),
        _ => panic!("expected a disconnect"),
    }

    let nop = shell_step(1, &b("anything else"));
    assert!(nop.intent.is_none() && !nop.reply_usage && !nop.reply_clients && !nop.close);
}

#[test]
fn usage_notice_text_matches_the_protocol() {
    assert_eq!(
        missing_arg_bytes(),
        b("Input must include the receiver id, then message")
    );
}

#[test]
fn id_counter_is_monotonic_from_zero() {
    let mut c = IdCounter::new();
    assert_eq!(c.fresh(), 0);
    assert_eq!(c.fresh(), 1);
    assert_eq!(c.fresh(), 2);
}

#[test]
fn generated_number_is_never_taken() {
    let taken = vec![1u32, 2, 3];
    if let Some(v) = generate_unique_u32(&taken, 64) {
        assert!(!taken.contains(&v));
    } else {
        panic!("sixty-four draws all collided with a three-element list");
    }
    assert!(generate_unique_u32(&Vec::new(), 1).is_some());
}

#[test]
fn allow_list_lines_yield_their_key_token() {
    let text = b("ssh-ed25519 AAAAkey1 user@host\nBBBBbare\n\nssh-rsa CCCCkey3\n");
    let c = candidate_keys(&text);
    assert_eq!(c, vec![b("AAAAkey1"), b("BBBBbare"), b("CCCCkey3")]);
}

#[test]
fn allow_list_handles_crlf_line_endings() {
    let text = b("ssh-ed25519 AAAAkey1 note\r\nssh-ed25519 BBBBkey2\r\n");
    let c = candidate_keys(&text);
    assert_eq!(c, vec![b("AAAAkey1"), b("BBBBkey2")]);
}

fn wire_bytes(base64: &str) -> Vec<u8> {
    russh::keys::PublicKeyBase64::public_key_bytes(
        &russh::keys::parse_public_key_base64(base64).unwrap(),
    )
}

#[test]
fn allow_list_admits_the_offered_key() {
    let good = "AAAAC3NzaC1lZDI1NTE5AAAAIJdD7y3aLq454yWBdwLWbieU1ebz9/cu7/QEXn9OIeZJ";
    let client = wire_bytes(good);
    let listed = format!("ssh-ed25519 {} someone@somewhere\n", good);
    assert_eq!(
        chat_relay::keylist::check_public_key(&b(&listed), &client).unwrap(),
        true
    );
}

#[test]
fn allow_list_without_the_key_rejects_it() {
    let good = "AAAAC3NzaC1lZDI1NTE5AAAAIJdD7y3aLq454yWBdwLWbieU1ebz9/cu7/QEXn9OIeZJ";
    let other = "AAAAC3NzaC1lZDI1NTE5AAAAIJdD7y3aLq464yWBdwLWbieU1ebz9/cu7/QEXn9OIeZJ";
    let client = wire_bytes(good);
    assert_eq!(
        chat_relay::keylist::check_public_key(&b(""), &client).unwrap(),
        false
    );
    let listed = format!("ssh-ed25519 {} someone@somewhere\n", other);
    assert_eq!(
        chat_relay::keylist::check_public_key(&b(&listed), &client).unwrap(),
        false
    );
}

#[test]
fn allow_list_with_an_undecodable_line_reports_the_error() {
    let good = "AAAAC3NzaC1lZDI1NTE5AAAAIJdD7y3aLq454yWBdwLWbieU1ebz9/cu7/QEXn9OIeZJ";
    let client = wire_bytes(good);
    let unrelated = b("ssh-ed25519 AAAA+garbage+that+cannot+decode comment\n");
    assert!(chat_relay::keylist::check_public_key(&unrelated, &client).is_err());
}

#[test]
fn allow_list_match_wins_over_a_later_bad_line() {
    let good = "AAAAC3NzaC1lZDI1NTE5AAAAIJdD7y3aLq454yWBdwLWbieU1ebz9/cu7/QEXn9OIeZJ";
    let client = wire_bytes(good);
    let listed = format!(
        "ssh-ed25519 {} someone@somewhere\nssh-ed25519 AAAA+not+base64 bad\n",
        good
    );
    assert_eq!(
        chat_relay::keylist::check_public_key(&b(&listed), &client).unwrap(),
        true
    );
    let reversed = format!(
        "ssh-ed25519 AAAA+not+base64 bad\nssh-ed25519 {} someone@somewhere\n",
        good
    );
    assert!(chat_relay::keylist::check_public_key(&b(&reversed), &client).is_err());
}
