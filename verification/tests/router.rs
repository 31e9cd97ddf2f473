use chat_relay::identity::id_eq;
use chat_relay::identity::Identity;
use chat_relay::line_proto::intent_for_line;
use chat_relay::router::Delivery;
use chat_relay::router::Intent;
use chat_relay::router::Router;

fn b(s: &str) -> Vec<u8> {
    s.as_bytes().to_vec()
}

fn name(s: &str) -> Identity {
    Identity::Name(b(s))
}

fn register_names(router: &mut Router, names: &[&str]) {
    for n in names {
        let out = router.step(Intent::NewClient { identity: name(n) });
        assert!(out.registered);
    }
}

fn deliveries_to<'a>(ds: &'a [Delivery], who: &Identity) -> Vec<&'a Delivery> {
    ds.iter().filter(|d| id_eq(&d.to, who)).collect()
}

#[test]
fn unicast_reaches_exactly_the_addressee() {
    let mut router = Router::new();
    register_names(&mut router, &["A", "B", "C"]);
    let intent = intent_for_line(&name("A"), &b("B: hello")).unwrap();
    let out = router.step(intent);
    assert_eq!(out.deliveries.len(), 1);
    assert!(id_eq(&out.deliveries[0].to, &name("B")));
    assert_eq!(out.deliveries[0].payload, b("A: hello\n"));
}

#[test]
fn multicast_reaches_both_and_never_the_sender() {
    let mut router = Router::new();
    register_names(&mut router, &["A", "B", "C"]);
    let intent = intent_for_line(&name("A"), &b("B,C: hi")).unwrap();
    let out = router.step(intent);
    assert_eq!(out.deliveries.len(), 2);
    assert!(id_eq(&out.deliveries[0].to, &name("B")));
    assert!(id_eq(&out.deliveries[1].to, &name("C")));
    assert!(deliveries_to(&out.deliveries, &name("A")).is_empty());
    for d in &out.deliveries {
        assert_eq!(d.payload, b("A: hi\n"));
    }
}

#[test]
fn multicast_to_self_is_allowed_when_addressed() {
    let mut router = Router::new();
    register_names(&mut router, &["A", "B"]);
    let intent = intent_for_line(&name("A"), &b("A,B: echo")).unwrap();
    let out = router.step(intent);
    assert_eq!(out.deliveries.len(), 2);
    assert!(id_eq(&out.deliveries[0].to, &name("A")));
}

#[test]
fn unknown_recipients_are_silently_skipped() {
    let mut router = Router::new();
    register_names(&mut router, &["A", "B"]);
    let intent = intent_for_line(&name("A"), &b("Z,B: psst")).unwrap();
    let out = router.step(intent);
    assert_eq!(out.deliveries.len(), 1);
    assert!(id_eq(&out.deliveries[0].to, &name("B")));
}

#[test]
fn broadcast_reaches_everyone_but_the_sender() {
    let mut router = Router::new();
    register_names(&mut router, &["a", "b", "c"]);
    let intent = intent_for_line(&name("a"), &b("all: hey")).unwrap();
    let out = router.step(intent);
    assert_eq!(out.deliveries.len(), 2);
    assert!(id_eq(&out.deliveries[0].to, &name("b")));
    assert!(id_eq(&out.deliveries[1].to, &name("c")));
    for d in &out.deliveries {
        assert_eq!(d.payload, b("a: hey\n"));
    }
}

#[test]
fn late_joiner_misses_the_earlier_broadcast() {
    let mut router = Router::new();
    register_names(&mut router, &["a", "b"]);
    let first = router.step(intent_for_line(&name("a"), &b("all: early")).unwrap());
    assert!(deliveries_to(&first.deliveries, &name("d")).is_empty());
    let joined = router.step(Intent::NewClient { identity: name("d") });
    assert!(joined.registered);
    assert!(joined.deliveries.is_empty());
    let second = router.step(intent_for_line(&name("a"), &b("all: late")).unwrap());
    assert_eq!(deliveries_to(&second.deliveries, &name("d")).len(), 1);
}

#[test]
fn second_registration_loses_silently() {
    let mut router = Router::new();
    register_names(&mut router, &["X", "Y"]);
    let again = router.step(Intent::NewClient { identity: name("X") });
    assert!(!again.registered);
    assert!(router.is_registered(&name("X")));
    let out = router.step(intent_for_line(&name("Y"), &b("X: one copy")).unwrap());
    assert_eq!(deliveries_to(&out.deliveries, &name("X")).len(), 1);
}

#[test]
fn unregistered_sender_may_still_send() {
    let mut router = Router::new();
    register_names(&mut router, &["B"]);
    let out = router.step(intent_for_line(&name("ghost"), &b("B: boo")).unwrap());
    assert_eq!(out.deliveries.len(), 1);
    assert_eq!(out.deliveries[0].payload, b("ghost: boo\n"));
}

#[test]
fn disconnect_removes_the_entry() {
    let mut router = Router::new();
    register_names(&mut router, &["A", "B"]);
    let gone = router.step(Intent::Disconnect { identity: name("B") });
    assert!(gone.removed);
    assert!(!router.is_registered(&name("B")));
    let out = router.step(intent_for_line(&name("A"), &b("B: anyone?")).unwrap());
    assert!(out.deliveries.is_empty());
    let again = router.step(Intent::Disconnect { identity: name("B") });
    assert!(!again.removed);
}

#[test]
fn shutdown_notices_reach_every_registered_identity_once() {
    let mut router = Router::new();
    register_names(&mut router, &["a", "b", "c"]);
    router.step(Intent::Disconnect { identity: name("b") });
    let notices = router.shutdown_notices();
    assert_eq!(notices.len(), 2);
    assert!(id_eq(&notices[0].to, &name("a")));
    assert!(id_eq(&notices[1].to, &name("c")));
    for n in &notices {
        assert_eq!(n.payload, b("Admin is shutting down the server..."));
    }
}

#[test]
fn shell_recipients_get_raw_bytes() {
    let mut router = Router::new();
    assert!(router.step(Intent::NewClient { identity: Identity::Id(1) }).registered);
    assert!(router.step(Intent::NewClient { identity: Identity::Id(2) }).registered);
    let body = b("exact bytes,  with  spaces\tand punct!?");
    let mut to = Vec::new();
    to.push(Identity::Id(2));
    let out = router.step(Intent::Message { from: Identity::Id(1), to, body: body.clone() });
    assert_eq!(out.deliveries.len(), 1);
    assert!(id_eq(&out.deliveries[0].to, &Identity::Id(2)));
    assert_eq!(out.deliveries[0].payload, body);
}

#[test]
fn line_payload_round_trips_the_body() {
    let mut router = Router::new();
    register_names(&mut router, &["A", "B"]);
    let body_text = "hi  there!  punct: ;%$#";
    let line = format!("B: {}", body_text);
    let out = router.step(intent_for_line(&name("A"), &b(&line)).unwrap());
    let payload = &out.deliveries[0].payload;
    let expected = format!("A: {}\n", body_text);
    assert_eq!(payload, &b(&expected));
    let prefix_len = "A: ".len();
    assert_eq!(&payload[prefix_len..payload.len() - 1], b(body_text).as_slice());
}

#[test]
fn clients_response_lists_ids_and_names_the_caller() {
    let mut router = Router::new();
    for i in [1u64, 3, 5] {
        assert!(router.step(Intent::NewClient { identity: Identity::Id(i) }).registered);
    }
    let r = router.clients_response(3);
    let text = String::from_utf8(r).unwrap();
    assert_eq!(
        text,
        "\r\r\nFollowing client ids are available to be connected to: 1, 3, 5\r\nYour client id is 3\r\r\n"
    );
    assert!(text.contains("1"));
    assert!(text.contains("3"));
    assert!(text.contains("5"));
    assert!(text.contains("Your client id is 3"));
}

#[test]
fn clients_response_with_no_ids_is_still_well_formed() {
    let router = Router::new();
    let text = String::from_utf8(router.clients_response(9)).unwrap();
    assert_eq!(
        text,
        "\r\r\nFollowing client ids are available to be connected to: \r\nYour client id is 9\r\r\n"
    );
}
