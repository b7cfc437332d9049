use peer::listener::{listen, Reaction};
use peer::membership::Membership;
use peer::node_init::{expect_info, init_node, InitError, Phase};
use peer::protocol::{handle_info_protocol, info_requests, Datagram, DecodeError};
use peer::BUFFER_SIZE;

fn received(message: &[u8]) -> Vec<u8> {
    let mut buf = vec![0u8; BUFFER_SIZE];
    buf[..message.len()].copy_from_slice(message);
    buf
}

fn strings(items: &[&str]) -> Vec<String> {
    items.iter().map(|s| s.to_string()).collect()
}

/// Runs the join of a node against the seed's state, the sends to the
/// addresses in `unreachable` failing.
fn join(seed_addr: &str, seed: &mut Membership, joiner_addr: &str, unreachable: &[&str]) -> Membership {
    let mut peers = Membership::new();
    let init = match init_node(&mut peers, 5, Some(seed_addr.to_string())) {
        Ok(Phase::Joining(init)) => init,
        other => panic!("unexpected start {:?}", other),
    };
    assert_eq!(init, Datagram { to: seed_addr.to_string(), bytes: b"INIT".to_vec() });
    let reply = match listen(seed, &received(&init.bytes), BUFFER_SIZE, joiner_addr) {
        Reaction::Welcome(reply) => reply,
        other => panic!("unexpected reaction {:?}", other),
    };
    let payload = expect_info(&received(&reply.bytes), BUFFER_SIZE).unwrap();
    let requests = info_requests(&payload);
    let sent: Vec<bool> = requests.iter().map(|r| !unreachable.contains(&r.to.as_str())).collect();
    handle_info_protocol(&mut peers, &payload, &sent);
    peers
}

#[test]
fn bootstrap_success_scenario() {
    let mut a = Membership::new();
    let b = join("A", &mut a, "B", &[]);
    assert_eq!(b.snapshot(), strings(&["A"]));
    assert_eq!(a.snapshot(), strings(&["B"]));
}

#[test]
fn bootstrap_fan_out_scenario() {
    let mut a = Membership::new();
    a.add("X".to_string());
    a.add("Y".to_string());
    let c = join("A", &mut a, "C", &["Y"]);
    assert_eq!(c.snapshot(), strings(&["A", "X"]));
    assert_eq!(a.snapshot(), strings(&["X", "Y", "C"]));
}

#[test]
fn bootstrap_fan_out_all_reached() {
    let mut a = Membership::new();
    a.add("X".to_string());
    a.add("Y".to_string());
    let c = join("A", &mut a, "C", &[]);
    assert_eq!(c.snapshot(), strings(&["A", "X", "Y"]));
}

#[test]
fn no_seed_goes_straight_to_steady_state() {
    let mut peers = Membership::new();
    assert_eq!(init_node(&mut peers, 1, None), Ok(Phase::SteadyState));
    assert!(peers.is_empty());
}

#[test]
fn seed_is_added_before_any_reply() {
    let mut peers = Membership::new();
    let phase = init_node(&mut peers, 1, Some("127.0.0.1:8000".to_string()));
    assert_eq!(
        phase,
        Ok(Phase::Joining(Datagram { to: "127.0.0.1:8000".to_string(), bytes: b"INIT".to_vec() }))
    );
    assert_eq!(peers.snapshot(), strings(&["127.0.0.1:8000"]));
}

#[test]
fn period_below_one_is_rejected() {
    let mut peers = Membership::new();
    assert_eq!(init_node(&mut peers, 0, None), Err(InitError::InvalidPeriod));
    assert_eq!(init_node(&mut peers, 0, Some("A".to_string())), Err(InitError::InvalidPeriod));
    assert!(peers.is_empty());
}

#[test]
fn largest_period_is_accepted() {
    let mut peers = Membership::new();
    assert_eq!(init_node(&mut peers, u64::MAX, None), Ok(Phase::SteadyState));
}

#[test]
fn reply_must_be_info() {
    assert_eq!(expect_info(&received(b"INFOX Y"), BUFFER_SIZE), Ok("X Y".to_string()));
    assert_eq!(expect_info(&received(b"INFO"), BUFFER_SIZE), Ok(String::new()));
    assert_eq!(
        expect_info(&received(b"GOSPHello!"), BUFFER_SIZE),
        Err(InitError::UnexpectedProtocol("GOSP".to_string()))
    );
    assert_eq!(
        expect_info(&received(b"CONN"), BUFFER_SIZE),
        Err(InitError::UnexpectedProtocol("CONN".to_string()))
    );
    assert_eq!(
        expect_info(&received(b"infoX"), BUFFER_SIZE),
        Err(InitError::UnexpectedProtocol("info".to_string()))
    );
}

#[test]
fn undecodable_reply_ends_the_join() {
    assert_eq!(expect_info(b"IN", 2), Err(InitError::Malformed(DecodeError::TooShort)));
    assert_eq!(
        expect_info(b"INFO\xff\xff", 6),
        Err(InitError::Malformed(DecodeError::InvalidText))
    );
}

#[test]
fn failures_in_words() {
    assert_eq!(InitError::InvalidPeriod.message(), "Period should be more than 0 seconds.");
    assert_eq!(
        InitError::UnexpectedProtocol("GOSP".to_string()).message(),
        "Unexpected protocol received: Expected INFO protocol, got GOSP instead."
    );
    assert_eq!(
        InitError::Malformed(DecodeError::TooShort).message(),
        "Unexpected reply received: too short to hold a message."
    );
    assert_eq!(
        InitError::Malformed(DecodeError::InvalidText).message(),
        "Unexpected reply received: not valid text."
    );
}

#[test]
fn joiner_reads_the_seed_membership_from_a_padded_reply() {
    let mut seed = Membership::new();
    for addr in ["127.0.0.1:8001", "127.0.0.1:8002", "127.0.0.1:8001"] {
        seed.add(addr.to_string());
    }
    let members = seed.snapshot();
    let reply = match listen(&mut seed, b"INIT", 4, "127.0.0.1:9000") {
        Reaction::Welcome(reply) => reply,
        other => panic!("unexpected reaction {:?}", other),
    };
    let payload = expect_info(&received(&reply.bytes), BUFFER_SIZE).unwrap();
    let targets: Vec<String> = info_requests(&payload).into_iter().map(|r| r.to).collect();
    assert_eq!(targets, members);
}
