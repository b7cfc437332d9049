use peer::membership::Membership;

#[test]
fn new_membership_is_empty() {
    let m = Membership::new();
    assert_eq!(m.len(), 0);
    assert!(m.is_empty());
    assert_eq!(m.snapshot(), Vec::<String>::new());
    assert_eq!(m.joined_addresses(), "");
}

#[test]
fn add_appends_in_order() {
    let mut m = Membership::new();
    m.add("127.0.0.1:8001".to_string());
    m.add("127.0.0.1:8002".to_string());
    m.add("127.0.0.1:8003".to_string());
    assert_eq!(m.len(), 3);
    assert!(!m.is_empty());
    assert_eq!(m.snapshot(), vec!["127.0.0.1:8001".to_string(), "127.0.0.1:8002".to_string(), "127.0.0.1:8003".to_string()]);
    assert_eq!(m.peer(0), "127.0.0.1:8001");
    assert_eq!(m.peer(2), "127.0.0.1:8003");
}

#[test]
fn add_keeps_duplicates() {
    let mut m = Membership::new();
    m.add("127.0.0.1:8001".to_string());
    m.add("127.0.0.1:8001".to_string());
    assert_eq!(m.len(), 2);
    assert_eq!(m.snapshot(), vec!["127.0.0.1:8001".to_string(), "127.0.0.1:8001".to_string()]);
    assert_eq!(m.joined_addresses(), "127.0.0.1:8001 127.0.0.1:8001");
}

#[test]
fn joined_addresses_separates_with_spaces() {
    let mut m = Membership::new();
    m.add("127.0.0.1:8000".to_string());
    assert_eq!(m.joined_addresses(), "127.0.0.1:8000");
    m.add("127.0.0.1:8001".to_string());
    assert_eq!(m.joined_addresses(), "127.0.0.1:8000 127.0.0.1:8001");
}

#[test]
fn snapshot_is_a_copy() {
    let mut m = Membership::new();
    m.add("127.0.0.1:8001".to_string());
    let before = m.snapshot();
    m.add("127.0.0.1:8002".to_string());
    assert_eq!(before, vec!["127.0.0.1:8001".to_string()]);
    assert_eq!(m.snapshot().len(), 2);
}
