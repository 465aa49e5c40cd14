use sonicbot_matrix::bot::fresh_send_path;

#[test]
fn send_paths_get_fresh_transaction_ids() {
    let prefix = "rooms/!a:x.org/send/m.room.message/";
    let first = fresh_send_path("!a:x.org");
    let second = fresh_send_path("!a:x.org");
    for path in [&first, &second] {
        assert!(path.starts_with(prefix));
        let txid = &path[prefix.len()..];
        assert_eq!(txid.len(), 32);
        assert!(txid.chars().all(|c| c.is_ascii_digit() || ('a'..='f').contains(&c)));
    }
    assert_ne!(first, second);
}
