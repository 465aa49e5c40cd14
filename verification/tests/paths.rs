use sonicbot_matrix::bot::{directory_path, join_path, presence_text, send_path};
use sonicbot_matrix::PresenceState;

#[test]
fn join_path_percent_encodes_the_room() {
    assert_eq!(join_path("!abc:example.org"), "rooms/%21abc%3Aexample.org/join");
    assert_eq!(join_path("a-b_c.d~e"), "rooms/a-b_c.d~e/join");
    assert_eq!(join_path("é"), "rooms/%C3%A9/join");
}

#[test]
fn directory_path_percent_encodes_the_alias() {
    assert_eq!(directory_path("#room:example.org"), "directory/room/%23room%3Aexample.org");
}

#[test]
fn send_path_names_room_and_transaction() {
    assert_eq!(
        send_path("!abc:example.org", "0123abcd"),
        "rooms/!abc:example.org/send/m.room.message/0123abcd"
    );
}

#[test]
fn presence_words() {
    assert_eq!(presence_text(PresenceState::Online), "online");
    assert_eq!(presence_text(PresenceState::Unavailable), "unavailable");
}
