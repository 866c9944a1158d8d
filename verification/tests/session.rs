use yewchat::codec::encode;
use yewchat::codec::Intent;
use yewchat::session::Chat;
use yewchat::session::Msg;

const AVATAR_PREFIX: &str = "https://avatars.dicebear.com/api/adventurer-neutral/";

fn users_frame(names: &[&str]) -> String {
    let mut list = String::new();
    for (i, n) in names.iter().enumerate() {
        if i > 0 {
            list.push(',');
        }
        list.push('"');
        list.push_str(n);
        list.push('"');
    }
    format!("{{\"messageType\":\"users\",\"dataArray\":[{}],\"data\":null}}", list)
}

fn message_frame(from: &str, body: &str) -> String {
    format!(
        "{{\"messageType\":\"message\",\"dataArray\":null,\"data\":\"{{\\\"from\\\":\\\"{}\\\",\\\"message\\\":\\\"{}\\\"}}\"}}",
        from, body
    )
}

fn roster_names(chat: &Chat) -> Vec<String> {
    let mut names = Vec::new();
    for i in 0..chat.users_len() {
        names.push(chat.user_at(i).name.clone());
    }
    names
}

#[test]
fn users_frame_replaces_roster_wholesale() {
    let (mut chat, _conn) = Chat::create(String::from("alice"));
    let (render, out) = chat.update(Msg::HandleMsg(users_frame(&["a", "b"])));
    assert!(render);
    assert!(out.is_none());
    assert_eq!(roster_names(&chat), vec!["a".to_string(), "b".to_string()]);

    let (render, _) = chat.update(Msg::HandleMsg(users_frame(&["b", "c"])));
    assert!(render);
    assert_eq!(roster_names(&chat), vec!["b".to_string(), "c".to_string()]);
    assert_eq!(chat.user_at(0).avatar, format!("{}b.svg", AVATAR_PREFIX));
    assert_eq!(chat.user_at(1).avatar, format!("{}c.svg", AVATAR_PREFIX));
}

#[test]
fn users_frame_is_idempotent() {
    let (mut chat, _conn) = Chat::create(String::from("alice"));
    chat.update(Msg::HandleMsg(users_frame(&["x", "y"])));
    let once: Vec<(String, String)> = (0..chat.users_len())
        .map(|i| (chat.user_at(i).name.clone(), chat.user_at(i).avatar.clone()))
        .collect();
    chat.update(Msg::HandleMsg(users_frame(&["x", "y"])));
    let twice: Vec<(String, String)> = (0..chat.users_len())
        .map(|i| (chat.user_at(i).name.clone(), chat.user_at(i).avatar.clone()))
        .collect();
    assert_eq!(once, twice);
}

#[test]
fn log_is_append_only_across_interleaved_frames() {
    let (mut chat, _conn) = Chat::create(String::from("alice"));
    chat.update(Msg::HandleMsg(message_frame("a", "one")));
    chat.update(Msg::HandleMsg(users_frame(&["a", "b"])));
    chat.update(Msg::HandleMsg(message_frame("b", "two")));
    chat.update(Msg::HandleMsg(users_frame(&["b"])));
    chat.update(Msg::HandleMsg(message_frame("b", "three")));
    assert_eq!(chat.log_len(), 3);
    let bodies: Vec<String> = (0..3).map(|i| chat.message_at(i).message.clone()).collect();
    assert_eq!(bodies, vec!["one".to_string(), "two".to_string(), "three".to_string()]);
    let senders: Vec<String> = (0..3).map(|i| chat.message_at(i).from.clone()).collect();
    assert_eq!(senders, vec!["a".to_string(), "b".to_string(), "b".to_string()]);
}

#[test]
fn malformed_and_register_frames_change_nothing() {
    let (mut chat, _conn) = Chat::create(String::from("alice"));
    chat.update(Msg::HandleMsg(users_frame(&["a"])));
    let (render, _) = chat.update(Msg::HandleMsg(String::from("not a frame")));
    assert!(!render);
    let (render, _) = chat.update(Msg::HandleMsg(String::from(
        "{\"messageType\":\"register\",\"dataArray\":null,\"data\":\"eve\"}",
    )));
    assert!(!render);
    let (render, _) = chat.update(Msg::HandleMsg(String::from(
        "{\"messageType\":\"message\",\"dataArray\":null,\"data\":\"no nested json\"}",
    )));
    assert!(!render);
    assert_eq!(roster_names(&chat), vec!["a".to_string()]);
    assert_eq!(chat.log_len(), 0);
}

#[test]
fn unresolved_sender_is_tolerated_and_heals() {
    let (mut chat, _conn) = Chat::create(String::from("alice"));
    let (render, _) = chat.update(Msg::HandleMsg(message_frame("ghost", "boo")));
    assert!(render);
    assert_eq!(chat.log_len(), 1);
    assert!(chat.find_user(&String::from("ghost")).is_none());

    chat.update(Msg::HandleMsg(users_frame(&["ghost"])));
    let resolved = chat.find_user(&String::from("ghost")).expect("sender resolves now");
    assert_eq!(resolved.name, "ghost");
    assert_eq!(resolved.avatar, format!("{}ghost.svg", AVATAR_PREFIX));
}

#[test]
fn end_to_end_scenario() {
    let (mut chat, conn) = Chat::create(String::from("alice"));
    assert!(conn.is_connected());
    assert_eq!(conn.sent_len(), 1);
    assert_eq!(
        conn.sent_at(0),
        "{\"messageType\":\"register\",\"dataArray\":null,\"data\":\"alice\"}"
    );

    chat.update(Msg::HandleMsg(users_frame(&["alice", "bob"])));
    assert_eq!(chat.users_len(), 2);
    assert_eq!(roster_names(&chat), vec!["alice".to_string(), "bob".to_string()]);
    assert_eq!(chat.user_at(0).avatar, format!("{}alice.svg", AVATAR_PREFIX));
    assert_eq!(chat.user_at(1).avatar, format!("{}bob.svg", AVATAR_PREFIX));

    chat.update(Msg::HandleMsg(message_frame("bob", "hi")));
    assert_eq!(chat.log_len(), 1);
    assert_eq!(chat.message_at(0).from, "bob");
    assert_eq!(chat.message_at(0).message, "hi");
}

#[test]
fn submit_sends_and_clears_input_on_success() {
    let (mut chat, mut conn) = Chat::create(String::from("alice"));
    chat.set_input(String::from("hello room"));
    let (render, out) = chat.update(Msg::SubmitMessage);
    assert!(!render);
    let text = out.expect("an outgoing frame");
    assert_eq!(text, encode(&Intent::Message { body: String::from("hello room") }));
    let delivered = conn.send(&text).is_ok();
    assert!(delivered);
    chat.on_send_result(delivered);
    assert_eq!(chat.input(), "");
    assert_eq!(conn.sent_len(), 2);
    assert_eq!(conn.sent_at(1), &text);
}

#[test]
fn submit_keeps_input_when_channel_is_closed() {
    let (mut chat, mut conn) = Chat::create(String::from("alice"));
    conn.close();
    chat.set_input(String::from("still here"));
    let (_, out) = chat.update(Msg::SubmitMessage);
    let text = out.expect("an outgoing frame");
    let delivered = conn.send(&text).is_ok();
    assert!(!delivered);
    chat.on_send_result(delivered);
    assert_eq!(chat.input(), "still here");
    assert_eq!(conn.sent_len(), 1);
}

#[test]
fn username_is_kept_read_only() {
    let (mut chat, _conn) = Chat::create(String::from("alice"));
    chat.update(Msg::HandleMsg(users_frame(&["bob"])));
    chat.set_input(String::from("x"));
    assert_eq!(chat.username(), "alice");
}
