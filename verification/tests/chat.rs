use chatters::directory::Directory;
use chatters::dispatch::dispatch;
use chatters::message::MessageOptions;
use chatters::protocol::nickname_prompt;
use chatters::protocol::register_client;
use chatters::protocol::welcome_line;
use chatters::text::split_tokens;
use chatters::text::trim_line;

fn server_with(clients: &[(u64, &str)]) -> Directory {
    let mut d = Directory::new();
    for (id, nick) in clients {
        assert!(register_client(&mut d, *id, nick.to_string()));
    }
    d
}

fn member_ids(d: &Directory, room: &str) -> Vec<u64> {
    d.members_of(room).iter().map(|s| s.id).collect()
}

#[test]
fn get_option_recognizes_keywords() {
    assert!(matches!(MessageOptions::get_option("/rooms"), MessageOptions::ROOMS));
    assert!(matches!(MessageOptions::get_option("/join"), MessageOptions::JOIN));
    assert!(matches!(MessageOptions::get_option("/leave"), MessageOptions::LEAVE));
    assert!(matches!(MessageOptions::get_option("/which"), MessageOptions::WHICH));
    assert!(matches!(MessageOptions::get_option("/quit"), MessageOptions::QUIT));
}

#[test]
fn get_option_is_exact_and_case_sensitive() {
    assert!(matches!(MessageOptions::get_option("/JOIN"), MessageOptions::MESSAGE));
    assert!(matches!(MessageOptions::get_option("/room"), MessageOptions::MESSAGE));
    assert!(matches!(MessageOptions::get_option("/roomss"), MessageOptions::MESSAGE));
    assert!(matches!(MessageOptions::get_option("join"), MessageOptions::MESSAGE));
    assert!(matches!(MessageOptions::get_option(""), MessageOptions::MESSAGE));
}

#[test]
fn split_tokens_on_plain_line() {
    let toks = split_tokens("/join room1\n");
    assert_eq!(toks, vec!["/join".to_string(), "room1".to_string()]);
}

#[test]
fn split_tokens_collapses_whitespace() {
    let toks = split_tokens("  a \t b  \r\n");
    assert_eq!(toks, vec!["a".to_string(), "b".to_string()]);
}

#[test]
fn split_tokens_of_blank_line_is_empty() {
    assert!(split_tokens("\n").is_empty());
    assert!(split_tokens("").is_empty());
    assert!(split_tokens("   ").is_empty());
}

#[test]
fn trim_line_strips_surrounding_whitespace() {
    assert_eq!(trim_line("  alice \n"), "alice".to_string());
    assert_eq!(trim_line("bob"), "bob".to_string());
    assert_eq!(trim_line(" \t\n"), "".to_string());
    assert_eq!(trim_line("a b\n"), "a b".to_string());
}

#[test]
fn handshake_lines_match_protocol() {
    assert_eq!(nickname_prompt(), "Please enter your nickname!\n".to_string());
    assert_eq!(welcome_line("alice"), "Welcome to the chat alice\n".to_string());
}

#[test]
fn fresh_directory_has_only_default_room() {
    let d = Directory::new();
    let names = d.room_names();
    assert_eq!(names, vec!["default".to_string()]);
    assert!(d.members_of("default").is_empty());
}

#[test]
fn registration_lands_in_default_room() {
    let mut d = server_with(&[(1, "alice")]);
    assert_eq!(d.current_room(1), Some("default".to_string()));
    assert_eq!(member_ids(&d, "default"), vec![1]);
    let members = d.members_of("default");
    assert_eq!(members[0].nickname, "alice".to_string());
    // a second registration under the same identity is refused
    assert!(!register_client(&mut d, 1, "impostor".to_string()));
    assert_eq!(member_ids(&d, "default"), vec![1]);
}

#[test]
fn current_room_of_unknown_identity_is_none() {
    let d = Directory::new();
    assert_eq!(d.current_room(7), None);
}

#[test]
fn join_then_join_then_which_reports_latest_room() {
    let mut d = server_with(&[(1, "alice")]);
    let o1 = dispatch(&mut d, 1, "/join r1\n");
    assert!(o1.replies.is_empty() && !o1.quit);
    let o2 = dispatch(&mut d, 1, "/join r2\n");
    assert!(o2.replies.is_empty() && !o2.quit);
    let o3 = dispatch(&mut d, 1, "/which\n");
    assert_eq!(o3.replies, vec!["r2\n".to_string()]);
    // no longer a broadcast target inside r1
    assert!(member_ids(&d, "r1").is_empty());
    assert_eq!(member_ids(&d, "r2"), vec![1]);
}

#[test]
fn leave_from_default_is_refused() {
    let mut d = server_with(&[(1, "alice")]);
    let o = dispatch(&mut d, 1, "/leave\n");
    assert_eq!(o.replies, vec!["cannot leave from default room, call /quit instead\n".to_string()]);
    assert!(!o.quit);
    assert_eq!(d.current_room(1), Some("default".to_string()));
    assert_eq!(member_ids(&d, "default"), vec![1]);
}

#[test]
fn leave_returns_to_default_room() {
    let mut d = server_with(&[(1, "alice")]);
    dispatch(&mut d, 1, "/join x\n");
    assert_eq!(d.current_room(1), Some("x".to_string()));
    let o = dispatch(&mut d, 1, "/leave\n");
    assert!(o.replies.is_empty());
    assert_eq!(d.current_room(1), Some("default".to_string()));
    assert!(member_ids(&d, "x").is_empty());
    assert_eq!(member_ids(&d, "default"), vec![1]);
}

#[test]
fn broadcast_reaches_peers_but_not_sender() {
    let mut d = server_with(&[(1, "A"), (2, "B")]);
    dispatch(&mut d, 1, "/join x\n");
    dispatch(&mut d, 2, "/join x\n");
    let o = dispatch(&mut d, 1, "hello\n");
    assert_eq!(o.message, Some("A: hello\n".to_string()));
    assert_eq!(o.recipients, vec![2]);
    assert!(o.replies.is_empty() && !o.quit);
}

#[test]
fn broadcast_stays_inside_the_room() {
    let mut d = server_with(&[(1, "A"), (2, "B"), (3, "C")]);
    dispatch(&mut d, 1, "/join x\n");
    dispatch(&mut d, 2, "/join x\n");
    // C stays in default; a line from C reaches nobody else there
    let o = dispatch(&mut d, 3, "hi all\n");
    assert_eq!(o.message, Some("C: hi all\n".to_string()));
    assert!(o.recipients.is_empty());
}

#[test]
fn empty_line_is_a_chat_message() {
    let mut d = server_with(&[(1, "A"), (2, "B")]);
    let o = dispatch(&mut d, 1, "\n");
    assert_eq!(o.message, Some("A: \n".to_string()));
    assert_eq!(o.recipients, vec![2]);
}

#[test]
fn rooms_lists_every_room_once() {
    let mut d = server_with(&[(1, "A")]);
    dispatch(&mut d, 1, "/join x\n");
    let o = dispatch(&mut d, 1, "/rooms\n");
    let mut lines = o.replies.clone();
    lines.sort();
    assert_eq!(lines, vec!["default\n".to_string(), "x\n".to_string()]);
}

#[test]
fn join_with_wrong_argument_count_is_an_error() {
    let mut d = server_with(&[(1, "A")]);
    let usage = "invalid usage for /join: expected usage /join <room_name>\n".to_string();
    let o1 = dispatch(&mut d, 1, "/join\n");
    assert_eq!(o1.replies, vec![usage.clone()]);
    let o2 = dispatch(&mut d, 1, "/join a b\n");
    assert_eq!(o2.replies, vec![usage]);
    // no membership change either time, and no room was created
    assert_eq!(d.current_room(1), Some("default".to_string()));
    assert_eq!(d.room_names(), vec!["default".to_string()]);
}

#[test]
fn join_to_current_room_keeps_single_membership() {
    let mut d = server_with(&[(1, "A")]);
    dispatch(&mut d, 1, "/join x\n");
    dispatch(&mut d, 1, "/join x\n");
    assert_eq!(member_ids(&d, "x"), vec![1]);
    assert_eq!(d.current_room(1), Some("x".to_string()));
}

#[test]
fn quit_removes_the_client() {
    let mut d = server_with(&[(1, "A"), (2, "B")]);
    dispatch(&mut d, 1, "/join x\n");
    dispatch(&mut d, 2, "/join x\n");
    let o = dispatch(&mut d, 1, "/quit\n");
    assert!(o.quit && o.replies.is_empty() && o.message.is_none());
    assert_eq!(d.current_room(1), None);
    assert_eq!(member_ids(&d, "x"), vec![2]);
}

#[test]
fn silent_disconnect_is_cleaned_up_like_quit() {
    let mut d = server_with(&[(1, "A"), (2, "B")]);
    dispatch(&mut d, 1, "/join x\n");
    dispatch(&mut d, 2, "/join x\n");
    // the handler saw EOF for client 1 without any /quit line
    d.remove_member("x", 1);
    assert_eq!(d.current_room(1), None);
    assert_eq!(member_ids(&d, "x"), vec![2]);
    // later broadcasts in that room no longer target the gone client
    let o = dispatch(&mut d, 2, "anyone?\n");
    assert_eq!(o.message, Some("B: anyone?\n".to_string()));
    assert!(o.recipients.is_empty());
}

#[test]
fn remove_member_is_a_no_op_for_the_wrong_room() {
    let mut d = server_with(&[(1, "A")]);
    dispatch(&mut d, 1, "/join x\n");
    d.remove_member("default", 1);
    assert_eq!(d.current_room(1), Some("x".to_string()));
    assert_eq!(member_ids(&d, "x"), vec![1]);
}

#[test]
fn ensure_room_exists_is_idempotent() {
    let mut d = Directory::new();
    d.ensure_room_exists("lobby");
    d.ensure_room_exists("lobby");
    assert_eq!(d.room_names(), vec!["default".to_string(), "lobby".to_string()]);
    assert!(d.members_of("lobby").is_empty());
}

#[test]
fn chat_command_like_token_is_plain_text() {
    let mut d = server_with(&[(1, "A"), (2, "B")]);
    let o = dispatch(&mut d, 1, "/shout loud\n");
    assert_eq!(o.message, Some("A: /shout loud\n".to_string()));
    assert_eq!(o.recipients, vec![2]);
}
