use chatrelay::codec;
use chatrelay::directory::Directory;
use chatrelay::session::Session;

#[test]
fn prompt_is_sent_on_greet() {
    let mut s = Session::new(1);
    let prompt = s.greet();
    assert_eq!(prompt.as_str(), "Welcome to budgetchat! What shall I call you?");
}

#[test]
fn trim_removes_surrounding_whitespace() {
    assert_eq!(codec::trim_line("  hello \r\n").as_str(), "hello");
    assert_eq!(codec::trim_line("alice\n").as_str(), "alice");
    assert_eq!(codec::trim_line("\r\n").as_str(), "");
    assert_eq!(codec::trim_line("hi bob").as_str(), "hi bob");
}

#[test]
fn trim_matches_unicode_whitespace() {
    assert_eq!(codec::trim_line("\u{00A0}alice\u{3000}").as_str(), "alice");
    assert_eq!(codec::trim_line("\u{2003}\u{000B}x\u{000C}\u{0085}").as_str(), "x");
    assert_eq!(codec::trim_line("\u{1680}\u{2028}\u{2029}\u{202F}\u{205F}\n").as_str(), "");
    // Matches str::trim on every tested line.
    for line in ["\u{00A0}alice\u{3000}", "  a\u{200A}b \n", "\u{2000}", "plain"] {
        assert_eq!(codec::trim_line(line).as_str(), line.trim());
    }
    // A zero-width space is not White_Space and must stay.
    assert_eq!(codec::trim_line("\u{200B}x").as_str(), "\u{200B}x");
}

#[test]
fn name_validation() {
    assert!(codec::validate_name("alice"));
    assert!(codec::validate_name("Bob99"));
    assert!(!codec::validate_name(""));
    assert!(!codec::validate_name("bad name!"));
    assert!(!codec::validate_name("éve"));
    assert!(!codec::validate_name("a_b"));
}

#[test]
fn formatted_lines() {
    assert_eq!(codec::format_chat_line("alice", "hello").as_str(), "[alice] hello");
    assert_eq!(
        codec::format_join_announcement("bob").as_str(),
        "* bob has entered the room"
    );
    assert_eq!(
        codec::format_part_announcement("bob").as_str(),
        "* bob has left the room"
    );
    let empty: Vec<String> = Vec::new();
    assert_eq!(codec::format_roster_line(&empty).as_str(), "* The room contains: ");
    let names = vec![String::from("alice"), String::from("bob")];
    assert_eq!(
        codec::format_roster_line(&names).as_str(),
        "* The room contains: alice, bob"
    );
}

#[test]
fn directory_operations() {
    let mut dir = Directory::new();
    assert_eq!(dir.len(), 0);
    dir.insert(1, String::from("alice"));
    dir.insert(2, String::from("bob"));
    assert!(dir.contains(1));
    assert!(dir.contains(2));
    assert!(!dir.contains(3));
    assert_eq!(dir.get_name(1).unwrap().as_str(), "alice");
    let roster = dir.lookup_roster();
    assert_eq!(roster.len(), 2);
    assert_eq!(roster[0].as_str(), "alice");
    assert_eq!(roster[1].as_str(), "bob");
    dir.remove(1);
    assert!(!dir.contains(1));
    assert_eq!(dir.len(), 1);
    dir.remove(1);
    assert_eq!(dir.len(), 1);
}

#[test]
fn directory_insert_is_idempotent_per_identity() {
    let mut dir = Directory::new();
    dir.insert(7, String::from("carol"));
    dir.insert(7, String::from("carol"));
    assert_eq!(dir.len(), 1);
    assert_eq!(dir.get_name(7).unwrap().as_str(), "carol");
}

#[test]
fn broadcast_excludes_sender() {
    let mut dir = Directory::new();
    dir.insert(1, String::from("alice"));
    dir.insert(2, String::from("bob"));
    dir.insert(3, String::from("carol"));
    let recipients = dir.snapshot_recipients(2);
    assert_eq!(recipients.len(), 2);
    assert!(recipients.iter().all(|(id, _)| *id != 2));
    assert!(recipients.iter().any(|(id, n)| *id == 1 && n.as_str() == "alice"));
    assert!(recipients.iter().any(|(id, n)| *id == 3 && n.as_str() == "carol"));
}

#[test]
fn chat_round_trip_verbatim() {
    let mut dir = Directory::new();
    let mut a = Session::new(1);
    a.greet();
    assert!(a.handle_name(&mut dir, "alice").is_some());
    let mut b = Session::new(2);
    b.greet();
    assert!(b.handle_name(&mut dir, "bob").is_some());
    let mut c = Session::new(3);
    c.greet();
    assert!(c.handle_name(&mut dir, "carol").is_some());

    let out = a.handle_chat(&dir, "hello").unwrap();
    assert_eq!(out.line.as_str(), "[alice] hello");
    assert_eq!(out.recipients.len(), 2);
    assert!(out.recipients.iter().all(|(id, _)| *id != 1));
    assert!(out.recipients.iter().any(|(id, _)| *id == 2));
    assert!(out.recipients.iter().any(|(id, _)| *id == 3));
}

#[test]
fn empty_chat_line_is_not_broadcast() {
    let mut dir = Directory::new();
    let mut a = Session::new(1);
    a.greet();
    a.handle_name(&mut dir, "alice");
    assert!(a.handle_chat(&dir, "").is_none());
}

#[test]
fn two_clients_full_exchange() {
    let mut dir = Directory::new();

    let mut a = Session::new(1);
    let prompt_a = a.greet();
    assert_eq!(prompt_a.as_str(), "Welcome to budgetchat! What shall I call you?");
    let reply_a = a.handle_name(&mut dir, "alice").unwrap();
    assert_eq!(reply_a.roster.as_str(), "* The room contains: ");
    assert!(reply_a.announcement.recipients.is_empty());

    let mut b = Session::new(2);
    b.greet();
    let reply_b = b.handle_name(&mut dir, "bob").unwrap();
    assert_eq!(reply_b.roster.as_str(), "* The room contains: alice");
    assert_eq!(reply_b.announcement.line.as_str(), "* bob has entered the room");
    assert_eq!(reply_b.announcement.recipients.len(), 1);
    assert_eq!(reply_b.announcement.recipients[0].0, 1);
    assert_eq!(reply_b.announcement.recipients[0].1.as_str(), "alice");

    let chat = a.handle_chat(&dir, "hi bob").unwrap();
    assert_eq!(chat.line.as_str(), "[alice] hi bob");
    assert_eq!(chat.recipients.len(), 1);
    assert_eq!(chat.recipients[0].0, 2);

    let part = b.handle_disconnect(&mut dir).unwrap();
    assert_eq!(part.line.as_str(), "* bob has left the room");
    assert_eq!(part.recipients.len(), 1);
    assert_eq!(part.recipients[0].0, 1);
    assert!(!dir.contains(2));
    assert!(dir.contains(1));
}

#[test]
fn invalid_name_is_rejected_without_trace() {
    let mut dir = Directory::new();
    let mut a = Session::new(1);
    a.greet();
    a.handle_name(&mut dir, "alice");

    let mut c = Session::new(3);
    c.greet();
    let reply = c.handle_name(&mut dir, "bad name!");
    assert!(reply.is_none());
    assert!(!dir.contains(3));
    assert_eq!(dir.len(), 1);
}

#[test]
fn empty_name_is_rejected_like_invalid() {
    let mut dir = Directory::new();
    let mut a = Session::new(1);
    a.greet();
    a.handle_name(&mut dir, "alice");

    let mut d = Session::new(4);
    d.greet();
    let reply = d.handle_name(&mut dir, "");
    assert!(reply.is_none());
    assert!(!dir.contains(4));
    assert_eq!(dir.len(), 1);
}

#[test]
fn departure_runs_at_most_once() {
    let mut dir = Directory::new();
    let mut a = Session::new(1);
    a.greet();
    a.handle_name(&mut dir, "alice");
    let mut b = Session::new(2);
    b.greet();
    b.handle_name(&mut dir, "bob");

    let first = b.handle_disconnect(&mut dir);
    assert!(first.is_some());
    assert_eq!(dir.len(), 1);
    let second = b.handle_disconnect(&mut dir);
    assert!(second.is_none());
    assert_eq!(dir.len(), 1);
}

#[test]
fn disconnect_before_joining_is_silent() {
    let mut dir = Directory::new();
    let mut a = Session::new(1);
    a.greet();
    a.handle_name(&mut dir, "alice");

    let mut e = Session::new(5);
    e.greet();
    let out = e.handle_disconnect(&mut dir);
    assert!(out.is_none());
    assert_eq!(dir.len(), 1);
}
