use mention_watch::errors::FileSystemError;
use mention_watch::messages::{Message, Reply};
use mention_watch::notify::{has_new_reply, should_notify, Sighting};
use mention_watch::users::{load_slack_users, User};

fn message(text: &str, sender: &str, sent_at: usize, reply: Option<Reply>) -> Message {
    Message {
        channel_id: Some("C1".into()),
        message: text.into(),
        received_at: sent_at,
        received_ts: format!("{}.000", sent_at),
        reply,
        sender: sender.into(),
    }
}

fn thread(latest: usize, users: &[&str]) -> Option<Reply> {
    Some(Reply {
        latest_reply: latest,
        latest_ts: format!("{}.000", latest),
        users: users.iter().map(|u| u.to_string()).collect(),
    })
}

#[test]
fn new_user_keeps_what_it_is_given() {
    let u = User::new("U1", "Ada", true);
    assert_eq!(u.slack_user_id, "U1");
    assert_eq!(u.name, "Ada");
    assert!(u.should_follow);
    assert!(!User::new("U2", "Bob", false).should_follow);
}

#[test]
fn notifyable_are_the_followed_in_order() {
    let users = vec![
        User::new("U3", "c", true),
        User::new("U1", "a", false),
        User::new("U2", "b", true),
        User::new("U3", "again", true),
    ];
    assert_eq!(User::get_notifyable(&users), vec!["U3", "U2", "U3"]);
    assert_eq!(User::get_notifyable(&Vec::new()), Vec::<&str>::new());
}

#[test]
fn ids_intersect_needs_one_in_common() {
    let mine = vec!["U1".to_string(), "U2".to_string()];
    assert!(User::ids_intersect(&mine, &vec!["U9", "U2"]));
    assert!(!User::ids_intersect(&mine, &vec!["U9", "U22", "U"]));
    assert!(!User::ids_intersect(&mine, &Vec::new()));
    assert!(!User::ids_intersect(&Vec::new(), &vec!["U1"]));
}

#[test]
fn users_come_from_the_cache_or_there_are_none() {
    let cached = load_slack_users(Ok(vec![User::new("C1", "a", true)]));
    assert_eq!(cached.len(), 1);
    assert_eq!(cached[0].slack_user_id, "C1");
    let missing = load_slack_users(Err(FileSystemError::new("Error opening file. {:?}")));
    assert!(missing.is_empty());
}

#[test]
fn message_notifies_by_its_sender() {
    let m = message("hello", "U1", 100, None);
    assert!(should_notify(&m, Sighting::Message, &vec!["U1"], 0));
    assert!(!should_notify(&m, Sighting::Message, &vec!["U2"], 0));
}

#[test]
fn message_notifies_by_a_mention() {
    let m = message("see <@U0000000001>", "U2", 100, None);
    assert!(should_notify(&m, Sighting::Message, &vec!["U0000000001"], 0));
    assert!(!should_notify(&m, Sighting::Message, &vec!["U0000000002"], 0));
}

#[test]
fn message_notifies_by_those_who_replied() {
    let m = message("hello", "U2", 100, thread(150, &["U1"]));
    assert!(should_notify(&m, Sighting::Message, &vec!["U1"], 0));
}

#[test]
fn message_notifies_whenever_it_was_sent() {
    let followed = vec!["U1"];
    for sent_at in [0usize, 1, 1_000_000] {
        for capture in [0usize, 5, usize::MAX] {
            let m = message("hello", "U1", sent_at, thread(3, &[]));
            assert!(should_notify(&m, Sighting::Message, &followed, capture));
        }
    }
}

#[test]
fn nobody_followed_nothing_raised() {
    let m = message("see <@U0000000001>", "U2", 100, thread(150, &["U1"]));
    assert!(!should_notify(&m, Sighting::Message, &Vec::new(), 0));
    assert!(!should_notify(&m, Sighting::Reply, &Vec::new(), 0));
}

#[test]
fn reply_needs_to_be_newer_than_the_last_capture() {
    let m = message("hello", "U2", 100, thread(200, &["U1"]));
    let followed = vec!["U1"];
    assert!(should_notify(&m, Sighting::Reply, &followed, 199));
    assert!(!should_notify(&m, Sighting::Reply, &followed, 200));
    assert!(!should_notify(&m, Sighting::Reply, &followed, 201));
}

#[test]
fn new_reply_is_one_after_the_last_capture() {
    let m = message("hello", "U2", 100, thread(200, &[]));
    assert!(has_new_reply(&m, 199));
    assert!(!has_new_reply(&m, 200));
    assert!(!has_new_reply(&message("hello", "U2", 100, None), 0));
}

#[test]
fn reply_needs_a_followed_user_too() {
    let m = message("hello", "U2", 100, thread(200, &["U3"]));
    assert!(!should_notify(&m, Sighting::Reply, &vec!["U1"], 0));
    assert!(should_notify(&m, Sighting::Reply, &vec!["U2"], 0));
}

#[test]
fn tracked_message_without_thread_stays_silent() {
    let m = message("hello", "U1", 100, None);
    assert!(!should_notify(&m, Sighting::Reply, &vec!["U1"], 0));
}
