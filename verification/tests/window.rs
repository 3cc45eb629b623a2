use mention_watch::messages::{Message, Reply};
use mention_watch::window::{TrackingWindow, CAPACITY};

fn message(name: &str, sent_at: usize) -> Message {
    Message {
        channel_id: Some("C1".into()),
        message: name.into(),
        received_at: sent_at,
        received_ts: format!("{}.000", sent_at),
        reply: None,
        sender: "U001".into(),
    }
}

fn texts(window: &TrackingWindow) -> Vec<Option<String>> {
    (0..window.capacity())
        .map(|i| window.slot(i).as_ref().map(|m| m.message.clone()))
        .collect()
}

#[test]
fn new_window_is_empty() {
    let w = TrackingWindow::new(CAPACITY);
    assert_eq!(CAPACITY, 30);
    assert_eq!(w.capacity(), 30);
    assert_eq!(w.occupied_slots(), 0);
    assert!((0..30).all(|i| w.slot(i).is_none()));
}

#[test]
fn insert_then_reorder_in_a_window_of_two() {
    let mut w = TrackingWindow::new(2);
    w.insert_newest(message("A", 100));
    w.insert_newest(message("B", 200));
    assert_eq!(texts(&w), vec![Some("B".to_string()), Some("A".to_string())]);
    w.reorder();
    assert_eq!(texts(&w), vec![Some("B".to_string()), Some("A".to_string())]);
}

#[test]
fn inserts_fill_the_window_and_then_push_out_the_oldest() {
    let mut w = TrackingWindow::new(3);
    let names = ["a", "b", "c", "d", "e"];
    for (n, name) in names.iter().enumerate() {
        w.insert_newest(message(name, n));
        assert_eq!(w.capacity(), 3);
        assert_eq!(w.occupied_slots(), std::cmp::min(n + 1, 3));
        assert_eq!(w.slot(0).as_ref().unwrap().message, *name);
    }
    assert_eq!(
        texts(&w),
        vec![Some("e".to_string()), Some("d".to_string()), Some("c".to_string())]
    );
}

#[test]
fn insert_moves_every_slot_one_back() {
    let mut w = TrackingWindow::new(4);
    w.insert_newest(message("a", 1));
    assert_eq!(texts(&w), vec![Some("a".to_string()), None, None, None]);
    w.insert_newest(message("b", 2));
    assert_eq!(
        texts(&w),
        vec![Some("b".to_string()), Some("a".to_string()), None, None]
    );
}

#[test]
fn window_without_slots_takes_nothing() {
    let mut w = TrackingWindow::new(0);
    w.insert_newest(message("a", 1));
    w.reorder();
    assert_eq!(w.capacity(), 0);
    assert_eq!(w.occupied_slots(), 0);
}

#[test]
fn window_of_one_keeps_the_latest() {
    let mut w = TrackingWindow::new(1);
    w.insert_newest(message("a", 1));
    w.insert_newest(message("b", 2));
    w.reorder();
    assert_eq!(texts(&w), vec![Some("b".to_string())]);
}

#[test]
fn refresh_replaces_the_thread_in_place() {
    let mut w = TrackingWindow::new(3);
    w.insert_newest(message("a", 1));
    w.insert_newest(message("b", 2));
    w.refresh_slot(
        1,
        Reply {
            latest_reply: 9,
            latest_ts: "9.5".into(),
            users: vec!["U7".into()],
        },
    );
    assert_eq!(
        texts(&w),
        vec![Some("b".to_string()), Some("a".to_string()), None]
    );
    let a = w.slot(1).as_ref().unwrap();
    assert_eq!(a.received_at, 1);
    assert_eq!(a.received_ts, "1.000");
    assert_eq!(a.sender, "U001");
    assert_eq!(a.channel_id, Some("C1".to_string()));
    let thread = a.reply.as_ref().unwrap();
    assert_eq!(thread.latest_reply, 9);
    assert_eq!(thread.latest_ts, "9.5");
    assert_eq!(thread.users, vec!["U7".to_string()]);
    assert!(w.slot(0).as_ref().unwrap().reply.is_none());
    // a second refresh replaces the first as a whole
    w.refresh_slot(
        1,
        Reply {
            latest_reply: 11,
            latest_ts: "11.0".into(),
            users: Vec::new(),
        },
    );
    let thread = w.slot(1).as_ref().unwrap().reply.as_ref().unwrap();
    assert_eq!(thread.latest_reply, 11);
    assert!(thread.users.is_empty());
}

#[test]
fn refresh_of_an_empty_slot_changes_nothing() {
    let mut w = TrackingWindow::new(2);
    w.insert_newest(message("a", 1));
    w.refresh_slot(
        1,
        Reply {
            latest_reply: 9,
            latest_ts: "9.5".into(),
            users: Vec::new(),
        },
    );
    assert_eq!(texts(&w), vec![Some("a".to_string()), None]);
    assert!(w.slot(0).as_ref().unwrap().reply.is_none());
}

#[test]
fn reorder_puts_the_latest_reply_first() {
    let mut w = TrackingWindow::new(3);
    w.insert_newest(message("old", 1));
    w.insert_newest(message("mid", 2));
    w.insert_newest(message("new", 3));
    w.reorder();
    assert_eq!(
        texts(&w),
        vec![
            Some("new".to_string()),
            Some("mid".to_string()),
            Some("old".to_string())
        ]
    );
    w.refresh_slot(
        2,
        Reply {
            latest_reply: 50,
            latest_ts: "50.0".into(),
            users: Vec::new(),
        },
    );
    w.reorder();
    assert_eq!(w.slot(0).as_ref().unwrap().message, "old");
}

#[test]
fn reorder_is_idempotent_on_a_window() {
    let mut w = TrackingWindow::new(5);
    for (name, at) in [("c", 3), ("a", 1), ("e", 5), ("b", 2)] {
        w.insert_newest(message(name, at));
    }
    w.reorder();
    let once = texts(&w);
    w.reorder();
    assert_eq!(texts(&w), once);
    assert_eq!(
        once,
        vec![
            Some("e".to_string()),
            Some("c".to_string()),
            Some("b".to_string()),
            Some("a".to_string()),
            None
        ]
    );
}
