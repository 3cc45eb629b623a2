use mention_watch::channels::Channel;
use mention_watch::cycle::{last_run, Action, Event, Phase, Poller, PAUSE};
use mention_watch::intake::refresh;
use mention_watch::messages::{Message, Reply};

fn channel(id: &str, skip: bool) -> Channel {
    Channel {
        name: format!("name-of-{}", id),
        channel_id: id.into(),
        should_skip: skip,
    }
}

fn fresh(text: &str, sender: &str, sent_at: usize) -> Message {
    Message {
        channel_id: None,
        message: text.into(),
        received_at: sent_at,
        received_ts: format!("{}.000100", sent_at),
        reply: None,
        sender: sender.into(),
    }
}

fn thread(latest: usize, users: &[&str]) -> Reply {
    Reply {
        latest_reply: latest,
        latest_ts: format!("{}.000200", latest),
        users: users.iter().map(|u| u.to_string()).collect(),
    }
}

fn texts(poller: &Poller) -> Vec<Option<String>> {
    (0..poller.window.capacity())
        .map(|i| poller.window.slot(i).as_ref().map(|m| m.message.clone()))
        .collect()
}

fn expect_history(action: Action, index: usize, id: &str) {
    match action {
        Action::FetchHistory { channel, channel_id } => {
            assert_eq!(channel, index);
            assert_eq!(channel_id, id);
        }
        other => panic!("unexpected action {:?}", other),
    }
}

fn expect_thread(action: Action, at: usize, id: &str, ts: &str) {
    match action {
        Action::FetchThreadHead { slot, channel_id, thread_ts } => {
            assert_eq!(slot, at);
            assert_eq!(channel_id, id);
            assert_eq!(thread_ts, ts);
        }
        other => panic!("unexpected action {:?}", other),
    }
}

fn expect_proceed(action: Action) {
    match action {
        Action::Proceed => {}
        other => panic!("unexpected action {:?}", other),
    }
}

fn expect_notify(action: Action, expected: bool) {
    match action {
        Action::Notify { signal } => assert_eq!(signal, expected),
        other => panic!("unexpected action {:?}", other),
    }
}

/// Ends ingestion with `last`, then reorders.
fn conclude(p: &mut Poller, last: Event, expected: bool) {
    expect_proceed(p.step(last));
    assert_eq!(p.phase, Phase::Reorder);
    expect_notify(p.step(Event::Proceed), expected);
    assert_eq!(p.phase, Phase::Decide);
}

fn expect_sleep(action: Action) {
    match action {
        Action::Sleep { seconds } => assert_eq!(seconds, 300),
        other => panic!("unexpected action {:?}", other),
    }
}

#[test]
fn pause_is_five_minutes() {
    assert_eq!(PAUSE, 300);
}

#[test]
fn last_run_is_the_clock_or_zero() {
    assert_eq!(last_run(Some(1_700_000_000)), 1_700_000_000);
    assert_eq!(last_run(None), 0);
}

#[test]
fn new_poller_pauses_with_an_empty_window() {
    let p = Poller::new(vec![channel("C1", false)], vec!["U1"], 30, 77);
    assert_eq!(p.phase, Phase::Sleep);
    assert_eq!(p.last_capture_at, 77);
    assert!(!p.signal);
    assert_eq!(p.window.capacity(), 30);
    assert_eq!(p.window.occupied_slots(), 0);
    expect_sleep(p.pending_action());
}

#[test]
fn a_cycle_without_channels_goes_straight_to_the_decision() {
    let mut p = Poller::new(Vec::new(), vec!["U1"], 3, 10);
    conclude(&mut p, Event::Woke, false);
    expect_sleep(p.step(Event::Notified { now: 20 }));
    assert_eq!(p.phase, Phase::Sleep);
    assert_eq!(p.last_capture_at, 20);
}

#[test]
fn skipped_channels_are_not_asked_for() {
    let channels = vec![
        channel("C1", true),
        channel("C2", false),
        channel("C3", true),
        channel("C4", false),
        channel("C5", true),
    ];
    let mut p = Poller::new(channels, Vec::new(), 3, 10);
    expect_history(p.step(Event::Woke), 1, "C2");
    assert_eq!(p.phase, Phase::IngestNewMessages);
    expect_history(p.step(Event::History(Some(Vec::new()))), 3, "C4");
    conclude(&mut p, Event::History(None), false);
}

#[test]
fn one_whole_cycle_and_the_next() {
    let channels = vec![channel("C1", false), channel("C2", false)];
    let mut p = Poller::new(channels, vec!["U-boss"], 4, 1000);

    // first cycle: nothing tracked yet, so ingestion starts at once
    expect_history(p.step(Event::Woke), 0, "C1");
    let page = vec![fresh("one", "U-a", 1010), fresh("two", "U-b", 1020)];
    expect_history(p.step(Event::History(Some(page))), 1, "C2");
    assert_eq!(
        texts(&p),
        vec![Some("two".to_string()), Some("one".to_string()), None, None]
    );
    assert_eq!(
        p.window.slot(0).as_ref().unwrap().channel_id,
        Some("C1".to_string())
    );
    let page = vec![fresh("three", "U-c", 1015)];
    conclude(&mut p, Event::History(Some(page)), false);
    // reordered on the way to the decision
    assert_eq!(
        texts(&p),
        vec![
            Some("two".to_string()),
            Some("three".to_string()),
            Some("one".to_string()),
            None
        ]
    );
    assert_eq!(
        p.window.slot(1).as_ref().unwrap().channel_id,
        Some("C2".to_string())
    );
    expect_sleep(p.step(Event::Notified { now: 1300 }));
    assert_eq!(p.last_capture_at, 1300);

    // second cycle: the three tracked threads are looked up first
    expect_thread(p.step(Event::Woke), 0, "C1", "1020.000100");
    assert_eq!(p.phase, Phase::RefreshReplies);
    // a reply by someone who is not followed
    expect_thread(
        p.step(Event::ThreadHead(Some(thread(1400, &["U-z"])))),
        1,
        "C2",
        "1015.000100",
    );
    assert!(!p.signal);
    // the request failed
    expect_thread(p.step(Event::ThreadHead(None)), 2, "C1", "1010.000100");
    // the boss replied after the last capture
    expect_history(
        p.step(Event::ThreadHead(Some(thread(1350, &["U-boss"])))),
        0,
        "C1",
    );
    assert_eq!(p.phase, Phase::IngestNewMessages);
    assert!(p.signal);
    let one = p.window.slot(2).as_ref().unwrap();
    assert_eq!(one.message, "one");
    assert_eq!(one.sender, "U-a");
    assert_eq!(one.reply.as_ref().unwrap().latest_reply, 1350);
    expect_history(p.step(Event::History(None)), 1, "C2");
    conclude(&mut p, Event::History(Some(Vec::new())), true);
    // "one" was sent before "three" but replied to after it: the pair is
    // looked at twice and changes places both times
    assert_eq!(
        texts(&p),
        vec![
            Some("two".to_string()),
            Some("three".to_string()),
            Some("one".to_string()),
            None
        ]
    );
    expect_sleep(p.step(Event::Notified { now: 1600 }));

    // third cycle: the same replies are known now and raise nothing
    expect_thread(p.step(Event::Woke), 0, "C1", "1020.000100");
    assert!(!p.signal);
    expect_thread(
        p.step(Event::ThreadHead(Some(thread(1400, &["U-z"])))),
        1,
        "C2",
        "1015.000100",
    );
    expect_thread(p.step(Event::ThreadHead(None)), 2, "C1", "1010.000100");
    expect_history(
        p.step(Event::ThreadHead(Some(thread(1350, &["U-boss"])))),
        0,
        "C1",
    );
    p.step(Event::History(None));
    conclude(&mut p, Event::History(None), false);
}

#[test]
fn a_reply_at_the_time_of_the_last_capture_is_not_new() {
    let mut p = Poller::new(vec![channel("C1", false)], vec!["U-boss"], 2, 0);
    p.step(Event::Woke);
    conclude(&mut p, Event::History(Some(vec![fresh("one", "U-a", 10)])), false);
    expect_sleep(p.step(Event::Notified { now: 500 }));
    expect_thread(p.step(Event::Woke), 0, "C1", "10.000100");
    p.step(Event::ThreadHead(Some(thread(500, &["U-boss"]))));
    assert!(!p.signal);
    conclude(&mut p, Event::History(None), false);
}

#[test]
fn a_lookup_that_finds_no_thread_leaves_the_known_one() {
    let mut p = Poller::new(vec![channel("C1", false)], Vec::new(), 2, 0);
    p.step(Event::Woke);
    conclude(&mut p, Event::History(Some(vec![fresh("one", "U-a", 10)])), false);
    expect_sleep(p.step(Event::Notified { now: 20 }));
    expect_thread(p.step(Event::Woke), 0, "C1", "10.000100");
    expect_history(p.step(Event::ThreadHead(Some(thread(30, &["U-b"])))), 0, "C1");
    conclude(&mut p, Event::History(None), false);
    expect_sleep(p.step(Event::Notified { now: 40 }));
    expect_thread(p.step(Event::Woke), 0, "C1", "10.000100");
    expect_history(
        p.step(Event::ThreadHead(refresh(Ok(Some(fresh("one", "U-a", 10)))))),
        0,
        "C1",
    );
    let kept = p.window.slot(0).as_ref().unwrap();
    assert_eq!(kept.reply.as_ref().unwrap().latest_reply, 30);
}

#[test]
fn a_new_message_of_a_followed_user_raises_the_signal() {
    let mut p = Poller::new(vec![channel("C1", false)], vec!["U0000000007"], 2, 0);
    p.step(Event::Woke);
    let page = vec![
        fresh("nothing", "U-a", 10),
        fresh("ask <@U0000000007> about it", "U-b", 11),
        fresh("nothing again", "U-c", 12),
    ];
    conclude(&mut p, Event::History(Some(page)), true);
    expect_sleep(p.step(Event::Notified { now: 20 }));
    // the flag is lowered when the next cycle begins
    expect_thread(p.step(Event::Woke), 0, "C1", "12.000100");
    assert!(!p.signal);
}

#[test]
fn an_event_out_of_turn_changes_nothing() {
    let mut p = Poller::new(vec![channel("C1", false)], vec!["U1"], 2, 5);
    expect_sleep(p.step(Event::Notified { now: 9 }));
    expect_sleep(p.step(Event::History(None)));
    assert_eq!(p.phase, Phase::Sleep);
    assert_eq!(p.last_capture_at, 5);
    expect_history(p.step(Event::Woke), 0, "C1");
    expect_history(p.step(Event::Woke), 0, "C1");
    expect_history(p.step(Event::ThreadHead(None)), 0, "C1");
    assert_eq!(p.phase, Phase::IngestNewMessages);
    expect_proceed(p.step(Event::History(None)));
    expect_proceed(p.step(Event::Woke));
    expect_proceed(p.step(Event::Notified { now: 9 }));
    assert_eq!(p.phase, Phase::Reorder);
    expect_notify(p.step(Event::Proceed), false);
    expect_notify(p.step(Event::Proceed), false);
    expect_notify(p.step(Event::Woke), false);
    assert_eq!(p.phase, Phase::Decide);
    assert_eq!(p.last_capture_at, 5);
}
