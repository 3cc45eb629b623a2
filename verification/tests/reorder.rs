use mention_watch::messages::{Message, Reply};

fn plain(received_at: usize, received_ts: &str) -> Option<Message> {
    Some(Message {
        channel_id: None,
        message: "into".into(),
        received_at,
        received_ts: received_ts.into(),
        reply: None,
        sender: "U001".into(),
    })
}

fn stamps<const M: usize>(messages: &[Option<Message>; M]) -> Vec<Option<String>> {
    messages
        .iter()
        .map(|slot| slot.as_ref().map(|m| m.received_ts.clone()))
        .collect()
}

#[test]
fn bubblesorting() {
    let unsorted_3 = [Some(Message {
        channel_id: None,
        message: "into".into(),
        received_at: 10000,
        received_ts: "10000.000".into(),
        reply: None,
        sender: "U001".into(),
    })];
    let mut messages = Box::new(unsorted_3);
    Message::bubble_sort(&mut messages);
    assert_eq!(messages[0].clone().unwrap().received_ts, "10000.000");
}

#[test]
fn bubblesorting2() {
    let unsorted_3 = [
        Some(Message {
            channel_id: None,
            message: "into".into(),
            received_at: 1_000,
            received_ts: "1000.000".into(),
            reply: None,
            sender: "U001".into(),
        }),
        Some(Message {
            channel_id: None,
            message: "into".into(),
            received_at: 10_000,
            received_ts: "10000.000".into(),
            reply: None,
            sender: "U001".into(),
        }),
    ];
    let mut messages = Box::new(unsorted_3);
    Message::bubble_sort(&mut messages);
    assert_eq!(messages[0].clone().unwrap().received_ts, "10000.000");

    println!("bubblesorting 2 done");
}

#[test]
fn bubblesorting3() {
    let unsorted_3 = [
        Some(Message {
            channel_id: None,
            message: "into".into(),
            received_at: 100_000,
            received_ts: "100000.000".into(),
            reply: None,
            sender: "U001".into(),
        }),
        Some(Message {
            channel_id: None,
            message: "into".into(),
            received_at: 1_000,
            received_ts: "1000.000".into(),
            reply: None,
            sender: "U001".into(),
        }),
        Some(Message {
            channel_id: None,
            message: "into".into(),
            received_at: 10_000,
            received_ts: "10000.000".into(),
            reply: None,
            sender: "U001".into(),
        }),
    ];
    let mut messages = Box::new(unsorted_3);
    Message::bubble_sort(&mut messages);
    assert_eq!(messages[0].clone().unwrap().received_ts, "100000.000");
    assert_eq!(messages[1].clone().unwrap().received_ts, "10000.000");
    assert_eq!(messages[2].clone().unwrap().received_ts, "1000.000");

    println!("bubblesorting 3 done");
}

#[test]
fn bubblesorting2_and_none() {
    let unsorted_3 = [
        Some(Message {
            channel_id: None,
            message: "into".into(),
            received_at: 100_000,
            received_ts: "100000.000".into(),
            reply: None,
            sender: "U001".into(),
        }),
        Some(Message {
            channel_id: None,
            message: "into".into(),
            received_at: 1_000,
            received_ts: "1000.000".into(),
            reply: None,
            sender: "U001".into(),
        }),
        None,
    ];
    let mut messages = Box::new(unsorted_3);
    Message::bubble_sort(&mut messages);
    assert_eq!(messages[0].clone().unwrap().received_ts, "100000.000");

    println!("bubblesorting 2 and none . 3 done");
}

#[test]
fn bubblesorting_none_and_1() {
    let unsorted_3 = [
        None,
        Some(Message {
            channel_id: None,
            message: "into".into(),
            received_at: 1_000,
            received_ts: "1000.000".into(),
            reply: None,
            sender: "U001".into(),
        }),
        None,
    ];
    let mut messages = Box::new(unsorted_3);
    Message::bubble_sort(&mut messages);
    assert_eq!(messages[0].is_none(), true);
    assert_eq!(messages[1].clone().unwrap().received_ts, "1000.000");

    println!("bubblesorting none and 1 . 2 done");
}

#[test]
fn bubblesorting1_1reply() {
    let unsorted_3 = [
        Some(Message {
            channel_id: None,
            message: "into".into(),
            received_at: 1_000,
            received_ts: "1000.000".into(),
            reply: None,
            sender: "U001".into(),
        }),
        Some(Message {
            channel_id: None,
            message: "into".into(),
            received_at: 100,
            received_ts: "100.000".into(),
            reply: Some(Reply {
                latest_reply: 1_000_000,
                latest_ts: "1000000".into(),
                users: Vec::new(),
            }),
            sender: "U001".into(),
        }),
    ];
    let mut messages = Box::new(unsorted_3);
    Message::bubble_sort(&mut messages);
    assert_eq!(messages[0].clone().unwrap().received_ts, "100.000");

    println!("bubblesorting1_1reply done");
}

#[test]
fn ascending_messages_end_up_descending() {
    let mut messages = Box::new([
        plain(1, "1.0"),
        plain(2, "2.0"),
        plain(3, "3.0"),
        plain(4, "4.0"),
    ]);
    Message::bubble_sort(&mut messages);
    assert_eq!(
        stamps(&messages),
        vec![
            Some("4.0".to_string()),
            Some("3.0".to_string()),
            Some("2.0".to_string()),
            Some("1.0".to_string())
        ]
    );
}

#[test]
fn empty_slots_stay_and_split_the_order() {
    let mut messages = Box::new([
        plain(1, "1.0"),
        plain(5, "5.0"),
        None,
        plain(2, "2.0"),
        plain(9, "9.0"),
        plain(4, "4.0"),
    ]);
    Message::bubble_sort(&mut messages);
    assert_eq!(
        stamps(&messages),
        vec![
            Some("5.0".to_string()),
            Some("1.0".to_string()),
            None,
            Some("9.0".to_string()),
            Some("4.0".to_string()),
            Some("2.0".to_string())
        ]
    );
}

#[test]
fn reordering_twice_changes_nothing_more() {
    let mut messages = Box::new([
        plain(3, "3.0"),
        None,
        plain(1, "1.0"),
        plain(7, "7.0"),
        plain(7, "7.5"),
        plain(2, "2.0"),
    ]);
    Message::bubble_sort(&mut messages);
    let once = stamps(&messages);
    Message::bubble_sort(&mut messages);
    assert_eq!(stamps(&messages), once);
    assert_eq!(
        once,
        vec![
            Some("3.0".to_string()),
            None,
            Some("7.0".to_string()),
            Some("7.5".to_string()),
            Some("2.0".to_string()),
            Some("1.0".to_string())
        ]
    );
}

#[test]
fn disagreeing_times_change_places_on_every_look() {
    let old_with_new_reply = Some(Message {
        channel_id: None,
        message: "into".into(),
        received_at: 1,
        received_ts: "1.0".into(),
        reply: Some(Reply {
            latest_reply: 2,
            latest_ts: "2.0".into(),
            users: Vec::new(),
        }),
        sender: "U001".into(),
    });
    let new_with_old_reply = Some(Message {
        channel_id: None,
        message: "into".into(),
        received_at: 2,
        received_ts: "2.0".into(),
        reply: Some(Reply {
            latest_reply: 1,
            latest_ts: "1.0".into(),
            users: Vec::new(),
        }),
        sender: "U001".into(),
    });
    let mut messages = Box::new([old_with_new_reply, new_with_old_reply]);
    Message::bubble_sort(&mut messages);
    assert_eq!(messages[0].clone().unwrap().received_ts, "2.0");
    Message::bubble_sort(&mut messages);
    assert_eq!(messages[0].clone().unwrap().received_ts, "1.0");
}
