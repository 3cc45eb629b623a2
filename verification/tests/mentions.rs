use mention_watch::mentions::{extract, scan};
use mention_watch::messages::{Message, Reply};

fn message(text: &str, sender: &str, reply: Option<Reply>) -> Message {
    Message {
        channel_id: None,
        message: text.into(),
        received_at: 0,
        received_ts: "0.0".into(),
        reply,
        sender: sender.into(),
    }
}

#[test]
fn mention_in_a_sentence() {
    assert_eq!(
        scan("hello <@U012345678X> are you free"),
        vec!["U012345678X".to_string()]
    );
}

#[test]
fn text_without_marker_mentions_nobody() {
    assert_eq!(scan("nothing to see here"), Vec::<String>::new());
    assert_eq!(scan(""), Vec::<String>::new());
    assert_eq!(scan("< @U012345678X>"), Vec::<String>::new());
}

#[test]
fn mentions_come_in_the_order_of_their_markers() {
    assert_eq!(
        scan("<@UBBBBBBBBBB> and <@UAAAAAAAAAA>, also <@UBBBBBBBBBB>!"),
        vec![
            "UBBBBBBBBBB".to_string(),
            "UAAAAAAAAAA".to_string(),
            "UBBBBBBBBBB".to_string()
        ]
    );
}

#[test]
fn span_that_ends_in_the_closing_bracket_is_passed_over() {
    // ten characters only: the eleventh byte of the span is the bracket
    assert_eq!(scan("<@U012345678> hi"), Vec::<String>::new());
}

#[test]
fn span_is_taken_whatever_follows_it() {
    assert_eq!(
        scan("<@U012345678XYZ"),
        vec!["U012345678X".to_string()]
    );
}

#[test]
fn marker_too_close_to_the_end_is_passed_over() {
    assert_eq!(scan("<@U012345678"), Vec::<String>::new());
    assert_eq!(scan("bye <@"), Vec::<String>::new());
    // the span has to end before the end of the text ...
    assert_eq!(
        scan("<@U012345678X"),
        vec!["U012345678X".to_string()]
    );
    // ... and one byte less is not enough
    assert_eq!(scan("<@U01234567X"), Vec::<String>::new());
}

#[test]
fn span_that_would_cut_a_character_is_passed_over() {
    assert_eq!(scan("<@U123456789\u{e9}x"), Vec::<String>::new());
    // the same character wholly inside the span is taken
    assert_eq!(
        scan("<@U12345678\u{e9}x"),
        vec!["U12345678\u{e9}".to_string()]
    );
}

#[test]
fn marker_after_wide_characters_is_found() {
    assert_eq!(
        scan("\u{e9}\u{4e2d} <@U012345678X>"),
        vec!["U012345678X".to_string()]
    );
}

#[test]
fn extract_gives_the_set_of_those_mentioned() {
    assert_eq!(
        extract("hello <@U012345678X> are you free"),
        vec!["U012345678X".to_string()]
    );
    assert_eq!(
        extract("<@UBBBBBBBBBB> and <@UAAAAAAAAAA>, also <@UBBBBBBBBBB>!"),
        vec!["UAAAAAAAAAA".to_string(), "UBBBBBBBBBB".to_string()]
    );
    assert_eq!(extract("no marker"), Vec::<String>::new());
    assert_eq!(extract("<@U012345678> hi"), Vec::<String>::new());
}

#[test]
fn find_users_in_text_reads_the_text_of_the_message() {
    let m = message("ping <@U0000000001> and <@U0000000002>", "U9", None);
    assert_eq!(
        m.find_users_in_text(),
        vec!["U0000000001".to_string(), "U0000000002".to_string()]
    );
}

#[test]
fn find_users_in_text_is_sorted_and_holds_each_once() {
    let m = message("<@U000000002B> <@U000000001A> <@U000000002B>", "U001", None);
    assert_eq!(
        m.find_users_in_text(),
        vec!["U000000001A".to_string(), "U000000002B".to_string()]
    );
    assert_eq!(message("no marker", "U001", None).find_users_in_text(), Vec::<String>::new());
}

#[test]
fn users_list_is_sorted_and_holds_each_once() {
    let m = message(
        "<@UZZZZZZZZZZ> <@UAAAAAAAAAA> <@UZZZZZZZZZZ>",
        "UMMMMMMMMMM",
        Some(Reply {
            latest_reply: 5,
            latest_ts: "5.0".into(),
            users: vec!["UAAAAAAAAAA".into(), "UBBBBBBBBBB".into()],
        }),
    );
    assert_eq!(
        m.users_list(),
        vec![
            "UAAAAAAAAAA".to_string(),
            "UBBBBBBBBBB".to_string(),
            "UMMMMMMMMMM".to_string(),
            "UZZZZZZZZZZ".to_string()
        ]
    );
}

#[test]
fn users_list_of_a_plain_message_is_its_sender() {
    let m = message("hello", "U001", None);
    assert_eq!(m.users_list(), vec!["U001".to_string()]);
}

#[test]
fn users_list_orders_by_bytes() {
    let m = message(
        "",
        "b",
        Some(Reply {
            latest_reply: 0,
            latest_ts: "0".into(),
            users: vec!["a".into(), "B".into(), "ab".into(), "".into(), "\u{e9}".into()],
        }),
    );
    let mut expected: Vec<String> = vec![
        "a".into(),
        "B".into(),
        "ab".into(),
        "".into(),
        "\u{e9}".into(),
        "b".into(),
    ];
    expected.sort();
    expected.dedup();
    assert_eq!(m.users_list(), expected);
    assert_eq!(
        m.users_list(),
        vec![
            "".to_string(),
            "B".to_string(),
            "a".to_string(),
            "ab".to_string(),
            "b".to_string(),
            "\u{e9}".to_string()
        ]
    );
}

#[test]
fn set_channel_id_fills_the_channel_only() {
    let mut m = message("hello", "U001", None);
    m.set_channel_id("C123");
    assert_eq!(m.channel_id, Some("C123".to_string()));
    assert_eq!(m.message, "hello");
    assert_eq!(m.sender, "U001");
    assert_eq!(m.received_ts, "0.0");
    assert!(m.reply.is_none());
}
