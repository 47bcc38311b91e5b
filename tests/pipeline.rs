use chatbook::book::{compile_book, master_document, ChapterDocument};
use chatbook::chapter::{chronological_order, partition_months, MonthSpan};
use chatbook::message::{
    normalize_database_record, normalize_export_record, normalize_export_records, same_text,
    DatabaseRecord, ExportRecord, Message, NormalizeError,
};
use chatbook::render::{render_message, render_message_with_body};
use chatbook::sanitize::{
    escape_markup, normalize_punctuation, sanitize, strip_variation_selectors, wrap_marked_runs,
};

const NOV_15_2020: i64 = 1_605_398_400_000;
const NOV_20_2020: i64 = 1_605_830_400_000;
const DEC_01_2020: i64 = 1_606_780_800_000;

fn msg(from_self: bool, ms: i64, body: Option<&str>, attachments: u32) -> Message {
    Message::new(from_self, ms, body.map(|b| b.to_string()), attachments).unwrap()
}

#[test]
fn emoji_run_is_wrapped_alone() {
    assert_eq!(sanitize("Hi 😀 there"), "Hi {\\emojifont 😀} there");
}

#[test]
fn adjacent_emoji_share_one_span() {
    assert_eq!(sanitize("a😀😀b"), "a{\\emojifont 😀😀}b");
    assert_eq!(sanitize("😀"), "{\\emojifont 😀}");
}

#[test]
fn variation_selector_is_stripped_inside_emoji_run() {
    assert_eq!(sanitize("❤\u{FE0F}❤\u{FE0F}"), "{\\emojifont ❤❤}");
    assert_eq!(strip_variation_selectors("a\u{FE0F}b"), "ab");
}

#[test]
fn every_reserved_character_is_escaped() {
    assert_eq!(
        escape_markup("\\$%&_^~#{}"),
        "\\textbackslash\\ \\$\\%\\&\\_\\textasciicircum\\ \\textasciitilde\\ \\#\\{\\}"
    );
    assert_eq!(sanitize("50% & $5"), "50\\% \\& \\$5");
}

#[test]
fn newline_becomes_forced_break() {
    assert_eq!(sanitize("one\ntwo"), "one\\newline\ntwo");
}

#[test]
fn typographic_punctuation_becomes_ascii() {
    assert_eq!(normalize_punctuation("it\u{2019}s \u{201C}ok\u{201D}\u{2026}"), "it's \"ok\"...");
    assert_eq!(sanitize("wait\u{2026}"), "wait...");
}

#[test]
fn punctuation_normalization_twice_is_once() {
    let once = normalize_punctuation("\u{201C}so\u{2026}\u{201D} it\u{2019}s");
    assert_eq!(normalize_punctuation(&once), once);
}

#[test]
fn marked_runs_follow_the_marks() {
    assert_eq!(
        wrap_marked_runs("abcd", &vec![false, true, true, false]),
        "a{\\emojifont bc}d"
    );
    assert_eq!(wrap_marked_runs("ab", &vec![true, false]), "{\\emojifont a}b");
    assert_eq!(wrap_marked_runs("ab", &vec![false, true]), "a{\\emojifont b}");
}

#[test]
fn one_attachment_is_singular() {
    let m = msg(true, NOV_15_2020, None, 1);
    assert_eq!(
        render_message(&m),
        "\\markright{November 15, 2020}\n\\leftmsg{\\fbox{1 Attachment}}\n\n"
    );
}

#[test]
fn two_attachments_are_plural() {
    let m = msg(false, NOV_15_2020, Some("look"), 2);
    assert_eq!(
        render_message(&m),
        "\\markright{November 15, 2020}\n\\rightmsg{look\\enskip\\fbox{2 Attachments}}\n\n"
    );
}

#[test]
fn no_attachment_no_badge() {
    let m = msg(false, NOV_15_2020, Some("hi"), 0);
    let r = render_message(&m);
    assert!(!r.contains("fbox"));
    assert_eq!(r, "\\markright{November 15, 2020}\n\\rightmsg{hi}\n\n");
}

#[test]
fn empty_message_is_empty_block() {
    let m = msg(true, NOV_15_2020, None, 0);
    assert_eq!(render_message(&m), "\\markright{November 15, 2020}\n\\leftmsg{}\n\n");
}

#[test]
fn single_digit_day_is_space_padded() {
    let m = msg(true, NOV_15_2020 - 10 * 86_400_000, Some("x"), 0);
    assert_eq!(render_message_with_body(&m, "y"), "\\markright{November  5, 2020}\n\\leftmsg{y}\n\n");
}

#[test]
fn body_is_sanitized_when_rendered() {
    let m = msg(true, NOV_15_2020, Some("a_b"), 0);
    assert_eq!(render_message(&m), "\\markright{November 15, 2020}\n\\leftmsg{a\\_b}\n\n");
}

#[test]
fn three_messages_make_two_chapters() {
    let messages = vec![
        msg(true, NOV_15_2020, Some("first"), 0),
        msg(false, NOV_20_2020, Some("second"), 0),
        msg(true, DEC_01_2020, Some("third"), 0),
    ];
    let book = compile_book(&messages);
    assert_eq!(book.order, vec![0, 1, 2]);
    assert_eq!(
        book.spans,
        vec![
            MonthSpan { year: 2020, month: 11, start: 0, end: 2 },
            MonthSpan { year: 2020, month: 12, start: 2, end: 3 },
        ]
    );
    assert_eq!(book.chapters.len(), 2);
    assert_eq!(book.chapters[0].name, "ch-2020-11");
    assert_eq!(book.chapters[1].name, "ch-2020-12");
    assert_eq!(
        book.chapters[0].text,
        format!(
            "\\chapter{{November 2020}}\n\n{}{}",
            render_message(&messages[0]),
            render_message(&messages[1])
        )
    );
    assert_eq!(
        book.chapters[1].text,
        format!("\\chapter{{December 2020}}\n\n{}", render_message(&messages[2]))
    );
}

#[test]
fn unsorted_input_is_sorted_before_partition() {
    let messages = vec![
        msg(true, DEC_01_2020, Some("third"), 0),
        msg(true, NOV_20_2020, Some("second"), 0),
        msg(true, NOV_15_2020, Some("first"), 0),
    ];
    assert_eq!(chronological_order(&messages), vec![2, 1, 0]);
    let book = compile_book(&messages);
    assert_eq!(book.chapters.len(), 2);
    assert_eq!(book.spans[0].start, 0);
    assert_eq!(book.spans[0].end, 2);
}

#[test]
fn equal_timestamps_keep_input_order() {
    let messages = vec![
        msg(true, NOV_15_2020, Some("a"), 0),
        msg(false, NOV_15_2020, Some("b"), 0),
    ];
    assert_eq!(chronological_order(&messages), vec![0, 1]);
}

#[test]
fn partition_covers_every_position_once() {
    let keys = vec![(2020, 11), (2020, 11), (2020, 12), (2021, 1), (2021, 1)];
    let spans = partition_months(&keys);
    assert_eq!(
        spans,
        vec![
            MonthSpan { year: 2020, month: 11, start: 0, end: 2 },
            MonthSpan { year: 2020, month: 12, start: 2, end: 3 },
            MonthSpan { year: 2021, month: 1, start: 3, end: 5 },
        ]
    );
    assert!(partition_months(&vec![]).is_empty());
}

#[test]
fn empty_conversation_makes_no_chapter() {
    let book = compile_book(&vec![]);
    assert!(book.chapters.is_empty());
    assert_eq!(master_document("PRE\n", &book.chapters), "PRE\n\\end{document}");
}

#[test]
fn master_document_includes_chapters_in_order() {
    let chapters = vec![
        ChapterDocument { name: "ch-2020-11".to_string(), text: String::new() },
        ChapterDocument { name: "ch-2020-12".to_string(), text: String::new() },
    ];
    assert_eq!(
        master_document("PRE\n", &chapters),
        "PRE\n\\include{ch-2020-11}\n\\include{ch-2020-12}\n\\end{document}"
    );
}

#[test]
fn missing_timestamp_is_rejected() {
    let rec = ExportRecord { sender_name: Some("me".to_string()), timestamp_ms: None, content: Some("hi".to_string()) };
    assert_eq!(normalize_export_record(&rec, "me").unwrap_err(), NormalizeError::MissingTimestamp);
    let ok = ExportRecord { sender_name: Some("me".to_string()), timestamp_ms: Some(NOV_15_2020), content: None };
    let res = normalize_export_records(&vec![ok, rec], "me");
    assert_eq!(res.unwrap_err(), NormalizeError::MissingTimestamp);
}

#[test]
fn out_of_range_timestamp_is_rejected() {
    assert_eq!(Message::new(true, i64::MAX, None, 0).unwrap_err(), NormalizeError::TimestampOutOfRange);
}

#[test]
fn export_record_sender_and_body() {
    let rec = ExportRecord { sender_name: Some("me".to_string()), timestamp_ms: Some(NOV_20_2020), content: Some("hey".to_string()) };
    let m = normalize_export_record(&rec, "me").unwrap();
    assert!(m.sender_is_self);
    assert_eq!(m.body.as_deref(), Some("hey"));
    assert_eq!(m.attachment_count, 0);
    assert_eq!((m.date.year, m.date.month, m.date.day), (2020, 11, 20));
    let other = normalize_export_record(&rec, "you").unwrap();
    assert!(!other.sender_is_self);
    let anon = ExportRecord { sender_name: None, timestamp_ms: Some(NOV_20_2020), content: None };
    let a = normalize_export_record(&anon, "me").unwrap();
    assert!(!a.sender_is_self);
    assert!(a.body.is_none());
}

#[test]
fn database_record_counts() {
    let rec = DatabaseRecord { is_from_me: true, timestamp_ms: Some(DEC_01_2020), text: None, num_attachments: 3 };
    let m = normalize_database_record(&rec).unwrap();
    assert_eq!(m.attachment_count, 3);
    assert_eq!((m.date.year, m.date.month, m.date.day), (2020, 12, 1));
    let bad = DatabaseRecord { is_from_me: true, timestamp_ms: Some(DEC_01_2020), text: None, num_attachments: -1 };
    assert_eq!(normalize_database_record(&bad).unwrap_err(), NormalizeError::NegativeAttachmentCount);
    let none = DatabaseRecord { is_from_me: true, timestamp_ms: None, text: None, num_attachments: -1 };
    assert_eq!(normalize_database_record(&none).unwrap_err(), NormalizeError::MissingTimestamp);
}

#[test]
fn text_comparison() {
    assert!(same_text("abc", "abc"));
    assert!(!same_text("abc", "abd"));
    assert!(!same_text("ab", "abc"));
    assert!(same_text("", ""));
}

#[test]
fn years_outside_four_digits_carry_a_sign() {
    // 0000-01-01 and -0001-12-31
    let year_zero = msg(true, -62_167_219_200_000, None, 0);
    assert_eq!(year_zero.date.year, 0);
    assert_eq!(render_message(&year_zero), "\\markright{January  1, 0000}\n\\leftmsg{}\n\n");
    let before = msg(true, -62_167_219_200_000 - 86_400_000, None, 0);
    assert_eq!(render_message(&before), "\\markright{December 31, -0001}\n\\leftmsg{}\n\n");
    let book = compile_book(&vec![before]);
    assert_eq!(book.chapters[0].name, "ch--0001-12");
}

#[test]
fn left_single_quote_becomes_apostrophe() {
    assert_eq!(normalize_punctuation("\u{2018}quoted\u{2019}"), "'quoted'");
    assert_eq!(sanitize("\u{2018}"), "'");
}

#[test]
fn sanitized_text_has_plain_punctuation() {
    let out = sanitize("\u{2018}a\u{2019} \u{201C}b\u{201D}\u{2026} 😀 $");
    assert_eq!(out, "'a' \"b\"... {\\emojifont 😀} \\$");
    assert_eq!(normalize_punctuation(&out), out);
}

#[test]
fn braces_beside_an_emoji_span_stay_escaped() {
    assert_eq!(sanitize("{😀}"), "\\{{\\emojifont 😀}\\}");
    assert_eq!(sanitize("\\😀^"), "\\textbackslash\\ {\\emojifont 😀}\\textasciicircum\\ ");
}
