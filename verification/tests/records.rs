use debuglogs::ios::{content, log_entry, message, metadata, LogEntryMetadata};
use debuglogs::model::{
    render_timestamp, Content, LogEntry, LogLevel, ParseError, PlatformMetadata, SearchQuery,
    Section, Timestamp,
};
use debuglogs::select::{active_file_index, AppId};
use debuglogs::text::chars_of_text;

fn text(s: &str) -> Vec<char> {
    chars_of_text(s)
}

fn test_timestamp(milliseconds: u32) -> Timestamp {
    Timestamp {
        year: 1234,
        month: 1,
        day: 23,
        hour: 12,
        minute: 34,
        second: 56,
        millisecond: Some(milliseconds),
    }
}

fn test_metadata(line: u32) -> Option<LogEntryMetadata> {
    Some(LogEntryMetadata {
        file: "Item.abc".to_owned(),
        line: line.to_string(),
        symbol: "-[Item handleSomething]".to_owned(),
    })
}

fn test_log_message(
    milliseconds: u32,
    level: Option<LogLevel>,
    metadata: Option<LogEntryMetadata>,
    message: &str,
) -> LogEntry {
    LogEntry {
        timestamp: render_timestamp(&test_timestamp(milliseconds)),
        level,
        meta: PlatformMetadata::Ios(metadata),
        message: message.to_owned(),
    }
}

#[test]
fn rendered_timestamp_text() {
    assert_eq!(render_timestamp(&test_timestamp(789)), "1234-01-23 12:34:56.789 UTC");
}

#[test]
fn rendered_timestamp_pads_fields() {
    let ts = Timestamp {
        year: 34,
        month: 9,
        day: 3,
        hour: 4,
        minute: 5,
        second: 6,
        millisecond: Some(7),
    };
    assert_eq!(render_timestamp(&ts), "0034-09-03 04:05:06.007 UTC");
}

#[test]
fn rendered_timestamp_omits_zero_fraction() {
    let mut ts = test_timestamp(0);
    assert_eq!(render_timestamp(&ts), "1234-01-23 12:34:56 UTC");
    ts.millisecond = None;
    assert_eq!(render_timestamp(&ts), "1234-01-23 12:34:56 UTC");
}

#[test]
fn metadata_basic() {
    let input = text("1234/01/23 12:34:56:789 \u{1F49A} [Item.abc:123 -[Item handleSomething]]:");
    let (ts, lvl, tag, end) = metadata(&input, 0).unwrap();
    assert_eq!(ts, test_timestamp(789));
    assert_eq!(lvl, Some(LogLevel::Debug));
    assert_eq!(tag, test_metadata(123));
    assert_eq!(end, input.len());
}

#[test]
fn metadata_multiple_spaces() {
    let input = text(
        "1234/01/23 12:34:56:789      \u{2764}\u{FE0F}   [Item.abc:123 -[Item handleSomething]]:",
    );
    let (ts, lvl, tag, end) = metadata(&input, 0).unwrap();
    assert_eq!(ts, test_timestamp(789));
    assert_eq!(lvl, Some(LogLevel::Error));
    assert_eq!(tag, test_metadata(123));
    assert_eq!(end, input.len());
}

#[test]
fn metadata_tag_without_trailing_colon() {
    let input = text("1234/01/23 12:34:56:789 \u{1F49B} [Item.abc:123 -[Item handleSomething]] ");
    let (ts, lvl, tag, end) = metadata(&input, 0).unwrap();
    assert_eq!(ts, test_timestamp(789));
    assert_eq!(lvl, Some(LogLevel::Info));
    assert_eq!(tag, test_metadata(123));
    assert_eq!(end, input.len());
}

#[test]
fn metadata_tag_without_symbol() {
    let input = text("1234/01/23 12:34:56:789 \u{1F49B} [path/to/item.abc:123] ");
    let (_, lvl, tag, end) = metadata(&input, 0).unwrap();
    assert_eq!(lvl, Some(LogLevel::Info));
    assert_eq!(
        tag,
        Some(LogEntryMetadata {
            file: "path/to/item.abc".to_owned(),
            line: "123".to_owned(),
            symbol: "".to_owned(),
        })
    );
    assert_eq!(end, input.len());
}

#[test]
fn metadata_no_level_no_tag() {
    let input = text("1234/01/23 12:34:56:789");
    let (ts, lvl, tag, end) = metadata(&input, 0).unwrap();
    assert_eq!(ts, test_timestamp(789));
    assert_eq!(lvl, None);
    assert_eq!(tag, None);
    assert_eq!(end, input.len());
}

#[test]
fn metadata_each_glyph_maps_to_its_level() {
    let glyphs: Vec<(&str, LogLevel)> = vec![
        ("\u{1F499}", LogLevel::Verbose),
        ("\u{1F49A}", LogLevel::Debug),
        ("\u{1F49B}", LogLevel::Info),
        ("\u{1F9E1}", LogLevel::Warn),
        ("\u{2764}\u{FE0F}", LogLevel::Error),
    ];
    let mut seen: Vec<LogLevel> = vec![];
    for (glyph, expected) in glyphs {
        let line = format!("1234/01/23 12:34:56:789 {} message", glyph);
        let input = text(&line);
        let (_, lvl, _, _) = metadata(&input, 0).unwrap();
        assert_eq!(lvl, Some(expected));
        assert!(!seen.contains(&expected));
        seen.push(expected);
    }
    assert_eq!(seen.len(), 5);
}

#[test]
fn metadata_unknown_glyph_run_is_fatal() {
    let input = text("1234/01/23 12:34:56:789 \u{1F499}\u{1F499} message");
    assert_eq!(metadata(&input, 0), Err(ParseError::UnknownLevel));
}

#[test]
fn message_single_line_more_remain() {
    let full = "Debug message\n1234/01/23 12:34:56:789 \u{1F49B} Another message...";
    let input = text(full);
    let (m, end) = message(&input, 0).unwrap();
    assert_eq!(m, "Debug message");
    assert_eq!(end, "Debug message\n".chars().count());
}

#[test]
fn message_single_line_more_remain_no_level() {
    let full = "Debug message\n1234/01/23 12:34:56:789  Another message...";
    let input = text(full);
    let (m, end) = message(&input, 0).unwrap();
    assert_eq!(m, "Debug message");
    assert_eq!(end, "Debug message\n".chars().count());
}

#[test]
fn message_single_line_no_more_remain() {
    let input = text("Debug message");
    let (m, end) = message(&input, 0).unwrap();
    assert_eq!(m, "Debug message");
    assert_eq!(end, input.len());
}

#[test]
fn message_single_line_trailing_newline() {
    let input = text("Debug message\n");
    let (m, end) = message(&input, 0).unwrap();
    assert_eq!(m, "Debug message");
    assert_eq!(end, input.len());
}

#[test]
fn message_multiline_more_remain() {
    let full = "Debug message that spans\nmultiple lines {\n\ta: b,\n\tc: d,\n}\n1234/01/23 12:34:56:789 \u{1F49B} Another message...";
    let input = text(full);
    let (m, end) = message(&input, 0).unwrap();
    assert_eq!(m, "Debug message that spans\nmultiple lines {\n\ta: b,\n\tc: d,\n}");
    assert_eq!(end, full.chars().count() - "1234/01/23 12:34:56:789 \u{1F49B} Another message...".chars().count());
}

#[test]
fn message_multiline_no_more_remain() {
    let input = text("Debug message that spans\nmultiple lines {\n\ta: b,\n\tc: d,\n}");
    let (m, end) = message(&input, 0).unwrap();
    assert_eq!(m, "Debug message that spans\nmultiple lines {\n\ta: b,\n\tc: d,\n}");
    assert_eq!(end, input.len());
}

#[test]
fn message_multiline_trailing_newline() {
    let input = text("Debug message that spans\nmultiple lines {\n\ta: b,\n\tc: d,\n}\n");
    let (m, end) = message(&input, 0).unwrap();
    assert_eq!(m, "Debug message that spans\nmultiple lines {\n\ta: b,\n\tc: d,\n}");
    assert_eq!(end, input.len());
}

#[test]
fn log_entry_single_line_more_remain() {
    let rest = "1234/01/23 12:34:56:789 \u{1F49A} [Item.abc:123 -[Item handleSomething]]: Another message...";
    let full = format!(
        "1234/01/23 12:34:56:789 \u{1F49A} [Item.abc:123 -[Item handleSomething]]: Debug message\n{}",
        rest
    );
    let input = text(&full);
    let (entry, end) = log_entry(&input, 0).unwrap();
    assert_eq!(entry, test_log_message(789, Some(LogLevel::Debug), test_metadata(123), "Debug message"));
    assert_eq!(end, full.chars().count() - rest.chars().count());
}

#[test]
fn log_entry_next_has_no_meta() {
    let rest = "1234/01/23 12:34:56:789  -[Abc def]:123 test";
    let full = format!(
        "1234/01/23 12:34:56:123  \u{2764}\u{FE0F} [Item.abc:123 -[Item handleSomething]]: Test 1\n{}",
        rest
    );
    let input = text(&full);
    let (entry, end) = log_entry(&input, 0).unwrap();
    assert_eq!(entry, test_log_message(123, Some(LogLevel::Error), test_metadata(123), "Test 1"));
    assert_eq!(end, full.chars().count() - rest.chars().count());
}

#[test]
fn log_entry_no_meta() {
    let rest = "1234/01/23 12:34:56:987  \u{1F49A} Next message";
    let full = format!("1234/01/23 12:34:56:789  Just a message.\n{}", rest);
    let input = text(&full);
    let (entry, end) = log_entry(&input, 0).unwrap();
    assert_eq!(entry, test_log_message(789, None, None, "Just a message."));
    assert_eq!(end, full.chars().count() - rest.chars().count());
}

#[test]
fn log_entry_no_message() {
    let rest = "1234/01/23 12:34:56:987  \u{1F49A} Next message";
    let full = format!(
        "1234/01/23 12:34:56:789  \u{2764}\u{FE0F} [Item.abc:123 -[Item handleSomething]]: \n{}",
        rest
    );
    let input = text(&full);
    let (entry, end) = log_entry(&input, 0).unwrap();
    assert_eq!(entry, test_log_message(789, Some(LogLevel::Error), test_metadata(123), ""));
    assert_eq!(end, full.chars().count() - rest.chars().count());
}

fn logs_content(entries: Vec<LogEntry>) -> Content {
    Content {
        information: vec![],
        logs: vec![Section { name: "Logs".to_owned(), content: entries, subsections: vec![] }],
    }
}

#[test]
fn content_two_log_messages() {
    let full = "1234/01/23 12:34:56:789 \u{1F49A} [Item.abc:123 -[Item handleSomething]]: Debug message that spans\nmultiple lines {\n\ta: b,\n\tc: d,\n}\n1234/01/23 12:34:56:987 \u{1F49B} [Item.abc:456 -[Item handleSomething]]: Another message...";
    let input = text(full);
    let (result, end) = content(&input).unwrap();
    assert_eq!(end, input.len(), "remainder should be empty");
    assert_eq!(
        result,
        logs_content(vec![
            test_log_message(
                789,
                Some(LogLevel::Debug),
                test_metadata(123),
                "Debug message that spans\nmultiple lines {\n\ta: b,\n\tc: d,\n}",
            ),
            test_log_message(987, Some(LogLevel::Info), test_metadata(456), "Another message..."),
        ])
    );
}

#[test]
fn content_starts_with_multispace() {
    let full = "\n\t\n  \r\n1234/01/23 12:34:56:789 \u{1F49A} [Item.abc:123 -[Item handleSomething]]: Debug message that spans\nmultiple lines {\n\ta: b,\n\tc: d,\n}\n1234/01/23 12:34:56:987 \u{1F49B} [Item.abc:456 -[Item handleSomething]]: Another message...";
    let input = text(full);
    let (result, end) = content(&input).unwrap();
    assert_eq!(end, input.len(), "remainder should be empty");
    assert_eq!(
        result,
        logs_content(vec![
            test_log_message(
                789,
                Some(LogLevel::Debug),
                test_metadata(123),
                "Debug message that spans\nmultiple lines {\n\ta: b,\n\tc: d,\n}",
            ),
            test_log_message(987, Some(LogLevel::Info), test_metadata(456), "Another message..."),
        ])
    );
}

#[test]
fn content_no_level_in_the_middle() {
    let full = "1234/01/23 12:34:56:123  \u{2764}\u{FE0F} [Item.abc:123 -[Item handleSomething]]: Test 1\n1234/01/23 12:34:56:789  -[Abc def]:123 test\n1234/01/23 12:34:56:987  \u{1F49A} [Item.abc:456 -[Item handleSomething]]: Test 2";
    let input = text(full);
    let (result, end) = content(&input).unwrap();
    assert_eq!(end, input.len(), "remainder should be empty");
    assert_eq!(
        result,
        logs_content(vec![
            test_log_message(123, Some(LogLevel::Error), test_metadata(123), "Test 1"),
            test_log_message(789, None, None, "-[Abc def]:123 test"),
            test_log_message(987, Some(LogLevel::Debug), test_metadata(456), "Test 2"),
        ])
    );
}

#[test]
fn content_empty_input_yields_one_empty_section() {
    let input = text("   \n \t ");
    let (result, end) = content(&input).unwrap();
    assert_eq!(end, input.len());
    assert_eq!(result, logs_content(vec![]));
}

#[test]
fn content_fatal_failure_aborts_whole_file() {
    let full = "1234/01/23 12:34:56:789 msg\n1234/13/23 12:34:56:789 bad month";
    let input = text(full);
    assert_eq!(content(&input), Err(ParseError::InvalidDate));
}

#[test]
fn active_file_prefers_last_primary() {
    let ids = vec![AppId::Signal, AppId::Signal, AppId::NotificationServiceExtension];
    assert_eq!(active_file_index(&ids), Some(1));
}

#[test]
fn active_file_falls_back_to_last_extension() {
    let ids = vec![AppId::NotificationServiceExtension, AppId::ShareAppExtension];
    assert_eq!(active_file_index(&ids), Some(0));
    let ids = vec![AppId::ShareAppExtension, AppId::ShareAppExtension];
    assert_eq!(active_file_index(&ids), Some(1));
}

#[test]
fn active_file_none_when_empty() {
    let ids: Vec<AppId> = vec![];
    assert_eq!(active_file_index(&ids), None);
}

#[test]
fn log_level_order() {
    let levels = vec![
        LogLevel::Verbose,
        LogLevel::Debug,
        LogLevel::Info,
        LogLevel::Warn,
        LogLevel::Error,
    ];
    for (i, a) in levels.iter().enumerate() {
        for (j, b) in levels.iter().enumerate() {
            assert_eq!(a.at_least(b), i >= j);
        }
    }
}

#[test]
fn search_query_default() {
    let q = SearchQuery::default();
    assert_eq!(q.min_log_level, LogLevel::Error);
    assert_eq!(q.string, "");
}

#[test]
fn message_two_lines_up_to_next_record() {
    let next_record = "1234/01/23 12:34:56:789 \u{1F49B} next";
    let full = format!("line1\nline2\n{}", next_record);
    let input = text(&full);
    let (m, end) = message(&input, 0).unwrap();
    assert_eq!(m, "line1\nline2");
    assert_eq!(end, full.chars().count() - next_record.chars().count());
}

#[test]
fn message_without_newline_or_next_record() {
    let input = text("line1");
    let (m, end) = message(&input, 0).unwrap();
    assert_eq!(m, "line1");
    assert_eq!(end, input.len());
}

#[test]
fn text_contains_finds_substrings() {
    let hay = text("hello log world");
    assert!(debuglogs::model::text_contains(&hay, &text("log")));
    assert!(debuglogs::model::text_contains(&hay, &text("")));
    assert!(debuglogs::model::text_contains(&hay, &text("hello log world")));
    assert!(!debuglogs::model::text_contains(&hay, &text("logs")));
    assert!(!debuglogs::model::text_contains(&text(""), &text("x")));
}

#[test]
fn query_filters_by_level_and_substring() {
    let entry = test_log_message(789, Some(LogLevel::Warn), None, "disk is nearly full");
    let hit = SearchQuery { min_log_level: LogLevel::Info, string: "nearly".to_owned() };
    assert!(hit.matches(&entry));
    let too_severe = SearchQuery { min_log_level: LogLevel::Error, string: "nearly".to_owned() };
    assert!(!too_severe.matches(&entry));
    let wrong_text = SearchQuery { min_log_level: LogLevel::Info, string: "network".to_owned() };
    assert!(!wrong_text.matches(&entry));
    let unleveled = test_log_message(789, None, None, "disk is nearly full");
    assert!(!hit.matches(&unleveled));
}
