use debuglogs::common::{
    bucket, bucketed_flag, key_maybe_enabled_value, naive_date_time, section_header,
};
use debuglogs::model::{Bucket, InfoEntry, ParseError, Timestamp, Value};
use debuglogs::text::chars_of_text;

fn text(s: &str) -> Vec<char> {
    chars_of_text(s)
}

fn test_bucket(country_code: &str, value: u32) -> Bucket {
    Bucket { country_code: country_code.to_owned(), value: value.to_string() }
}

#[test]
fn section_header_ok() {
    let input = text("========== Name ==========");
    let (name, end) = section_header(&input, 0).unwrap();
    assert_eq!(name, "Name");
    assert_eq!(end, input.len());
}

#[test]
fn section_header_multiple_words() {
    let input = text("===== Multiple Words =====");
    let (name, end) = section_header(&input, 0).unwrap();
    assert_eq!(name, "Multiple Words");
    assert_eq!(end, input.len());
}

#[test]
fn section_header_odd_decorations() {
    let input = text("=============   Odd   ====");
    let (name, end) = section_header(&input, 0).unwrap();
    assert_eq!(name, "Odd");
    assert_eq!(end, input.len());
}

#[test]
fn section_header_err_without_closing() {
    let input = text("===== Name");
    assert!(section_header(&input, 0).is_err());
}

#[test]
fn bucket_ok_digit() {
    let input = text("1:2");
    let (b, end) = bucket(&input, 0).unwrap();
    assert_eq!(b, test_bucket("1", 2));
    assert_eq!(end, input.len());
}

#[test]
fn bucket_ok_other() {
    let input = text("*:1");
    let (b, end) = bucket(&input, 0).unwrap();
    assert_eq!(b, test_bucket("*", 1));
    assert_eq!(end, input.len());
}

#[test]
fn bucket_err() {
    let input = text(
        "true\n\n========= Logs =========\nINFO  1234-01-23T12:34:56.789Z Message",
    );
    assert!(bucket(&input, 0).is_err())
}

#[test]
fn bucketed_flag_ok_basic() {
    let input = text("1:2,3:4,*:5");
    let (bs, end) = bucketed_flag(&input, 0).unwrap();
    assert_eq!(bs, vec![test_bucket("1", 2), test_bucket("3", 4), test_bucket("*", 5)]);
    assert_eq!(end, input.len());
}

#[test]
fn bucketed_flag_ok_followed_by_log_section() {
    let full = "1:2,3:4,*:5\n\n========= Logs =========\nINFO  1234-01-23T12:34:56.789Z Message";
    let input = text(full);
    let (bs, end) = bucketed_flag(&input, 0).unwrap();
    assert_eq!(bs, vec![test_bucket("1", 2), test_bucket("3", 4), test_bucket("*", 5)]);
    // the candidate list itself is consumed; the rest still stands
    assert_eq!(end, "1:2,3:4,*:5".chars().count());
}

#[test]
fn bucketed_flag_err() {
    let input = text(
        "true\n\n========= Logs =========\nINFO  1234-01-23T12:34:56.789Z Message",
    );
    assert!(bucketed_flag(&input, 0).is_err())
}

#[test]
fn bucketed_flag_err_not_all_digits() {
    // the middle segment's value is not all digits, and the candidate is not
    // followed by a newline, pipe or end of input at the point it stops
    let input = text("1:2,x:y,3:4");
    assert!(bucketed_flag(&input, 0).is_err());
}

#[test]
fn key_maybe_enabled_value_bucketed() {
    let input = text("abc.defGhi.jkl123: 1:2,3:4,*:5");
    let (entry, end) = key_maybe_enabled_value(&input, 0).unwrap();
    assert_eq!(
        entry,
        InfoEntry::KeyValue(
            "abc.defGhi.jkl123".to_owned(),
            Value::BucketedFlag(vec![test_bucket("1", 2), test_bucket("3", 4), test_bucket("*", 5)]),
        )
    );
    assert_eq!(end, input.len());
}

#[test]
fn key_maybe_enabled_value_enabled_bucketed() {
    let input = text("abc.defGhi.jkl123: enabled 1:2,3:4,*:5");
    let (entry, end) = key_maybe_enabled_value(&input, 0).unwrap();
    assert_eq!(
        entry,
        InfoEntry::KeyEnabledValue(
            "abc.defGhi.jkl123".to_owned(),
            true,
            Some(Value::BucketedFlag(vec![
                test_bucket("1", 2),
                test_bucket("3", 4),
                test_bucket("*", 5),
            ])),
        )
    );
    assert_eq!(end, input.len());
}

#[test]
fn key_maybe_enabled_value_generic() {
    let input = text("abc-defghi-jkl123: generic value");
    let (entry, end) = key_maybe_enabled_value(&input, 0).unwrap();
    assert_eq!(
        entry,
        InfoEntry::KeyValue("abc-defghi-jkl123".to_owned(), Value::Generic("generic value".to_owned()))
    );
    assert_eq!(end, input.len());
}

#[test]
fn key_maybe_enabled_value_disabled_generic() {
    let input = text("abc.defGhi.jkl123: disabled \\slash");
    let (entry, end) = key_maybe_enabled_value(&input, 0).unwrap();
    assert_eq!(
        entry,
        InfoEntry::KeyEnabledValue(
            "abc.defGhi.jkl123".to_owned(),
            false,
            Some(Value::Generic("\\slash".to_owned())),
        )
    );
    assert_eq!(end, input.len());
}

#[test]
fn key_maybe_enabled_value_disabled_no_value() {
    let input = text("abc.defGhi.jkl123: disabled");
    let (entry, end) = key_maybe_enabled_value(&input, 0).unwrap();
    assert_eq!(entry, InfoEntry::KeyEnabledValue("abc.defGhi.jkl123".to_owned(), false, None));
    assert_eq!(end, input.len());
}

#[test]
fn key_maybe_enabled_value_trailing_newline() {
    let input = text("abc.defGhi.jkl123: disabled //../.123//..abc\n");
    let (entry, end) = key_maybe_enabled_value(&input, 0).unwrap();
    assert_eq!(
        entry,
        InfoEntry::KeyEnabledValue(
            "abc.defGhi.jkl123".to_owned(),
            false,
            Some(Value::Generic("//../.123//..abc".to_owned())),
        )
    );
    // the terminating newline is not consumed
    assert_eq!(end, input.len() - 1);
}

#[test]
fn key_maybe_enabled_value_time_in_value() {
    let input = text("abc.defGhi.jkl123: 12:34:56\n");
    let (entry, end) = key_maybe_enabled_value(&input, 0).unwrap();
    assert_eq!(
        entry,
        InfoEntry::KeyValue("abc.defGhi.jkl123".to_owned(), Value::Generic("12:34:56".to_owned()))
    );
    assert_eq!(end, input.len() - 1);
}

#[test]
fn key_maybe_enabled_value_array_in_value() {
    let input = text("abc.defGhi.jkl123: [A, BC, DEF]\n");
    let (entry, end) = key_maybe_enabled_value(&input, 0).unwrap();
    assert_eq!(
        entry,
        InfoEntry::KeyValue("abc.defGhi.jkl123".to_owned(), Value::Generic("[A, BC, DEF]".to_owned()))
    );
    assert_eq!(end, input.len() - 1);
}

#[test]
fn key_maybe_enabled_value_followed_by_log_section() {
    let full = "abc: disabled true\n\n========= Logs =========\nINFO  1234-01-23T12:34:56.789Z This is a test message.";
    let input = text(full);
    let (entry, end) = key_maybe_enabled_value(&input, 0).unwrap();
    assert_eq!(
        entry,
        InfoEntry::KeyEnabledValue("abc".to_owned(), false, Some(Value::Generic("true".to_owned())))
    );
    assert_eq!(end, "abc: disabled true".chars().count());
}

#[test]
fn key_maybe_enabled_value_err() {
    let input = text("-- test : 123");
    assert!(key_maybe_enabled_value(&input, 0).is_err())
}

#[test]
fn key_maybe_enabled_value_reserved_marker() {
    let input = text("-- x: 1");
    assert!(key_maybe_enabled_value(&input, 0).is_err());
}

#[test]
fn key_maybe_enabled_value_missing_value() {
    let input = text("some.key: ");
    assert_eq!(key_maybe_enabled_value(&input, 0), Err(ParseError::MissingValue));
}

#[test]
fn timestamp_ok() {
    let input = text("1234/01/23 12:34:56:789");
    let (ts, end) = naive_date_time(None, '/', ' ', ':', Some(':'), None, &input, 0).unwrap();
    assert_eq!(
        ts,
        Timestamp {
            year: 1234,
            month: 1,
            day: 23,
            hour: 12,
            minute: 34,
            second: 56,
            millisecond: Some(789),
        }
    );
    assert_eq!(end, input.len(), "remainder should be empty");
}

#[test]
fn timestamp_assumed_year_and_ending() {
    let input = text("01-23T12:34:56.789Z trailing");
    let (ts, end) = naive_date_time(Some(2021), '-', 'T', ':', Some('.'), Some('Z'), &input, 0)
        .unwrap();
    assert_eq!(
        ts,
        Timestamp {
            year: 2021,
            month: 1,
            day: 23,
            hour: 12,
            minute: 34,
            second: 56,
            millisecond: Some(789),
        }
    );
    assert_eq!(end, "01-23T12:34:56.789Z".chars().count());
}

#[test]
fn timestamp_no_millisecond_field() {
    let input = text("1234/01/23 12:34:56");
    let (ts, end) = naive_date_time(None, '/', ' ', ':', None, None, &input, 0).unwrap();
    assert_eq!(ts.millisecond, None);
    assert_eq!(ts.second, 56);
    assert_eq!(end, input.len());
}

#[test]
fn timestamp_field_too_large() {
    let input = text("99999999999/01/23 12:34:56:789");
    assert_eq!(
        naive_date_time(None, '/', ' ', ':', Some(':'), None, &input, 0),
        Err(ParseError::NumberTooLarge)
    );
}

#[test]
fn timestamp_invalid_month() {
    let input = text("1234/13/23 12:34:56:789");
    assert_eq!(
        naive_date_time(None, '/', ' ', ':', Some(':'), None, &input, 0),
        Err(ParseError::InvalidDate)
    );
}

#[test]
fn timestamp_leap_year_day() {
    let ok = text("2020/02/29 00:00:00:000");
    assert!(naive_date_time(None, '/', ' ', ':', Some(':'), None, &ok, 0).is_ok());
    let bad = text("2021/02/29 00:00:00:000");
    assert_eq!(
        naive_date_time(None, '/', ' ', ':', Some(':'), None, &bad, 0),
        Err(ParseError::InvalidDate)
    );
}

#[test]
fn timestamp_grammar_mismatch() {
    let input = text("1234-01-23 12:34:56:789");
    assert_eq!(
        naive_date_time(None, '/', ' ', ':', Some(':'), None, &input, 0),
        Err(ParseError::Mismatch)
    );
}

#[test]
fn info_entry_enabled_bucketed_exact() {
    let input = text("k: enabled 1:2,3:4,*:5");
    let (entry, end) = key_maybe_enabled_value(&input, 0).unwrap();
    assert_eq!(
        entry,
        InfoEntry::KeyEnabledValue(
            "k".to_owned(),
            true,
            Some(Value::BucketedFlag(vec![
                test_bucket("1", 2),
                test_bucket("3", 4),
                test_bucket("*", 5),
            ])),
        )
    );
    assert_eq!(end, input.len());
}

#[test]
fn info_entry_disabled_exact() {
    let input = text("k: disabled");
    let (entry, end) = key_maybe_enabled_value(&input, 0).unwrap();
    assert_eq!(entry, InfoEntry::KeyEnabledValue("k".to_owned(), false, None));
    assert_eq!(end, input.len());
}

#[test]
fn info_entry_time_shaped_value_stays_generic() {
    let input = text("k: 12:34:56");
    let (entry, end) = key_maybe_enabled_value(&input, 0).unwrap();
    assert_eq!(entry, InfoEntry::KeyValue("k".to_owned(), Value::Generic("12:34:56".to_owned())));
    assert_eq!(end, input.len());
}

#[test]
fn bucketed_list_accepted_before_pipe() {
    let input = text("k: 1:2,3:4|rest");
    let (entry, end) = key_maybe_enabled_value(&input, 0).unwrap();
    assert_eq!(
        entry,
        InfoEntry::KeyValue(
            "k".to_owned(),
            Value::BucketedFlag(vec![test_bucket("1", 2), test_bucket("3", 4)]),
        )
    );
    // the pipe terminates the candidate without being consumed
    assert_eq!(end, "k: 1:2,3:4".chars().count());
}
