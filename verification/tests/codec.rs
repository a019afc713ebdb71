use expense_tracker::amount::{Amount, Reading};
use expense_tracker::error::ParseCause;
use expense_tracker::expense::Expense;
use expense_tracker::timestamp::Timestamp;

fn amount(x: f64) -> Amount {
    Amount::from_bits(x.to_bits())
}

fn number(a: Amount) -> f64 {
    f64::from_bits(a.to_bits())
}

fn read(text: &str) -> Reading {
    match text.parse::<f64>() {
        Ok(x) => Ok(amount(x)),
        Err(e) => Err(e.to_string()),
    }
}

fn decode(line: &str) -> Result<Expense, expense_tracker::error::ParseError> {
    let reading = match Expense::amount_field(line) {
        Some(text) => read(&text),
        None => Err(String::new()),
    };
    Expense::from_psv_record(line, reading)
}

fn strings(items: &[&str]) -> Vec<String> {
    items.iter().map(|s| s.to_string()).collect()
}

#[test]
fn writes_the_five_fields_in_order() {
    let when = Timestamp::new(1_431_648_000, 4_000_000).unwrap();
    let e = Expense::at(
        amount(12.5),
        Some("Lunch at work".to_string()),
        "Food".to_string(),
        Some(strings(&["Work", "Urgent"])),
        when,
    )
    .unwrap();
    assert_eq!(
        e.to_psv_record("12.5"),
        "2015-05-15 00:00:00.004+0000|food|12.5|\"Lunch at work\"|\"work,urgent\"\n"
    );
}

#[test]
fn writes_no_description_and_no_tags_as_empty_quotes() {
    let when = Timestamp::new(0, 0).unwrap();
    let e = Expense::at(amount(3.0), None, "rent".to_string(), None, when).unwrap();
    assert_eq!(e.to_psv_record("3"), "1970-01-01 00:00:00.000+0000|rent|3|\"\"|\"\"\n");
}

#[test]
fn lower_case_reaches_beyond_ascii() {
    let when = Timestamp::new(0, 0).unwrap();
    let e = Expense::at(
        amount(1.0),
        Some("Kept As Is".to_string()),
        "ÉCOLE".to_string(),
        Some(strings(&["ÄÖÜ"])),
        when,
    )
    .unwrap();
    assert_eq!(
        e.to_psv_record("1"),
        "1970-01-01 00:00:00.000+0000|école|1|\"Kept As Is\"|\"äöü\"\n"
    );
}

#[test]
fn reads_back_what_was_written() {
    let line = "2015-05-15 00:00:00.004+0000|food|12.5|\"Lunch at work\"|\"work,urgent\"\n";
    let text = Expense::amount_field(line).unwrap();
    assert_eq!(text, "12.5");
    let e = Expense::from_psv_record(line, read(&text)).unwrap();
    assert_eq!(number(e.amount()), 12.5);
    assert_eq!(e.category(), "food");
    assert_eq!(e.description(), &Some("Lunch at work".to_string()));
    assert_eq!(e.tags(), &strings(&["work", "urgent"]));
    assert_eq!(e.datetime().seconds(), 1_431_648_000);
    assert_eq!(e.datetime().nanoseconds(), 4_000_000);
}

#[test]
fn round_trip_gives_the_expense_back() {
    let when = Timestamp::new(1_700_000_000, 123_456_789).unwrap();
    let written = Expense::at(
        amount(0.1),
        Some("Train to the Office".to_string()),
        "Travel".to_string(),
        Some(strings(&["Work", "Monthly Pass"])),
        when,
    )
    .unwrap();
    let line = written.to_psv_record(&0.1f64.to_string());
    let back = decode(&line).unwrap();
    assert_eq!(number(back.amount()), 0.1);
    assert_eq!(back.category(), "travel");
    assert_eq!(back.description(), &Some("Train to the Office".to_string()));
    assert_eq!(back.tags(), &strings(&["work", "monthly pass"]));
    assert_eq!(back.datetime().seconds(), 1_700_000_000);
    assert_eq!(back.datetime().nanoseconds(), 123_000_000);
}

#[test]
fn round_trip_holds_of_many_amounts_times_and_texts() {
    let amounts = [
        1.0,
        0.1,
        0.30000000000000004,
        1e-7,
        1e21,
        5e-324,
        f64::MAX,
        123456789.12345679,
        f64::INFINITY,
    ];
    let times = [
        (0, 0),
        (-1, 1),
        (59, 1_500_000_000),
        (1_700_000_000, 999_999_999),
        (-62_135_596_800, 0),
        (253_402_300_799, 999_000_000),
    ];
    let texts = ["x", "Two Words", "ΟΔΟΣ", "ΣΑΣ", "İstanbul", "naïve café", "ǅungla", "a\"b", "ẞ"];
    for x in amounts {
        for (secs, nanos) in times {
            for text in texts {
                let when = Timestamp::new(secs, nanos).unwrap();
                let tags = strings(&[text, "Second", text]);
                let e = Expense::at(
                    amount(x),
                    Some(text.to_string()),
                    text.to_string(),
                    Some(tags.clone()),
                    when,
                )
                .unwrap();
                let back = decode(&e.to_psv_record(&x.to_string())).unwrap();
                assert_eq!(number(back.amount()), x);
                assert_eq!(back.category(), &text.to_lowercase());
                assert_eq!(back.description(), &Some(text.to_string()));
                let lower: Vec<String> = tags.iter().map(|t| t.to_lowercase()).collect();
                assert_eq!(back.tags(), &lower);
                assert_eq!(back.datetime().seconds(), secs);
                assert_eq!(back.datetime().nanoseconds(), nanos - nanos % 1_000_000);
            }
        }
    }
}

#[test]
fn round_trip_is_stable_the_second_time() {
    let line = "2023-11-14 22:13:20.123+0000|travel|0.1|\"Train\"|\"work,monthly pass\"\n";
    let first = decode(line).unwrap();
    let again = first.to_psv_record(&number(first.amount()).to_string());
    assert_eq!(again, line);
}

#[test]
fn no_description_reads_back_as_the_empty_one() {
    let when = Timestamp::new(0, 0).unwrap();
    let e = Expense::at(amount(2.0), None, "rent".to_string(), Some(strings(&["home"])), when)
        .unwrap();
    let back = decode(&e.to_psv_record("2")).unwrap();
    assert_eq!(back.description(), &Some(String::new()));
}

#[test]
fn no_tags_read_back_as_one_empty_tag() {
    let when = Timestamp::new(0, 0).unwrap();
    let e = Expense::at(amount(2.0), None, "rent".to_string(), None, when).unwrap();
    assert!(e.tags().is_empty());
    let back = decode(&e.to_psv_record("2")).unwrap();
    assert_eq!(back.tags(), &strings(&[""]));
}

#[test]
fn a_time_with_an_offset_is_read_as_utc() {
    let line = "2015-05-15 05:30:00.004+0530|food|1|\"\"|\"a\"";
    let e = decode(line).unwrap();
    assert_eq!(e.datetime().seconds(), 1_431_648_000);
    assert_eq!(e.datetime().nanoseconds(), 4_000_000);
    assert_eq!(e.datetime().to_text(), "2015-05-15 00:00:00.004+0000");
}

#[test]
fn white_space_round_the_line_and_the_amount_does_not_count() {
    let line = "  \t2015-05-15 00:00:00.004+0000|food| 12.5 |\"x\"|\"a,b\" \r\n";
    assert_eq!(Expense::amount_field(line), Some("12.5".to_string()));
    let e = decode(line).unwrap();
    assert_eq!(number(e.amount()), 12.5);
    assert_eq!(e.tags(), &strings(&["a", "b"]));
}

#[test]
fn white_space_inside_the_quotes_of_the_tags_is_dropped_at_the_ends_only() {
    let line = "2015-05-15 00:00:00.004+0000|food|1|\" x \"|\" a , b \"";
    let e = decode(line).unwrap();
    assert_eq!(e.description(), &Some(" x ".to_string()));
    assert_eq!(e.tags(), &strings(&["a ", " b"]));
}

#[test]
fn the_category_is_taken_as_it_stands() {
    let line = "2015-05-15 00:00:00.004+0000| Food |1|\"\"|\"a\"";
    let e = decode(line).unwrap();
    assert_eq!(e.category(), " Food ");
}

#[test]
fn only_the_outer_characters_of_a_quoted_field_are_taken_off() {
    let line = "2015-05-15 00:00:00.004+0000|food|1|<say \"hi\">|[a,b]";
    let e = decode(line).unwrap();
    assert_eq!(e.description(), &Some("say \"hi\"".to_string()));
    assert_eq!(e.tags(), &strings(&["a", "b"]));
}

#[test]
fn a_quoted_field_of_fewer_than_two_characters_is_empty() {
    let line = "2015-05-15 00:00:00.004+0000|food|1|\"|";
    let e = decode(line).unwrap();
    assert_eq!(e.description(), &Some(String::new()));
    assert_eq!(e.tags(), &strings(&[""]));
}

#[test]
fn three_fields_are_refused() {
    let line = " food|12.5|\"x\" \n";
    assert_eq!(Expense::amount_field(line), None);
    let m = Expense::from_psv_record(line, Ok(amount(12.5))).unwrap_err();
    assert_eq!(m.cause, ParseCause::FieldCount(3));
    assert_eq!(m.line, "food|12.5|\"x\"");
    assert_eq!(m.detail, "");
}

#[test]
fn six_fields_are_refused() {
    let line = "2015-05-15 00:00:00.004+0000|food|12.5|\"a|b\"|\"t\"";
    let m = decode(line).unwrap_err();
    assert_eq!(m.cause, ParseCause::FieldCount(6));
}

#[test]
fn an_empty_line_has_one_field() {
    let m = decode("").unwrap_err();
    assert_eq!(m.cause, ParseCause::FieldCount(1));
    assert_eq!(m.line, "");
}

#[test]
fn an_amount_that_is_no_number_is_refused() {
    let line = "2015-05-15 00:00:00.004+0000|food|12,5|\"x\"|\"a\"";
    let m = decode(line).unwrap_err();
    assert_eq!(m.cause, ParseCause::Amount);
    assert_eq!(m.line, line);
    assert_eq!(m.detail, "invalid float literal");
}

#[test]
fn a_time_out_of_the_pattern_is_refused() {
    let line = "15.05.2015 00:00|food|12.5|\"x\"|\"a\"";
    let m = decode(line).unwrap_err();
    assert_eq!(m.cause, ParseCause::Timestamp);
    assert_eq!(m.line, line);
    assert!(!m.detail.is_empty());
}

#[test]
fn a_time_without_its_offset_is_refused() {
    let line = "2015-05-15 00:00:00.004|food|12.5|\"x\"|\"a\"";
    let m = decode(line).unwrap_err();
    assert_eq!(m.cause, ParseCause::Timestamp);
    assert_eq!(m.detail, "premature end of input");
}

#[test]
fn the_amount_is_refused_before_the_time() {
    let line = "never|food|much|\"x\"|\"a\"";
    let m = decode(line).unwrap_err();
    assert_eq!(m.cause, ParseCause::Amount);
}

#[test]
fn the_count_of_fields_is_refused_before_the_amount() {
    let m = Expense::from_psv_record("never|much", Err("unread".to_string())).unwrap_err();
    assert_eq!(m.cause, ParseCause::FieldCount(2));
    assert_eq!(m.detail, "");
}

#[test]
fn the_words_of_the_reader_are_kept() {
    let line = "2015-05-15 00:00:00.004+0000|food||\"x\"|\"a\"";
    let m = Expense::from_psv_record(line, read("")).unwrap_err();
    assert_eq!(m.cause, ParseCause::Amount);
    assert_eq!(m.detail, "cannot parse float from empty string");
}
