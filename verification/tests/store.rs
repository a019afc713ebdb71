use expense_tracker::amount::{Amount, Reading};
use expense_tracker::error::{Invalid, ParseError, ParseCause, StoreError};
use expense_tracker::expense::{lines_of, Expense, ExpenseList, FileRead};
use expense_tracker::timestamp::Timestamp;

const THREE: &str = "\
2024-01-05 08:15:00.000+0000|food|100.0|\"Groceries\"|\"home,weekly\"
2024-01-06 12:30:00.250+0000|travel|200.0|\"Train\"|\"work,urgent\"
2024-01-07 19:45:10.999+0000|rent|744.0|\"\"|\"\"
";

fn amount(x: f64) -> Amount {
    Amount::from_bits(x.to_bits())
}

fn number(a: Amount) -> f64 {
    f64::from_bits(a.to_bits())
}

fn read(text: Option<String>) -> Reading {
    match text {
        Some(t) => match t.parse::<f64>() {
            Ok(x) => Ok(amount(x)),
            Err(e) => Err(e.to_string()),
        },
        None => Err(String::new()),
    }
}

fn readings(content: &str) -> Vec<Reading> {
    lines_of(content).iter().map(|line| read(Expense::amount_field(line))).collect()
}

fn load(content: &str) -> Result<ExpenseList, ParseError> {
    let mut list = ExpenseList::new();
    list.load_expenses_from_psv(content, &readings(content))?;
    Ok(list)
}

fn strings(items: &[&str]) -> Vec<String> {
    items.iter().map(|s| s.to_string()).collect()
}

fn categories(found: &[&Expense]) -> Vec<String> {
    found.iter().map(|e| e.category().clone()).collect()
}

fn sum(list: &ExpenseList) -> f64 {
    let mut total = 0.0;
    for a in list.amounts() {
        total += number(a);
    }
    total
}

#[test]
fn a_new_list_is_empty() {
    assert_eq!(ExpenseList::new().len(), 0);
    assert_eq!(ExpenseList::default().len(), 0);
}

#[test]
fn loads_the_lines_in_their_order() {
    let list = load(THREE).unwrap();
    assert_eq!(list.len(), 3);
    let all = Expense::list_expenses(&list);
    assert_eq!(categories(&all), strings(&["food", "travel", "rent"]));
    assert_eq!(number(all[0].amount()), 100.0);
    assert_eq!(number(all[1].amount()), 200.0);
    assert_eq!(number(all[2].amount()), 744.0);
    assert_eq!(all[1].description(), &Some("Train".to_string()));
    assert_eq!(all[1].tags(), &strings(&["work", "urgent"]));
    assert_eq!(all[1].datetime().to_text(), "2024-01-06 12:30:00.250+0000");
    assert_eq!(list.get(2).unwrap().category(), "rent");
    assert!(list.get(3).is_none());
}

#[test]
fn the_amounts_of_three_lines_add_up_to_1044() {
    let list = load(THREE).unwrap();
    assert_eq!(sum(&list), 1044.0);
}

#[test]
fn test_expense_total() {
    let terms =
        Expense::expense_total(FileRead::Content(THREE.to_string()), &readings(THREE)).unwrap();
    let mut total = 0.0;
    for term in terms {
        total += number(term);
    }
    assert_eq!(total, 1044.0);
}

#[test]
fn the_total_of_a_file_that_is_not_there_has_no_terms() {
    let terms = Expense::expense_total(FileRead::Missing, &Vec::new()).unwrap();
    assert!(terms.is_empty());
    let terms = Expense::expense_total(FileRead::Content(String::new()), &Vec::new()).unwrap();
    assert!(terms.is_empty());
}

#[test]
fn the_total_of_a_file_that_cannot_be_read_fails() {
    let r = Expense::expense_total(FileRead::Failed("disk".to_string()), &Vec::new());
    assert!(matches!(r, Err(StoreError::IOError(_))));
    let r = Expense::expense_total(FileRead::Content("a|b".to_string()), &readings("a|b"));
    assert!(matches!(r, Err(StoreError::ParseError(_))));
}

#[test]
fn the_amounts_of_no_lines_add_up_to_nothing() {
    let list = load("").unwrap();
    assert_eq!(list.len(), 0);
    assert!(list.amounts().is_empty());
    assert_eq!(sum(&list), 0.0);
}

#[test]
fn the_amounts_are_those_of_the_lines() {
    let content = "\
2024-01-05 08:15:00.000+0000|a|10.0|\"\"|\"\"
2024-01-05 08:15:00.000+0000|b|20.5|\"\"|\"\"
";
    let list = load(content).unwrap();
    let amounts: Vec<f64> = list.amounts().into_iter().map(number).collect();
    assert_eq!(amounts, vec![10.0, 20.5]);
    assert_eq!(sum(&list), 30.5);
}

#[test]
fn append_then_load_gives_the_expenses_in_the_order_of_appending() {
    let mut content = String::new();
    let names = ["first", "second", "third", "fourth", "fifth"];
    for (i, name) in names.iter().enumerate() {
        let when = Timestamp::new(1_700_000_000 + i as i64, 0).unwrap();
        let x = 1.5 * (i as f64 + 1.0);
        let e = Expense::at(
            amount(x),
            Some(format!("No {}", i)),
            name.to_string(),
            Some(strings(&["T", name])),
            when,
        )
        .unwrap();
        content.push_str(&e.to_psv_record(&x.to_string()));
        let list = load(&content).unwrap();
        assert_eq!(list.len(), i + 1);
        assert_eq!(list.get(i).unwrap().category(), name);
    }
    let list = load(&content).unwrap();
    let all = Expense::list_expenses(&list);
    assert_eq!(categories(&all), strings(&names));
    for (i, e) in all.iter().enumerate() {
        assert_eq!(number(e.amount()), 1.5 * (i as f64 + 1.0));
        assert_eq!(e.description(), &Some(format!("no {}", i).replace("no", "No")));
        assert_eq!(e.tags(), &strings(&["t", names[i]]));
        assert_eq!(e.datetime().seconds(), 1_700_000_000 + i as i64);
    }
}

#[test]
fn loading_puts_the_new_expenses_behind_those_of_the_list() {
    let mut list = load(THREE).unwrap();
    let more = "2024-02-01 00:00:00.000+0000|gift|5|\"\"|\"\"\n";
    list.load_expenses_from_psv(more, &readings(more)).unwrap();
    assert_eq!(
        categories(&Expense::list_expenses(&list)),
        strings(&["food", "travel", "rent", "gift"])
    );
}

#[test]
fn empty_lines_and_white_space_do_not_count() {
    let content = "\n\n  \n 2024-01-05 08:15:00.000+0000|food|1|\"\"|\"\" \r\n\t\n\
2024-01-06 08:15:00.000+0000|rent|2|\"\"|\"\"\n\n";
    assert_eq!(
        lines_of(content),
        strings(&[
            "2024-01-05 08:15:00.000+0000|food|1|\"\"|\"\"",
            "2024-01-06 08:15:00.000+0000|rent|2|\"\"|\"\"",
        ])
    );
    let list = load(content).unwrap();
    assert_eq!(categories(&Expense::list_expenses(&list)), strings(&["food", "rent"]));
}

#[test]
fn a_file_without_a_last_line_break_is_read_too() {
    let list = load("2024-01-05 08:15:00.000+0000|food|1|\"\"|\"\"").unwrap();
    assert_eq!(list.len(), 1);
}

#[test]
fn a_line_of_three_fields_halts_the_loading() {
    let content = "\
2024-01-05 08:15:00.000+0000|food|100.0|\"Groceries\"|\"home\"
food|12.5|\"broken\"
2024-01-07 19:45:10.999+0000|rent|744.0|\"\"|\"\"
";
    let mut list = ExpenseList::new();
    let m = list.load_expenses_from_psv(content, &readings(content)).unwrap_err();
    assert_eq!(m.cause, ParseCause::FieldCount(3));
    assert_eq!(m.line, "food|12.5|\"broken\"");
    assert_eq!(list.len(), 0);
}

#[test]
fn a_last_line_that_was_written_in_part_is_refused() {
    let content = "\
2024-01-05 08:15:00.000+0000|food|100.0|\"Groceries\"|\"home\"
2024-01-06 12:30:00.250+0000|travel|20";
    let m = load(content).unwrap_err();
    assert_eq!(m.cause, ParseCause::FieldCount(3));
    assert_eq!(m.line, "2024-01-06 12:30:00.250+0000|travel|20");
}

#[test]
fn a_refused_line_leaves_the_list_as_it_was() {
    let mut list = load(THREE).unwrap();
    let bad = "2024-02-01 00:00:00.000+0000|gift|5|\"\"|\"\"\nnot a record\n";
    assert!(list.load_expenses_from_psv(bad, &readings(bad)).is_err());
    assert_eq!(list.len(), 3);
}

#[test]
fn the_first_refused_line_is_the_one_that_is_named() {
    let content = "\
2024-01-05 08:15:00.000+0000|food|1e|\"a\"|\"\"
one|two
";
    let m = load(content).unwrap_err();
    assert_eq!(m.cause, ParseCause::Amount);
    assert_eq!(m.line, "2024-01-05 08:15:00.000+0000|food|1e|\"a\"|\"\"");
    assert_eq!(m.detail, "invalid float literal");
}

#[test]
fn a_line_without_a_reading_is_refused_for_its_amount() {
    let mut list = ExpenseList::new();
    let mut some = readings(THREE);
    some.pop();
    let m = list.load_expenses_from_psv(THREE, &some).unwrap_err();
    assert_eq!(m.cause, ParseCause::Amount);
    assert_eq!(m.line, "2024-01-07 19:45:10.999+0000|rent|744.0|\"\"|\"\"");
    assert_eq!(m.detail, "");
}

#[test]
fn a_file_that_is_not_there_is_not_found() {
    let r = Expense::get_expense_list_from_psv(FileRead::Missing, &Vec::new());
    assert!(matches!(r, Err(StoreError::NotFound)));
}

#[test]
fn a_file_that_cannot_be_read_is_an_io_error() {
    let r = Expense::get_expense_list_from_psv(
        FileRead::Failed("permission denied".to_string()),
        &Vec::new(),
    );
    match r {
        Err(StoreError::IOError(words)) => assert_eq!(words, "permission denied"),
        other => panic!("{:?}", other),
    }
}

#[test]
fn a_file_that_was_read_gives_its_expenses() {
    let r = Expense::get_expense_list_from_psv(
        FileRead::Content(THREE.to_string()),
        &readings(THREE),
    );
    assert_eq!(r.unwrap().len(), 3);
}

#[test]
fn a_file_with_a_bad_line_is_a_parse_error() {
    let content = "a|b|c\n";
    let r = Expense::get_expense_list_from_psv(
        FileRead::Content(content.to_string()),
        &readings(content),
    );
    match r {
        Err(StoreError::ParseError(m)) => {
            assert_eq!(m.cause, ParseCause::FieldCount(3));
            assert_eq!(m.line, "a|b|c");
        }
        other => panic!("{:?}", other),
    }
}

#[test]
fn filter_by_category_is_exact() {
    let content = "\
2024-01-05 08:15:00.000+0000|food|1|\"\"|\"\"
2024-01-05 08:15:00.000+0000|Food|2|\"\"|\"\"
2024-01-05 08:15:00.000+0000|foods|3|\"\"|\"\"
2024-01-05 08:15:00.000+0000|food|4|\"\"|\"\"
";
    let list = load(content).unwrap();
    let found = Expense::filter_expenses(Some("food".to_string()), None, None, &list);
    let amounts: Vec<f64> = found.iter().map(|e| number(e.amount())).collect();
    assert_eq!(amounts, vec![1.0, 4.0]);
    let found = Expense::filter_expenses(Some("FOOD".to_string()), None, None, &list);
    assert!(found.is_empty());
}

#[test]
fn filter_by_amount_is_exact() {
    let content = "\
2024-01-05 08:15:00.000+0000|a|12.5|\"\"|\"\"
2024-01-05 08:15:00.000+0000|b|12.50|\"\"|\"\"
2024-01-05 08:15:00.000+0000|c|12.500000000000002|\"\"|\"\"
2024-01-05 08:15:00.000+0000|d|1.25e1|\"\"|\"\"
2024-01-05 08:15:00.000+0000|e|13|\"\"|\"\"
";
    let list = load(content).unwrap();
    let found = Expense::filter_expenses(None, None, Some(amount(12.5)), &list);
    assert_eq!(categories(&found), strings(&["a", "b", "d"]));
}

#[test]
fn filter_by_amount_takes_zero_with_either_sign_and_never_what_is_no_number() {
    let content = "\
2024-01-05 08:15:00.000+0000|a|0|\"\"|\"\"
2024-01-05 08:15:00.000+0000|b|-0|\"\"|\"\"
2024-01-05 08:15:00.000+0000|c|NaN|\"\"|\"\"
";
    let list = load(content).unwrap();
    let found = Expense::filter_expenses(None, None, Some(amount(0.0)), &list);
    assert_eq!(categories(&found), strings(&["a", "b"]));
    let found = Expense::filter_expenses(None, None, Some(amount(f64::NAN)), &list);
    assert!(found.is_empty());
}

#[test]
fn filter_by_tags_goes_by_the_last_tag_of_the_query() {
    let list = load(THREE).unwrap();
    let urgent_missing = Some(strings(&["urgent", "missing"]));
    assert!(Expense::filter_expenses(None, urgent_missing, None, &list).is_empty());
    let missing_urgent = Some(strings(&["missing", "urgent"]));
    let found = Expense::filter_expenses(None, missing_urgent, None, &list);
    assert_eq!(categories(&found), strings(&["travel"]));
}

#[test]
fn an_entry_with_the_tags_work_and_urgent_matches_only_by_the_last_tag() {
    let when = Timestamp::new(0, 0).unwrap();
    let e = Expense::at(
        amount(1.0),
        None,
        "x".to_string(),
        Some(strings(&["work", "urgent"])),
        when,
    )
    .unwrap();
    assert!(!e.matches(&None, &Some(strings(&["urgent", "missing"])), &None));
    assert!(e.matches(&None, &Some(strings(&["missing", "urgent"])), &None));
    assert!(e.matches(&None, &Some(strings(&["work"])), &None));
    assert!(!e.matches(&None, &Some(strings(&["wor"])), &None));
    assert!(!e.matches(&None, &Some(Vec::new()), &None));
    assert!(e.matches(&None, &None, &None));
}

#[test]
fn an_entry_without_tags_matches_no_query_for_tags() {
    let when = Timestamp::new(0, 0).unwrap();
    let e = Expense::at(amount(1.0), None, "x".to_string(), None, when).unwrap();
    assert!(!e.matches(&None, &Some(strings(&["work"])), &None));
    assert!(!e.matches(&None, &Some(Vec::new()), &None));
    assert!(e.matches(&None, &None, &None));
}

#[test]
fn every_part_of_a_query_must_hold() {
    let list = load(THREE).unwrap();
    let travel = Some("travel".to_string());
    let work = Some(strings(&["work"]));
    let found =
        Expense::filter_expenses(travel.clone(), work.clone(), Some(amount(200.0)), &list);
    assert_eq!(categories(&found), strings(&["travel"]));
    let found = Expense::filter_expenses(travel.clone(), work.clone(), Some(amount(100.0)), &list);
    assert!(found.is_empty());
    let found = Expense::filter_expenses(Some("food".to_string()), work, None, &list);
    assert!(found.is_empty());
    let found = Expense::filter_expenses(travel, Some(strings(&["home"])), None, &list);
    assert!(found.is_empty());
}

#[test]
fn a_query_without_parts_takes_every_expense() {
    let list = load(THREE).unwrap();
    let found = Expense::filter_expenses(None, None, None, &list);
    assert_eq!(categories(&found), strings(&["food", "travel", "rent"]));
}

#[test]
fn filter_keeps_the_order_of_the_file() {
    let content = "\
2024-01-05 08:15:00.000+0000|food|3|\"c\"|\"\"
2024-01-05 08:15:00.000+0000|rent|9|\"x\"|\"\"
2024-01-05 08:15:00.000+0000|food|1|\"a\"|\"\"
2024-01-05 08:15:00.000+0000|food|2|\"b\"|\"\"
";
    let list = load(content).unwrap();
    let found = Expense::filter_expenses(Some("food".to_string()), None, None, &list);
    let amounts: Vec<f64> = found.iter().map(|e| number(e.amount())).collect();
    assert_eq!(amounts, vec![3.0, 1.0, 2.0]);
}

#[test]
fn an_amount_that_is_not_greater_than_zero_is_refused() {
    let when = Timestamp::new(0, 0).unwrap();
    for x in [0.0, -0.0, -1.0, f64::NAN, f64::NEG_INFINITY] {
        let r = Expense::at(amount(x), None, "food".to_string(), None, when);
        assert!(matches!(r, Err(StoreError::ValidationError(Invalid::Amount))), "{:?}", x);
    }
}

#[test]
fn an_empty_category_is_refused() {
    let when = Timestamp::new(0, 0).unwrap();
    let r = Expense::at(amount(1.0), None, String::new(), None, when);
    assert!(matches!(r, Err(StoreError::ValidationError(Invalid::Category))));
    let r = Expense::at(amount(0.0), None, String::new(), None, when);
    assert!(matches!(r, Err(StoreError::ValidationError(Invalid::Amount))));
    let r = Expense::new(amount(1.0), None, String::new(), None);
    assert!(matches!(r, Err(StoreError::ValidationError(Invalid::Category))));
}

#[test]
fn a_new_expense_is_as_given_and_made_now() {
    let before = chrono::Utc::now().timestamp();
    let e = Expense::new(
        amount(42.0),
        Some("Book".to_string()),
        "Gift".to_string(),
        Some(strings(&["Birthday"])),
    )
    .unwrap();
    let after = chrono::Utc::now().timestamp();
    assert_eq!(number(e.amount()), 42.0);
    assert_eq!(e.description(), &Some("Book".to_string()));
    assert_eq!(e.category(), "Gift");
    assert_eq!(e.tags(), &strings(&["Birthday"]));
    assert!(before <= e.datetime().seconds() && e.datetime().seconds() <= after);
    let e = Expense::new(amount(1.0), None, "x".to_string(), None).unwrap();
    assert!(e.tags().is_empty());
    assert_eq!(e.description(), &None);
}
