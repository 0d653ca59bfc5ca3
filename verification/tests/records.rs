use shipment_discounts::amount::format_amount;
use shipment_discounts::shipment::Shipment;
use shipment_discounts::shipments::collect_records;
use shipment_discounts::text::{join, same_text, split};

fn record(line: &str) -> Shipment {
    Shipment::from(line.to_string())
}

#[test]
fn a_line_of_three_columns_is_read() {
    let s = record("2015-02-01 S MR");
    assert_eq!(s.date, "2015-02-01");
    assert_eq!(s.size, "S");
    assert_eq!(s.service, "MR");
    assert!(!s.ignored);
    assert_eq!(s.price, 0);
    assert_eq!(s.discount, 0);
}

#[test]
fn every_size_and_provider_is_accepted() {
    for size in ["S", "M", "L"] {
        for service in ["LP", "MR"] {
            let s = record(&format!("2015-02-01 {} {}", size, service));
            assert!(!s.ignored);
            assert_eq!(s.size, size);
            assert_eq!(s.service, service);
        }
    }
}

#[test]
fn columns_are_put_in_upper_case() {
    let s = record("2015-02-01 s mr");
    assert_eq!(s.size, "S");
    assert_eq!(s.service, "MR");
    assert!(!s.ignored);
    let t = record("2015-02-0x l Lp");
    assert_eq!(t.date, "2015-02-0X");
    assert_eq!(t.size, "L");
    assert_eq!(t.service, "LP");
    assert!(!t.ignored);
}

#[test]
fn letters_outside_ascii_are_not_changed() {
    let s = record("2015-02-01 \u{e9} mr");
    assert_eq!(s.size, "\u{e9}");
    assert!(s.ignored);
}

#[test]
fn a_line_of_two_columns_is_rejected() {
    let s = record("2015-02-29 CUSPS");
    assert_eq!(s.date, "2015-02-29");
    assert_eq!(s.size, "CUSPS");
    assert_eq!(s.service, "");
    assert!(s.ignored);
    assert_eq!(s.render(), "2015-02-29 CUSPS  Ignored");
}

#[test]
fn a_line_of_four_columns_is_rejected() {
    let s = record("2015-02-01 S MR X");
    assert!(s.ignored);
    assert_eq!(s.render(), "2015-02-01 S MR Ignored");
}

#[test]
fn two_spaces_enclose_an_empty_column() {
    let s = record("2015-02-01  S MR");
    assert_eq!(s.date, "2015-02-01");
    assert_eq!(s.size, "");
    assert_eq!(s.service, "S");
    assert!(s.ignored);
}

#[test]
fn an_unknown_size_is_rejected() {
    let s = record("2015-02-01 XL MR");
    assert!(s.ignored);
    assert_eq!(s.render(), "2015-02-01 XL MR Ignored");
}

#[test]
fn an_unknown_provider_is_rejected() {
    let s = record("2015-02-01 S DHL");
    assert!(s.ignored);
    assert_eq!(s.render(), "2015-02-01 S DHL Ignored");
}

#[test]
fn the_default_record_is_empty() {
    let s = Shipment::default();
    assert_eq!(s.date, "");
    assert_eq!(s.size, "");
    assert_eq!(s.service, "");
    assert!(!s.ignored);
    assert_eq!(s.price, 0);
    assert_eq!(s.discount, 0);
}

#[test]
fn year_and_month_are_the_first_seven_characters() {
    assert_eq!(record("2015-02-01 S MR").get_year_month(), "2015-02");
    assert_eq!(record("2015-12-31 S MR").get_year_month(), "2015-12");
    assert_eq!(record("2015-02 S MR").get_year_month(), "2015-02");
}

#[test]
fn a_short_date_is_its_own_year_and_month() {
    assert_eq!(record("2015 S MR").get_year_month(), "2015");
    assert_eq!(record(" S MR").get_year_month(), "");
}

#[test]
fn a_record_is_written_with_two_decimals() {
    let mut s = record("2015-02-01 S MR");
    s.price = 150;
    s.discount = 50;
    assert_eq!(s.render(), "2015-02-01 S MR 1.50 0.50");
    s.price = 200;
    s.discount = 0;
    assert_eq!(s.render(), "2015-02-01 S MR 2.00 -");
    s.price = 0;
    s.discount = 690;
    assert_eq!(s.render(), "2015-02-01 S MR 0.00 6.90");
}

#[test]
fn amounts_are_written_in_units_and_cents() {
    assert_eq!(format_amount(0), "0.00");
    assert_eq!(format_amount(5), "0.05");
    assert_eq!(format_amount(10), "0.10");
    assert_eq!(format_amount(99), "0.99");
    assert_eq!(format_amount(100), "1.00");
    assert_eq!(format_amount(150), "1.50");
    assert_eq!(format_amount(690), "6.90");
    assert_eq!(format_amount(1000), "10.00");
    assert_eq!(format_amount(123456), "1234.56");
    assert_eq!(format_amount(u64::MAX), "184467440737095516.15");
}

#[test]
fn split_keeps_empty_pieces() {
    assert_eq!(split("a b c", ' '), vec!["a", "b", "c"]);
    assert_eq!(split("a  b", ' '), vec!["a", "", "b"]);
    assert_eq!(split("", ' '), vec![""]);
    assert_eq!(split(" ", ' '), vec!["", ""]);
    assert_eq!(split("a ", ' '), vec!["a", ""]);
    assert_eq!(split(" a", ' '), vec!["", "a"]);
    assert_eq!(split("abc", ' '), vec!["abc"]);
    assert_eq!(split("\u{e9}t\u{e9} 1", ' '), vec!["\u{e9}t\u{e9}", "1"]);
}

#[test]
fn join_puts_the_separator_between_pieces() {
    let none: Vec<String> = vec![];
    assert_eq!(join(&none, "\n"), "");
    assert_eq!(join(&vec!["a".to_string()], "\n"), "a");
    assert_eq!(join(&vec!["a".to_string(), "b".to_string()], "\n"), "a\nb");
    assert_eq!(join(&vec!["a".to_string(), "".to_string(), "b".to_string()], ", "), "a, , b");
}

#[test]
fn same_text_compares_character_by_character() {
    assert!(same_text("", ""));
    assert!(same_text("2015-02", "2015-02"));
    assert!(!same_text("2015-02", "2015-03"));
    assert!(!same_text("2015-02", "2015-0"));
    assert!(!same_text("S", "s"));
    assert!(same_text("\u{e9}", "\u{e9}"));
}

#[test]
fn lines_are_trimmed_and_blank_lines_left_out() {
    let lines = vec![
        "".to_string(),
        "   2015-02-01 S MR  ".to_string(),
        "   ".to_string(),
        "\t2015-02-02 m lp\r".to_string(),
        "x".to_string(),
    ];
    let records = collect_records(&lines);
    assert_eq!(records.len(), 3);
    assert_eq!(records[0].date, "2015-02-01");
    assert_eq!(records[0].service, "MR");
    assert!(!records[0].ignored);
    assert_eq!(records[1].date, "2015-02-02");
    assert_eq!(records[1].size, "M");
    assert_eq!(records[1].service, "LP");
    assert!(!records[1].ignored);
    assert_eq!(records[2].date, "X");
    assert!(records[2].ignored);
}

#[test]
fn an_untrimmed_line_would_be_rejected() {
    assert!(record("  2015-02-01 S MR").ignored);
    let records = collect_records(&vec!["  2015-02-01 S MR".to_string()]);
    assert!(!records[0].ignored);
}
