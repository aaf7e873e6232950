use oura_cli::record::SleepRecord;
use oura_cli::render::{append_decimal, format_csv_line, format_json_object, render_json, render_text};

fn sample() -> Vec<SleepRecord> {
    vec![
        SleepRecord { date: "2024-01-01".to_string(), score: 70 },
        SleepRecord { date: "2024-01-02".to_string(), score: 75 },
        SleepRecord { date: "2024-01-03".to_string(), score: 80 },
    ]
}

#[test]
fn text_output_has_one_line_per_record() {
    assert_eq!(
        render_text(&sample()),
        "\"2024-01-01\",70\n\"2024-01-02\",75\n\"2024-01-03\",80\n"
    );
}

#[test]
fn json_output_is_one_array() {
    assert_eq!(
        render_json(&sample()),
        "[{\"date\":\"2024-01-01\",\"score\":70},{\"date\":\"2024-01-02\",\"score\":75},{\"date\":\"2024-01-03\",\"score\":80}]"
    );
}

#[test]
fn json_output_escapes_dates() {
    let records = vec![SleepRecord { date: "a\"b\\c".to_string(), score: 5 }];
    assert_eq!(render_json(&records), "[{\"date\":\"a\\\"b\\\\c\",\"score\":5}]");
}

#[test]
fn empty_text_output_is_empty() {
    assert_eq!(render_text(&Vec::new()), "");
}

#[test]
fn csv_line_quotes_the_date() {
    let r = SleepRecord { date: "2024-03-09".to_string(), score: 100 };
    assert_eq!(format_csv_line(&r), "\"2024-03-09\",100");
}

#[test]
fn json_object_puts_date_before_score() {
    assert_eq!(format_json_object("\"x\"", 0), "{\"date\":\"x\",\"score\":0}");
}

#[test]
fn decimal_digits() {
    let mut s = String::from("n=");
    append_decimal(&mut s, 0);
    assert_eq!(s, "n=0");
    let mut s = String::new();
    append_decimal(&mut s, 1090);
    assert_eq!(s, "1090");
    let mut s = String::new();
    append_decimal(&mut s, u32::MAX);
    assert_eq!(s, "4294967295");
}
