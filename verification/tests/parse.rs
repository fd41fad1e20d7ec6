use timer_cli::dates::{parse_date_relative, Date};

fn today() -> Date {
    Date { year: 2026, month: 3, day: 15 }
}

#[test]
fn parse_full_date() {
    let d = parse_date_relative("2025-01-15", today()).unwrap();
    assert_eq!(d, Date { year: 2025, month: 1, day: 15 });
}

#[test]
fn parse_month_day_zero_padded() {
    let d = parse_date_relative("01-15", today()).unwrap();
    assert_eq!(d, Date { year: 2026, month: 1, day: 15 });
}

#[test]
fn parse_month_day_no_padding() {
    let d = parse_date_relative("1-5", today()).unwrap();
    assert_eq!(d, Date { year: 2026, month: 1, day: 5 });
}

#[test]
fn parse_month_day_mixed_padding() {
    let d = parse_date_relative("1-15", today()).unwrap();
    assert_eq!(d, Date { year: 2026, month: 1, day: 15 });
}

#[test]
fn parse_full_date_ignores_default_year() {
    let d = parse_date_relative("2024-12-25", today()).unwrap();
    assert_eq!(d, Date { year: 2024, month: 12, day: 25 });
}

#[test]
fn parse_today() {
    let d = parse_date_relative("today", today()).unwrap();
    assert_eq!(d, today());
}

#[test]
fn parse_today_case_insensitive() {
    let d = parse_date_relative("Today", today()).unwrap();
    assert_eq!(d, today());
}

#[test]
fn parse_yesterday() {
    let d = parse_date_relative("yesterday", today()).unwrap();
    assert_eq!(d, Date { year: 2026, month: 3, day: 14 });
}

#[test]
fn parse_yesterday_case_insensitive() {
    let d = parse_date_relative("Yesterday", today()).unwrap();
    assert_eq!(d, Date { year: 2026, month: 3, day: 14 });
}

#[test]
fn parse_invalid_date_returns_error() {
    assert!(parse_date_relative("not-a-date", today()).is_err());
    assert!(parse_date_relative("13-32", today()).is_err());
    assert!(parse_date_relative("", today()).is_err());
}

#[test]
fn parse_yesterday_over_month_and_year_edges() {
    let d = parse_date_relative("yesterday", Date { year: 2026, month: 3, day: 1 }).unwrap();
    assert_eq!(d, Date { year: 2026, month: 2, day: 28 });
    let d = parse_date_relative("yesterday", Date { year: 2025, month: 1, day: 1 }).unwrap();
    assert_eq!(d, Date { year: 2024, month: 12, day: 31 });
    let d = parse_date_relative("yesterday", Date { year: 2024, month: 3, day: 1 }).unwrap();
    assert_eq!(d, Date { year: 2024, month: 2, day: 29 });
}

#[test]
fn parse_rejects_invalid_calendar_days() {
    assert!(parse_date_relative("2025-02-29", today()).is_err());
    assert!(parse_date_relative("2024-02-29", today()).is_ok());
    assert!(parse_date_relative("2025-04-31", today()).is_err());
    assert!(parse_date_relative("2025-00-10", today()).is_err());
}

#[test]
fn parse_strict_date_requires_full_form() {
    assert!(timer_cli::dates::parse_date("2025-01-15").is_ok());
    assert!(timer_cli::dates::parse_date("01-15").is_err());
    assert!(timer_cli::dates::parse_date("today").is_err());
    let err = timer_cli::dates::parse_date("nope").unwrap_err();
    assert_eq!(err, "invalid date format, expected YYYY-MM-DD: nope");
}
