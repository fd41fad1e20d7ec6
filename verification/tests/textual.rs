use std::str::FromStr;
use timer_cli::dates::Date;
use timer_cli::errors::TimerError;
use timer_cli::display::{
    cancelled_message, display_row, started_message, status_message, stopped_message,
    tags_inline_string, tags_suffix_string, updated_message,
};
use timer_cli::export::{
    csv_header, csv_line, export_record, format_civil_iso, parse_export_format, ExportFormat,
};
use timer_cli::frame::Frame;
use timer_cli::text::{escape_csv, join_tags, parse_tag, split_tags, str_le};

fn frame(project: &str, tag_items: &[&str], start: i64, end: Option<i64>) -> Frame {
    Frame {
        id: 1,
        project: project.to_string(),
        start_time: start,
        end_time: end,
        tags: tag_items.iter().map(|s| s.to_string()).collect(),
    }
}

#[test]
fn test_parse_tag_accepts_plus_prefix() {
    assert_eq!(parse_tag("+valid").unwrap(), "valid");
    assert_eq!(parse_tag("+").unwrap(), "");
    let err = parse_tag("invalid").unwrap_err();
    assert_eq!(err, "tags must start with +: invalid");
}

#[test]
fn test_escape_csv_quoting() {
    assert_eq!(escape_csv("plain"), "plain");
    assert_eq!(escape_csv("has,comma"), "\"has,comma\"");
    assert_eq!(escape_csv("say \"hi\""), "\"say \"\"hi\"\"\"");
    assert_eq!(escape_csv("line\nbreak"), "\"line\nbreak\"");
    assert_eq!(escape_csv(""), "");
}

#[test]
fn test_split_join_tags_round_trip() {
    assert_eq!(split_tags("a,b"), vec!["a".to_string(), "b".to_string()]);
    assert_eq!(split_tags(""), vec!["".to_string()]);
    assert_eq!(split_tags("a,,b"), vec!["a".to_string(), "".to_string(), "b".to_string()]);
    let list = vec!["x".to_string(), "y".to_string(), "z".to_string()];
    assert_eq!(split_tags(&join_tags(&list)), list);
    assert_eq!(join_tags(&split_tags("a,,b")), "a,,b");
}

#[test]
fn test_str_le_orders_lexicographically() {
    assert!(str_le("abc", "abd"));
    assert!(str_le("ab", "abc"));
    assert!(!str_le("abd", "abc"));
    assert!(str_le("", "a"));
    assert!(str_le("same", "same"));
}

#[test]
fn test_status_and_lifecycle_messages() {
    let f = frame("myproject", &["rust"], 0, None);
    assert_eq!(started_message(&f), "Started myproject +rust");
    assert_eq!(stopped_message(&f, 125), "Stopped myproject +rust (2m 5s)");
    assert_eq!(status_message(&f, 45), "myproject +rust (45s)");
    assert_eq!(cancelled_message(&f), "Cancelled myproject +rust");
    assert_eq!(updated_message(7), "Updated frame 7");

    let bare = frame("solo", &[], 0, None);
    assert_eq!(started_message(&bare), "Started solo");
    assert_eq!(status_message(&bare, 0), "solo (0s)");
}

#[test]
fn test_tag_display_forms() {
    let many: Vec<String> = vec!["a".to_string(), "b".to_string()];
    let none: Vec<String> = Vec::new();
    assert_eq!(tags_suffix_string(&many), " +a +b");
    assert_eq!(tags_suffix_string(&none), "");
    assert_eq!(tags_inline_string(&many), "+a +b");
    assert_eq!(tags_inline_string(&none), "");
}

#[test]
fn test_display_row_fields() {
    let f = frame("proj", &["t"], 1000, Some(1090));
    let row = display_row(&f, 5000);
    assert_eq!(row.id, "1");
    assert_eq!(row.project, "proj");
    assert_eq!(row.tags, "+t");
    assert_eq!(row.duration, "1m 30s");
    assert_eq!(row.time_range.chars().count(), 13);
    assert_eq!(&row.time_range[5..8], " - ");

    let open = frame("proj", &[], 1000, None);
    let row = display_row(&open, 5000);
    assert_eq!(row.time_range.chars().count(), 11);
    assert!(row.time_range.ends_with(" - now"));
}

#[test]
fn test_export_format_parsing() {
    assert!(matches!(ExportFormat::from_str("json").unwrap(), ExportFormat::Json));
    assert!(matches!(ExportFormat::from_str("CSV").unwrap(), ExportFormat::Csv));
    assert!(matches!(parse_export_format("Json").unwrap(), ExportFormat::Json));
    let err = ExportFormat::from_str("yaml").unwrap_err();
    assert_eq!(err, "unknown format: yaml (expected json or csv)");
    let err = parse_export_format("").unwrap_err();
    assert_eq!(err, "unknown format:  (expected json or csv)");
}

#[test]
fn test_civil_iso_format() {
    let d = Date { year: 2025, month: 1, day: 15 };
    assert_eq!(format_civil_iso(d, 9, 5, 7), "2025-01-15T09:05:07");
    let early = Date { year: 44, month: 12, day: 31 };
    assert_eq!(format_civil_iso(early, 23, 59, 59), "0044-12-31T23:59:59");
}

#[test]
fn test_csv_line_shape() {
    let f = frame("has,comma", &["a", "b"], 1000, Some(1600));
    let rec = export_record(&f, 0);
    assert_eq!(rec.duration_seconds, 600);
    let line = csv_line(&rec);
    assert!(line.starts_with("1,\"has,comma\","));
    assert!(line.ends_with(",\"a,b\",600"));
    assert_eq!(csv_header(), "id,project,start_time,end_time,tags,duration_seconds");
}

#[test]
fn test_export_record_open_frame() {
    let f = frame("p", &[], 100, None);
    let rec = export_record(&f, 400);
    assert_eq!(rec.duration_seconds, 300);
    assert!(rec.end_time.is_none());
    let line = csv_line(&rec);
    assert!(line.contains(",,"), "an open end is an empty CSV field");
}

#[test]
fn test_iso_local_string_spans_epoch() {
    let s = timer_cli::export::iso_local_string(0);
    assert_eq!(s.len(), 19);
    assert!(s.starts_with("19"));
    assert!(s.contains('T'));
}

#[test]
fn test_error_messages() {
    assert_eq!(TimerError::FrameNotFound(-3).message(), "frame -3 not found");
    assert_eq!(TimerError::NoPreviousFrame.message(), "no previous frame to restart");
    assert_eq!(
        TimerError::InvalidDate("invalid date".to_string()).message(),
        "invalid date"
    );
}
