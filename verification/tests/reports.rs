use rusqlite::Connection;
use timer_cli::edit::edit;
use timer_cli::frame::Frame;
use timer_cli::lifecycle::{start, stop};
use timer_cli::query::{log_all_frames, log_all_frames_asc};
use timer_cli::report::{sort_by_total_desc, total_duration, totals_by_project, totals_by_tag};
use timer_cli::dates::Date;
use timer_cli::store::init_schema;

fn mem() -> Connection {
    let conn = Connection::open_in_memory().unwrap();
    init_schema(&conn).unwrap();
    conn
}

fn tags(items: &[&str]) -> Vec<String> {
    items.iter().map(|s| s.to_string()).collect()
}

/// One closed frame for `project`, running `minutes` on 2025-01-07.
fn closed_frame(conn: &mut Connection, project: &str, tag_items: &[&str], minutes: u32) {
    start(conn, project, &tags(tag_items)).unwrap();
    stop(conn).unwrap();
    let id = log_all_frames(conn).unwrap()[0].id;
    let end = format!("2025-01-07 10:{:02}", minutes);
    edit(
        conn,
        id,
        None,
        None,
        Some("2025-01-07 10:00".to_string()),
        Some(end),
    )
    .unwrap();
}

#[test]
fn test_by_tag_charges_each_tag_fully() {
    let mut conn = mem();
    closed_frame(&mut conn, "proj", &["a", "b"], 10);
    let frames = log_all_frames(&conn).unwrap();
    let buckets = totals_by_tag(&frames, 0);
    assert_eq!(buckets.len(), 2);
    let get = |key: &str| buckets.iter().find(|b| b.0 == key).unwrap().1;
    assert_eq!(get("a"), 600);
    assert_eq!(get("b"), 600);
    assert_eq!(total_duration(&frames, 0), 600);
}

#[test]
fn test_by_tag_untagged_bucket() {
    let mut conn = mem();
    closed_frame(&mut conn, "bare", &[], 5);
    let frames = log_all_frames(&conn).unwrap();
    let buckets = totals_by_tag(&frames, 0);
    assert_eq!(buckets.len(), 1);
    assert_eq!(buckets[0].0, "(untagged)");
    assert_eq!(buckets[0].1, 300);
}

#[test]
fn test_by_project_totals_and_order() {
    let mut conn = mem();
    closed_frame(&mut conn, "small", &[], 5);
    closed_frame(&mut conn, "big", &[], 30);
    closed_frame(&mut conn, "small", &[], 10);
    let frames = log_all_frames(&conn).unwrap();
    let sorted = sort_by_total_desc(totals_by_project(&frames, 0));
    assert_eq!(sorted.len(), 2);
    assert_eq!(sorted[0], ("big".to_string(), 1800));
    assert_eq!(sorted[1], ("small".to_string(), 900));
    assert_eq!(total_duration(&frames, 0), 2700);
}

#[test]
fn test_format_duration_representative_values() {
    assert_eq!(Frame::format_duration(0), "0s");
    assert_eq!(Frame::format_duration(45), "45s");
    assert_eq!(Frame::format_duration(90), "1m 30s");
    assert_eq!(Frame::format_duration(3661), "1h 1m");
}

#[test]
fn test_format_duration_edges() {
    assert_eq!(Frame::format_duration(59), "59s");
    assert_eq!(Frame::format_duration(60), "1m 0s");
    assert_eq!(Frame::format_duration(3599), "59m 59s");
    assert_eq!(Frame::format_duration(3600), "1h 0m");
    assert_eq!(Frame::format_duration(7322), "2h 2m");
    assert_eq!(Frame::format_duration(-1), "-1s");
    assert_eq!(Frame::format_duration(-3600), "0s");
}

#[test]
fn test_duration_of_open_frame_uses_now() {
    let f = Frame {
        id: 1,
        project: "p".to_string(),
        start_time: 1000,
        end_time: None,
        tags: Vec::new(),
    };
    assert_eq!(f.duration_at(1450), 450);
    let g = Frame { end_time: Some(1300), ..f };
    assert_eq!(g.duration_at(999_999), 300);
}

#[test]
fn test_log_orders_latest_first_and_export_earliest_first() {
    let mut conn = mem();
    closed_frame(&mut conn, "first", &[], 10);
    let id = log_all_frames(&conn).unwrap()[0].id;
    edit(
        &mut conn,
        id,
        None,
        None,
        Some("2025-01-05 08:00".to_string()),
        None,
    )
    .unwrap();
    closed_frame(&mut conn, "second", &[], 10);

    let newest_first = log_all_frames(&conn).unwrap();
    assert_eq!(newest_first[0].project, "second");
    assert_eq!(newest_first[1].project, "first");

    let oldest_first = log_all_frames_asc(&conn).unwrap();
    assert_eq!(oldest_first[0].project, "first");
    assert_eq!(oldest_first[1].project, "second");
}

#[test]
fn test_projects_and_tags_listings() {
    let mut conn = mem();
    closed_frame(&mut conn, "proj2", &["tagb"], 1);
    closed_frame(&mut conn, "proj1", &["taga", "tagb"], 1);
    closed_frame(&mut conn, "proj1", &[], 1);
    let projects = timer_cli::query::projects(&conn).unwrap();
    assert_eq!(projects, vec!["proj1".to_string(), "proj2".to_string()]);
    let tag_names = timer_cli::query::tags_list(&conn).unwrap();
    assert_eq!(tag_names, vec!["taga".to_string(), "tagb".to_string()]);
}

#[test]
fn test_resolve_range_defaults_to_today() {
    let today = Date { year: 2026, month: 3, day: 15 };
    let other = Date { year: 2026, month: 1, day: 2 };
    assert_eq!(timer_cli::query::resolve_range(None, None, today), (today, today));
    assert_eq!(timer_cli::query::resolve_range(Some(other), None, today), (other, today));
    assert_eq!(timer_cli::query::resolve_range(None, Some(other), today), (today, other));
}
