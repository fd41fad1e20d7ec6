//! The storage boundary: one SQLite table of frames behind rusqlite. Each
//! operation is a thin wrapper whose contract speaks of `frames_of`, the
//! mathematical content of the table as this process sees it through its
//! connection. The lifecycle and query logic is verified against these
//! contracts; the wrappers themselves are trusted.

use rusqlite::OptionalExtension;
use vstd::prelude::*;

use crate::frame::{FrameData, RawFrame};

verus! {

#[verifier::external_type_specification]
#[verifier::external_body]
pub struct ExConnection(rusqlite::Connection);

#[verifier::external_type_specification]
#[verifier::external_body]
pub struct ExSqlError(rusqlite::Error);

/// The rows of the frames table reached through `conn`, keyed by id.
pub uninterp spec fn frames_of(conn: &rusqlite::Connection) -> Map<int, FrameData>;

/// Every listed row is a distinct row of the store, with the content the
/// store holds under its id.
pub open spec fn rows_from_store(v: Seq<RawFrame>, m: Map<int, FrameData>) -> bool {
    (forall|k: int|
        0 <= k < v.len() ==> m.dom().contains((#[trigger] v[k]).id as int) && m[v[k].id as int]
            == v[k]@) && (forall|k: int, l: int|
        0 <= k < l < v.len() ==> v[k].id != v[l].id)
}

/// Start times never increase along the listed rows.
pub open spec fn rows_sorted_desc(v: Seq<RawFrame>) -> bool {
    forall|k: int, l: int| 0 <= k < l < v.len() ==> (#[trigger] v[k]@.start) >= #[trigger] v[l]@.start
}

/// Whether an interval touches `[lo, hi]`: it starts no later than `hi`
/// and, when closed, ends no earlier than `lo`; an open interval reaches
/// every later instant.
pub open spec fn intersects_range(start: int, end: Option<int>, lo: int, hi: int) -> bool {
    start <= hi && (match end {
        None => true,
        Some(e) => e >= lo,
    })
}

/// Every stored row whose interval touches `[lo, hi]` is listed.
pub open spec fn rows_cover_range(
    v: Seq<RawFrame>,
    m: Map<int, FrameData>,
    lo: int,
    hi: int,
) -> bool {
    forall|i: int|
        #[trigger] m.dom().contains(i) && intersects_range(m[i].start, m[i].end, lo, hi)
            ==> exists|k: int| 0 <= k < v.len() && (#[trigger] v[k]).id as int == i
}

/// Every stored row is listed.
pub open spec fn rows_cover_all(v: Seq<RawFrame>, m: Map<int, FrameData>) -> bool {
    forall|i: int|
        #[trigger] m.dom().contains(i) ==> exists|k: int|
            0 <= k < v.len() && (#[trigger] v[k]).id as int == i
}

/// The row under `close_id` with its end set to `end`.
pub open spec fn closed_at(m: Map<int, FrameData>, close_id: int, end: int) -> FrameData {
    FrameData { end: Some(end), ..m[close_id] }
}

/// The view of an optional borrowed tags column.
pub open spec fn opt_str_view(t: Option<&str>) -> Option<Seq<char>> {
    match t {
        Some(s) => Some(s@),
        None => None,
    }
}

/// Relies on `Connection::execute_batch`: creates the frames table and its
/// lookup indexes when they are missing, so that startup is idempotent.
#[verifier::external_body]
pub fn init_schema(conn: &rusqlite::Connection) -> (r: Result<(), rusqlite::Error>) {
    conn.execute_batch(
        "CREATE TABLE IF NOT EXISTS frames (
            id INTEGER PRIMARY KEY,
            project TEXT NOT NULL,
            start_time INTEGER NOT NULL,
            end_time INTEGER,
            tags TEXT
        );
        CREATE INDEX IF NOT EXISTS idx_frames_project ON frames(project);
        CREATE INDEX IF NOT EXISTS idx_frames_start ON frames(start_time);",
    )
}

/// Relies on `Connection::execute` with one INSERT and on
/// `Connection::last_insert_rowid`: a single new row appears under a rowid
/// the table did not hold, and that rowid comes back. A failed statement
/// changes nothing.
#[verifier::external_body]
pub fn insert_frame(
    conn: &mut rusqlite::Connection,
    project: &str,
    start_ts: i64,
    tags: Option<&str>,
) -> (r: Result<i64, rusqlite::Error>)
    ensures
        match r {
            Ok(id) => !frames_of(old(conn)).dom().contains(id as int) && frames_of(final (conn))
                == frames_of(old(conn)).insert(
                id as int,
                FrameData {
                    project: project@,
                    start: start_ts as int,
                    end: None,
                    tags: opt_str_view(tags),
                },
            ),
            Err(_) => frames_of(final (conn)) == frames_of(old(conn)),
        },
{
    conn.execute(
        "INSERT INTO frames (project, start_time, tags) VALUES (?1, ?2, ?3)",
        (project, start_ts, tags),
    )?;
    Ok(conn.last_insert_rowid())
}

/// Relies on `Connection::execute` with one UPDATE of a single row by id,
/// each column replaced only where a replacement is supplied (the tags
/// column whenever `set_tags`, clearing it on `None`). The statement
/// reports how many rows matched: one when the id exists, else none. A
/// failed statement changes nothing.
#[verifier::external_body]
pub fn update_fields(
    conn: &mut rusqlite::Connection,
    id: i64,
    project: Option<&str>,
    set_tags: bool,
    tags: Option<&str>,
    start_ts: Option<i64>,
    end_ts: Option<i64>,
) -> (r: Result<usize, rusqlite::Error>)
    ensures
        match r {
            Ok(n) => if frames_of(old(conn)).dom().contains(id as int) {
                n == 1 && frames_of(final (conn)) == frames_of(old(conn)).insert(
                    id as int,
                    FrameData {
                        project: match project {
                            Some(p) => p@,
                            None => frames_of(old(conn))[id as int].project,
                        },
                        start: match start_ts {
                            Some(t) => t as int,
                            None => frames_of(old(conn))[id as int].start,
                        },
                        end: match end_ts {
                            Some(t) => Some(t as int),
                            None => frames_of(old(conn))[id as int].end,
                        },
                        tags: if set_tags {
                            opt_str_view(tags)
                        } else {
                            frames_of(old(conn))[id as int].tags
                        },
                    },
                )
            } else {
                n == 0 && frames_of(final (conn)) == frames_of(old(conn))
            },
            Err(_) => frames_of(final (conn)) == frames_of(old(conn)),
        },
{
    conn.execute(
        "UPDATE frames SET project = COALESCE(?2, project),
            tags = CASE WHEN ?3 THEN ?4 ELSE tags END,
            start_time = COALESCE(?5, start_time),
            end_time = COALESCE(?6, end_time)
         WHERE id = ?1",
        (id, project, set_tags, tags, start_ts, end_ts),
    )
}

/// Relies on `Connection::execute` with one DELETE of a single row by id,
/// reporting how many rows matched. A failed statement changes nothing.
#[verifier::external_body]
pub fn delete_frame(conn: &mut rusqlite::Connection, id: i64) -> (r: Result<
    usize,
    rusqlite::Error,
>)
    ensures
        match r {
            Ok(n) => frames_of(final (conn)) == frames_of(old(conn)).remove(id as int) && n == (
            if frames_of(old(conn)).dom().contains(id as int) {
                1int
            } else {
                0int
            }),
            Err(_) => frames_of(final (conn)) == frames_of(old(conn)),
        },
{
    conn.execute("DELETE FROM frames WHERE id = ?1", (id,))
}

/// Relies on `Connection::query_row` over the lookup of the row with no
/// end time: some such row when one exists, `None` when none does.
#[verifier::external_body]
pub fn query_open(conn: &rusqlite::Connection) -> (r: Result<Option<RawFrame>, rusqlite::Error>)
    ensures
        match r {
            Ok(Some(f)) => frames_of(conn).dom().contains(f.id as int) && frames_of(conn)[f.id
                as int] == f@ && f@.end is None,
            Ok(None) => forall|i: int|
                #[trigger] frames_of(conn).dom().contains(i) ==> frames_of(conn)[i].end is Some,
            Err(_) => true,
        },
{
    conn.query_row(
        "SELECT id, project, start_time, end_time, tags FROM frames WHERE end_time IS NULL",
        [],
        |row| {
            Ok(RawFrame {
                id: row.get(0)?,
                project: row.get(1)?,
                start_time: row.get(2)?,
                end_time: row.get(3)?,
                tags: row.get(4)?,
            })
        },
    ).optional()
}

/// Relies on `Statement::query_map` over the range scan ordered by start
/// time descending: exactly the rows whose interval touches
/// `[from_ts, to_ts]` — started by `to_ts` and not ended before `from_ts`,
/// an open end never ending — each as stored, latest start first.
#[verifier::external_body]
pub fn query_range(conn: &rusqlite::Connection, from_ts: i64, to_ts: i64) -> (r: Result<
    Vec<RawFrame>,
    rusqlite::Error,
>)
    ensures
        match r {
            Ok(v) => rows_from_store(v@, frames_of(conn)) && rows_sorted_desc(v@)
                && rows_cover_range(v@, frames_of(conn), from_ts as int, to_ts as int) && (forall|
                k: int|
                0 <= k < v@.len() ==> intersects_range(
                    (#[trigger] v@[k]@).start,
                    v@[k]@.end,
                    from_ts as int,
                    to_ts as int,
                )),
            Err(_) => true,
        },
{
    let mut stmt = conn.prepare(
        "SELECT id, project, start_time, end_time, tags FROM frames
         WHERE start_time <= ?2 AND (end_time IS NULL OR end_time >= ?1)
         ORDER BY start_time DESC",
    )?;
    let rows = stmt.query_map((from_ts, to_ts), |row| {
        Ok(RawFrame {
            id: row.get(0)?,
            project: row.get(1)?,
            start_time: row.get(2)?,
            end_time: row.get(3)?,
            tags: row.get(4)?,
        })
    })?;
    rows.collect()
}

/// Relies on `Statement::query_map` over the full scan ordered by start
/// time descending: every stored row, each as stored, latest start first.
#[verifier::external_body]
pub fn query_all_desc(conn: &rusqlite::Connection) -> (r: Result<
    Vec<RawFrame>,
    rusqlite::Error,
>)
    ensures
        match r {
            Ok(v) => rows_from_store(v@, frames_of(conn)) && rows_sorted_desc(v@)
                && rows_cover_all(v@, frames_of(conn)),
            Err(_) => true,
        },
{
    let mut stmt = conn.prepare(
        "SELECT id, project, start_time, end_time, tags FROM frames ORDER BY start_time DESC",
    )?;
    let rows = stmt.query_map([], |row| {
        Ok(RawFrame {
            id: row.get(0)?,
            project: row.get(1)?,
            start_time: row.get(2)?,
            end_time: row.get(3)?,
            tags: row.get(4)?,
        })
    })?;
    rows.collect()
}

/// Relies on `Connection::query_row` over the closed rows ordered by end
/// time descending, first row only: a closed row none of whose fellows
/// ended later, or `None` when no row is closed.
#[verifier::external_body]
pub fn query_last_closed(conn: &rusqlite::Connection) -> (r: Result<
    Option<RawFrame>,
    rusqlite::Error,
>)
    ensures
        match r {
            Ok(Some(f)) => frames_of(conn).dom().contains(f.id as int) && frames_of(conn)[f.id
                as int] == f@ && f@.end is Some && forall|i: int|
                #[trigger] frames_of(conn).dom().contains(i) && frames_of(conn)[i].end is Some
                    ==> frames_of(conn)[i].end.unwrap() <= f@.end.unwrap(),
            Ok(None) => forall|i: int|
                #[trigger] frames_of(conn).dom().contains(i) ==> frames_of(conn)[i].end is None,
            Err(_) => true,
        },
{
    conn.query_row(
        "SELECT id, project, start_time, end_time, tags FROM frames
         WHERE end_time IS NOT NULL ORDER BY end_time DESC LIMIT 1",
        [],
        |row| {
            Ok(RawFrame {
                id: row.get(0)?,
                project: row.get(1)?,
                start_time: row.get(2)?,
                end_time: row.get(3)?,
                tags: row.get(4)?,
            })
        },
    ).optional()
}

/// Relies on `Connection::query_row` over a point lookup by id: whether
/// the table holds that id.
#[verifier::external_body]
pub fn query_exists(conn: &rusqlite::Connection, id: i64) -> (r: Result<bool, rusqlite::Error>)
    ensures
        match r {
            Ok(b) => b == frames_of(conn).dom().contains(id as int),
            Err(_) => true,
        },
{
    let found = conn.query_row("SELECT 1 FROM frames WHERE id = ?1", (id,), |_| Ok(true))
        .optional()?;
    Ok(found.is_some())
}

/// Relies on `Connection::transaction`, `Connection::execute` and
/// `Transaction::commit`: within one transaction, the row under `close_id`
/// gets `end_ts` as its end and a new row appears under an unused rowid,
/// which comes back. On any failure the transaction rolls back when
/// dropped, and the table keeps its prior rows.
#[verifier::external_body]
pub fn close_and_insert(
    conn: &mut rusqlite::Connection,
    close_id: i64,
    end_ts: i64,
    project: &str,
    start_ts: i64,
    tags: Option<&str>,
) -> (r: Result<i64, rusqlite::Error>)
    requires
        frames_of(old(conn)).dom().contains(close_id as int),
    ensures
        match r {
            Ok(id) => !frames_of(old(conn)).dom().contains(id as int) && id != close_id
                && frames_of(final (conn)) == frames_of(old(conn)).insert(
                close_id as int,
                closed_at(frames_of(old(conn)), close_id as int, end_ts as int),
            ).insert(
                id as int,
                FrameData {
                    project: project@,
                    start: start_ts as int,
                    end: None,
                    tags: opt_str_view(tags),
                },
            ),
            Err(_) => frames_of(final (conn)) == frames_of(old(conn)),
        },
{
    let tx = conn.transaction()?;
    tx.execute("UPDATE frames SET end_time = ?1 WHERE id = ?2", (end_ts, close_id))?;
    tx.execute(
        "INSERT INTO frames (project, start_time, tags) VALUES (?1, ?2, ?3)",
        (project, start_ts, tags),
    )?;
    let id = tx.last_insert_rowid();
    tx.commit()?;
    Ok(id)
}

} // verus!
