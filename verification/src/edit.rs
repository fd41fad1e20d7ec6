//! Targeted mutation and removal of a frame by id. Each supplied field
//! replaces the stored one independently, with no cross-field checks; all
//! replacements land in one statement, so an error leaves every field as
//! it was. A time argument fails only when its text reads as no time at
//! all; an ambiguous or nonexistent local time resolves best-effort, as
//! the query ranges do.

use vstd::prelude::*;

use crate::clock::{local_civil_to_ts, now_ts, pick_bound, ts_to_local_civil, TS_LIMIT};
use crate::dates::{
    digit_run, digits_value, parse_digit_run, parse_full_date_spec, valid_date, Date,
};
use crate::errors::TimerError;
use crate::frame::{stored_of_tags, stored_tags_string, FrameData};
use crate::lifecycle::{at_most_one_open, is_open_in};
use crate::store::{delete_frame, frames_of, query_exists, update_fields};
use crate::text::{split_on_char, split_sep};

verus! {

/// The wall-clock time a `HH:MM` form names: hour up to 23, minute up to
/// 59, each of one or two digits.
pub open spec fn parse_hm_spec(s: Seq<char>) -> Option<(int, int)> {
    let parts = split_sep(s, ':');
    if parts.len() == 2 && digit_run(parts[0], 2) && digit_run(parts[1], 2) {
        let h = digits_value(parts[0]);
        let mi = digits_value(parts[1]);
        if h < 24 && mi < 60 {
            Some((h, mi))
        } else {
            None
        }
    } else {
        None
    }
}

/// The local civil time a time argument names: a bare `HH:MM` on today's
/// date, or a full `YYYY-MM-DD HH:MM`.
pub open spec fn parse_datetime_spec(s: Seq<char>, today: Date) -> Option<(Date, int, int)> {
    match parse_hm_spec(s) {
        Some(hm) => Some((today, hm.0, hm.1)),
        None => {
            let parts = split_sep(s, ' ');
            if parts.len() == 2 {
                match parse_full_date_spec(parts[0]) {
                    Some(d) => match parse_hm_spec(parts[1]) {
                        Some(hm) => Some((d, hm.0, hm.1)),
                        None => None,
                    },
                    None => None,
                }
            } else {
                None
            }
        },
    }
}

/// Whether a time argument reads as a time at all: one of the two
/// accepted shapes. The date a bare `HH:MM` borrows plays no part in
/// whether it parses, so this does not depend on the day.
pub open spec fn time_arg_ok(s: Seq<char>) -> bool {
    parse_hm_spec(s) is Some || {
        let parts = split_sep(s, ' ');
        parts.len() == 2 && parse_full_date_spec(parts[0]) is Some && parse_hm_spec(
            parts[1],
        ) is Some
    }
}

/// The `HH:MM` form of `s`, if it is one.
fn parse_hm(s: &str) -> (r: Option<(u8, u8)>)
    ensures
        match r {
            Some(hm) => parse_hm_spec(s@) == Some((hm.0 as int, hm.1 as int)) && hm.0 < 24
                && hm.1 < 60,
            None => parse_hm_spec(s@) is None,
        },
{
    let parts = split_on_char(s, ':');
    proof {
        assert(parts.deep_view().len() == parts@.len());
    }
    if parts.len() != 2 {
        return None;
    }
    let h = parse_digit_run(&parts[0], 2);
    let mi = parse_digit_run(&parts[1], 2);
    proof {
        assert(parts.deep_view()[0] == parts@[0]@);
        assert(parts.deep_view()[1] == parts@[1]@);
    }
    if let (Some(h), Some(mi)) = (h, mi) {
        if h < 24 && mi < 60 {
            return Some((h as u8, mi as u8));
        }
    }
    None
}

/// The civil time a time argument names, if it names one.
fn parse_datetime(s: &str, today: Date) -> (r: Option<(Date, u8, u8)>)
    requires
        valid_date(today),
        -262143 <= today.year <= 262142,
    ensures
        match r {
            Some(c) => parse_datetime_spec(s@, today) == Some((c.0, c.1 as int, c.2 as int))
                && valid_date(c.0) && -262143 <= c.0.year <= 262142 && c.1 < 24 && c.2 < 60
                && time_arg_ok(s@),
            None => parse_datetime_spec(s@, today) is None && !time_arg_ok(s@),
        },
{
    if let Some(hm) = parse_hm(s) {
        return Some((today, hm.0, hm.1));
    }
    let parts = split_on_char(s, ' ');
    proof {
        assert(parts.deep_view().len() == parts@.len());
    }
    if parts.len() != 2 {
        return None;
    }
    proof {
        assert(parts.deep_view()[0] == parts@[0]@);
        assert(parts.deep_view()[1] == parts@[1]@);
    }
    let d = match crate::dates::parse_date(parts[0].as_str()) {
        Ok(d) => d,
        Err(_) => {
            return None;
        },
    };
    let hm = match parse_hm(parts[1].as_str()) {
        Some(hm) => hm,
        None => {
            return None;
        },
    };
    Some((d, hm.0, hm.1))
}

/// A time argument resolved to an instant through `pick_bound` with
/// `latest == false`: the earliest candidate of the named local time, the
/// current instant when that local time does not exist. `Err`, carrying
/// `err_msg`, exactly when the text reads as no time at all.
fn resolve_time_arg(s: &str, today: Date, err_msg: &str) -> (r: Result<i64, String>)
    requires
        valid_date(today),
        -262143 <= today.year <= 262142,
    ensures
        match r {
            Ok(t) => time_arg_ok(s@) && -TS_LIMIT < t < TS_LIMIT,
            Err(m) => !time_arg_ok(s@) && m@ == err_msg@,
        },
{
    let c = match parse_datetime(s, today) {
        Some(c) => c,
        None => {
            return Err(err_msg.to_owned());
        },
    };
    let p = local_civil_to_ts(c.0, c.1, c.2, 0);
    Ok(pick_bound(p, now_ts(), false))
}

/// The view of an optional owned string.
pub open spec fn opt_string_view(s: &Option<String>) -> Option<Seq<char>> {
    match s {
        Some(p) => Some(p@),
        None => None,
    }
}

/// The view of an optional tag list.
pub open spec fn opt_tags_view(t: &Option<Vec<String>>) -> Option<Seq<Seq<char>>> {
    match t {
        Some(l) => Some(l.deep_view()),
        None => None,
    }
}

/// Row content after an edit: each supplied field replaced, the rest kept.
pub open spec fn edited_row(
    prior: FrameData,
    project: Option<Seq<char>>,
    tags: Option<Seq<Seq<char>>>,
    start: Option<int>,
    end: Option<int>,
) -> FrameData {
    FrameData {
        project: match project {
            Some(p) => p,
            None => prior.project,
        },
        start: match start {
            Some(t) => t,
            None => prior.start,
        },
        end: match end {
            Some(t) => Some(t),
            None => prior.end,
        },
        tags: match tags {
            Some(l) => stored_of_tags(l),
            None => prior.tags,
        },
    }
}

/// Edit frame `id` at the given local day: each supplied field is updated
/// independently and unconditionally (an end before the stored start is
/// accepted), all in one statement. Fails with `FrameNotFound` when no row
/// has the id and `InvalidTime` exactly when a supplied time reads as no
/// time at all; every failure leaves the store unchanged.
pub fn edit_at(
    conn: &mut rusqlite::Connection,
    id: i64,
    project: Option<String>,
    tags: Option<Vec<String>>,
    start: Option<String>,
    end: Option<String>,
    today: Date,
) -> (r: Result<(), TimerError>)
    requires
        valid_date(today),
        -262143 <= today.year <= 262142,
    ensures
        match r {
            Ok(_) => {
                &&& frames_of(old(conn)).dom().contains(id as int)
                &&& (start is Some ==> time_arg_ok(start.unwrap()@))
                &&& (end is Some ==> time_arg_ok(end.unwrap()@))
                &&& (exists|ts_s: Option<int>, ts_e: Option<int>|
                    (ts_s is Some <==> start is Some) && (ts_e is Some <==> end is Some) && (
                    ts_s is Some ==> -TS_LIMIT < ts_s.unwrap() < TS_LIMIT) && (ts_e is Some
                        ==> -TS_LIMIT < ts_e.unwrap() < TS_LIMIT) && frames_of(final (conn))
                        == frames_of(old(conn)).insert(
                        id as int,
                        #[trigger] edited_row(
                            frames_of(old(conn))[id as int],
                            opt_string_view(&project),
                            opt_tags_view(&tags),
                            ts_s,
                            ts_e,
                        ),
                    ))
            },
            Err(e) => {
                &&& frames_of(final (conn)) == frames_of(old(conn))
                &&& match e {
                    TimerError::FrameNotFound(fid) => fid == id && !frames_of(
                        old(conn),
                    ).dom().contains(id as int),
                    TimerError::InvalidTime(m) => {
                        &&& frames_of(old(conn)).dom().contains(id as int)
                        &&& if start is Some && !time_arg_ok(start.unwrap()@) {
                            m@ == "invalid start time: expected HH:MM or YYYY-MM-DD HH:MM"@
                        } else {
                            &&& end is Some
                            &&& !time_arg_ok(end.unwrap()@)
                            &&& m@ == "invalid end time: expected HH:MM or YYYY-MM-DD HH:MM"@
                        }
                    },
                    TimerError::Storage(_) => true,
                    _ => false,
                }
            },
        },
        at_most_one_open(frames_of(old(conn))) ==> at_most_one_open(frames_of(final (conn))),
{
    let exists_now = match query_exists(conn, id) {
        Err(e) => {
            return Err(TimerError::Storage(e));
        },
        Ok(b) => b,
    };
    if !exists_now {
        return Err(TimerError::FrameNotFound(id));
    }
    let ts_s: Option<i64> = match &start {
        None => None,
        Some(s) => match resolve_time_arg(
            s.as_str(),
            today,
            "invalid start time: expected HH:MM or YYYY-MM-DD HH:MM",
        ) {
            Ok(t) => Some(t),
            Err(m) => {
                return Err(TimerError::InvalidTime(m));
            },
        },
    };
    let ts_e: Option<i64> = match &end {
        None => None,
        Some(s) => match resolve_time_arg(
            s.as_str(),
            today,
            "invalid end time: expected HH:MM or YYYY-MM-DD HH:MM",
        ) {
            Ok(t) => Some(t),
            Err(m) => {
                return Err(TimerError::InvalidTime(m));
            },
        },
    };
    let set_tags = tags.is_some();
    let tags_str: Option<String> = match &tags {
        Some(l) => stored_tags_string(l),
        None => None,
    };
    let tags_ref: Option<&str> = match &tags_str {
        Some(s) => Some(s.as_str()),
        None => None,
    };
    let project_ref: Option<&str> = match &project {
        Some(p) => Some(p.as_str()),
        None => None,
    };
    match update_fields(conn, id, project_ref, set_tags, tags_ref, ts_s, ts_e) {
        Err(e) => Err(TimerError::Storage(e)),
        Ok(_) => {
            proof {
                let m = frames_of(old(conn));
                let m1 = frames_of(final (conn));
                let gs: Option<int> = match ts_s {
                    Some(t) => Some(t as int),
                    None => None,
                };
                let ge: Option<int> = match ts_e {
                    Some(t) => Some(t as int),
                    None => None,
                };
                let row = edited_row(
                    m[id as int],
                    opt_string_view(&project),
                    opt_tags_view(&tags),
                    gs,
                    ge,
                );
                assert(m1 == m.insert(id as int, row));
                assert forall|i: int, j: int|
                    is_open_in(m1, i) && is_open_in(m1, j) && at_most_one_open(m) implies i
                    == j by {
                    assert(row.end is None ==> m[id as int].end is None);
                    assert(is_open_in(m, i) && is_open_in(m, j));
                }
            }
            Ok(())
        },
    }
}

/// Edit frame `id`, reading bare `HH:MM` times as today's local date.
pub fn edit(
    conn: &mut rusqlite::Connection,
    id: i64,
    project: Option<String>,
    tags: Option<Vec<String>>,
    start: Option<String>,
    end: Option<String>,
) -> (r: Result<(), TimerError>)
    ensures
        match r {
            Ok(_) => {
                &&& frames_of(old(conn)).dom().contains(id as int)
                &&& (start is Some ==> time_arg_ok(start.unwrap()@))
                &&& (end is Some ==> time_arg_ok(end.unwrap()@))
                &&& (exists|ts_s: Option<int>, ts_e: Option<int>|
                    (ts_s is Some <==> start is Some) && (ts_e is Some <==> end is Some) && (
                    ts_s is Some ==> -TS_LIMIT < ts_s.unwrap() < TS_LIMIT) && (ts_e is Some
                        ==> -TS_LIMIT < ts_e.unwrap() < TS_LIMIT) && frames_of(final (conn))
                        == frames_of(old(conn)).insert(
                        id as int,
                        #[trigger] edited_row(
                            frames_of(old(conn))[id as int],
                            opt_string_view(&project),
                            opt_tags_view(&tags),
                            ts_s,
                            ts_e,
                        ),
                    ))
            },
            Err(e) => {
                &&& frames_of(final (conn)) == frames_of(old(conn))
                &&& match e {
                    TimerError::FrameNotFound(fid) => fid == id && !frames_of(
                        old(conn),
                    ).dom().contains(id as int),
                    TimerError::InvalidTime(m) => {
                        &&& frames_of(old(conn)).dom().contains(id as int)
                        &&& if start is Some && !time_arg_ok(start.unwrap()@) {
                            m@ == "invalid start time: expected HH:MM or YYYY-MM-DD HH:MM"@
                        } else {
                            &&& end is Some
                            &&& !time_arg_ok(end.unwrap()@)
                            &&& m@ == "invalid end time: expected HH:MM or YYYY-MM-DD HH:MM"@
                        }
                    },
                    TimerError::Storage(_) => true,
                    _ => false,
                }
            },
        },
        at_most_one_open(frames_of(old(conn))) ==> at_most_one_open(frames_of(final (conn))),
{
    let epoch_day = Date { year: 1970, month: 1, day: 1 };
    let today = match ts_to_local_civil(now_ts()) {
        Some(c) => if -262143 <= c.0.year && c.0.year <= 262142 {
            c.0
        } else {
            epoch_day
        },
        None => epoch_day,
    };
    proof {
        assert(valid_date(epoch_day));
    }
    edit_at(conn, id, project, tags, start, end, today)
}

/// Remove frame `id`. Fails with `FrameNotFound`, changing nothing, when
/// no row has the id.
pub fn delete(conn: &mut rusqlite::Connection, id: i64) -> (r: Result<(), TimerError>)
    ensures
        match r {
            Ok(_) => frames_of(old(conn)).dom().contains(id as int) && frames_of(final (conn))
                == frames_of(old(conn)).remove(id as int),
            Err(e) => {
                &&& frames_of(final (conn)) == frames_of(old(conn))
                &&& match e {
                    TimerError::FrameNotFound(fid) => fid == id && !frames_of(
                        old(conn),
                    ).dom().contains(id as int),
                    TimerError::Storage(_) => true,
                    _ => false,
                }
            },
        },
        at_most_one_open(frames_of(old(conn))) ==> at_most_one_open(frames_of(final (conn))),
{
    match delete_frame(conn, id) {
        Err(e) => Err(TimerError::Storage(e)),
        Ok(n) => {
            if n == 0 {
                proof {
                    let m = frames_of(old(conn));
                    assert(m.remove(id as int) =~= m);
                }
                Err(TimerError::FrameNotFound(id))
            } else {
                proof {
                    let m = frames_of(old(conn));
                    let m1 = frames_of(final (conn));
                    assert forall|i: int, j: int|
                        is_open_in(m1, i) && is_open_in(m1, j) && at_most_one_open(m) implies i
                        == j by {
                        assert(is_open_in(m, i) && is_open_in(m, j));
                    }
                }
                Ok(())
            }
        },
    }
}

} // verus!
