//! Retrieval: date-range resolution, the log listing ordered by start time
//! descending, and the distinct project and tag listings.

use vstd::prelude::*;

use crate::clock::{local_civil_to_ts, pick_bound, TS_LIMIT};
use crate::dates::{valid_date, Date};
use crate::errors::TimerError;
use crate::frame::{tags_of_stored, Frame, FrameData};
use crate::lifecycle::frame_reads;
use crate::store::{frames_of, intersects_range, query_all_desc, query_range};
use crate::text::{insert_unique_sorted, sorted_unique, split_commas};

verus! {

/// The reference dates of a query: each bound defaults to today.
pub fn resolve_range(from: Option<Date>, to: Option<Date>, today: Date) -> (r: (Date, Date))
    ensures
        r.0 == (match from {
            Some(d) => d,
            None => today,
        }),
        r.1 == (match to {
            Some(d) => d,
            None => today,
        }),
{
    let lo = match from {
        Some(d) => d,
        None => today,
    };
    let hi = match to {
        Some(d) => d,
        None => today,
    };
    (lo, hi)
}

/// The instant a range starts: local midnight of `d`, resolved by
/// `pick_bound` with `latest == false` — the earliest candidate when the
/// civil time is ambiguous, the current instant when it does not exist.
/// Which instants the zone offers cannot be named here, so the selection
/// policy itself is the contract of `pick_bound`.
pub fn day_start_ts(d: Date, now: i64) -> (r: i64)
    requires
        valid_date(d),
        -262143 <= d.year <= 262142,
        -TS_LIMIT < now < TS_LIMIT,
    ensures
        -TS_LIMIT < r < TS_LIMIT,
{
    let p = local_civil_to_ts(d, 0, 0, 0);
    pick_bound(p, now, false)
}

/// The instant a range ends: local `23:59:59` of `d`, resolved by
/// `pick_bound` with `latest == true` — the latest candidate when
/// ambiguous, the current instant when it does not exist.
pub fn day_end_ts(d: Date, now: i64) -> (r: i64)
    requires
        valid_date(d),
        -262143 <= d.year <= 262142,
        -TS_LIMIT < now < TS_LIMIT,
    ensures
        -TS_LIMIT < r < TS_LIMIT,
{
    let p = local_civil_to_ts(d, 23, 59, 59);
    pick_bound(p, now, true)
}

/// The listed frames are distinct store rows, latest start first.
pub open spec fn listing_from(v: Seq<Frame>, m: Map<int, FrameData>) -> bool {
    (forall|k: int| 0 <= k < v.len() ==> frame_reads(m, &(#[trigger] v[k]))) && (forall|
        k: int,
        l: int,
    |
        0 <= k < l < v.len() ==> v[k].id != v[l].id) && (forall|k: int, l: int|
        0 <= k < l < v.len() ==> (#[trigger] v[k]).start_time >= (#[trigger] v[l]).start_time)
}

/// The frames whose interval touches `[from_ts, to_ts]` — started by the
/// range's end and not ended before its start, an open frame reaching
/// every later instant — latest start first. An inverted range holds no
/// instants, so it lists nothing.
pub fn log_frames(conn: &rusqlite::Connection, from_ts: i64, to_ts: i64) -> (r: Result<
    Vec<Frame>,
    TimerError,
>)
    ensures
        match r {
            Ok(v) => {
                &&& listing_from(v@, frames_of(conn))
                &&& forall|k: int|
                    0 <= k < v@.len() ==> intersects_range(
                        (#[trigger] v@[k]).start_time as int,
                        match v@[k].end_time {
                            Some(e) => Some(e as int),
                            None => None,
                        },
                        from_ts as int,
                        to_ts as int,
                    )
                &&& from_ts <= to_ts ==> forall|i: int|
                    #[trigger] frames_of(conn).dom().contains(i) && intersects_range(
                        frames_of(conn)[i].start,
                        frames_of(conn)[i].end,
                        from_ts as int,
                        to_ts as int,
                    ) ==> exists|k: int| 0 <= k < v@.len() && (#[trigger] v@[k]).id as int == i
                &&& from_ts > to_ts ==> v@.len() == 0
            },
            Err(e) => e is Storage,
        },
{
    if from_ts > to_ts {
        return Ok(Vec::new());
    }
    let rows = match query_range(conn, from_ts, to_ts) {
        Err(e) => {
            return Err(TimerError::Storage(e));
        },
        Ok(rows) => rows,
    };
    let v = frames_of_rows(&rows);
    proof {
        assert forall|k: int| 0 <= k < v@.len() implies intersects_range(
            (#[trigger] v@[k]).start_time as int,
            match v@[k].end_time {
                Some(e) => Some(e as int),
                None => None,
            },
            from_ts as int,
            to_ts as int,
        ) by {
            assert(intersects_range(
                rows@[k]@.start,
                rows@[k]@.end,
                from_ts as int,
                to_ts as int,
            ));
        }
        assert forall|i: int|
            #[trigger] frames_of(conn).dom().contains(i) && intersects_range(
                frames_of(conn)[i].start,
                frames_of(conn)[i].end,
                from_ts as int,
                to_ts as int,
            ) implies exists|k: int|
            0 <= k < v@.len() && (#[trigger] v@[k]).id as int == i by {
            let k = choose|k: int| 0 <= k < rows@.len() && (#[trigger] rows@[k]).id as int == i;
            assert(v@[k].id as int == i);
        }
    }
    Ok(v)
}

/// Every frame in the store, latest start first.
pub fn log_all_frames(conn: &rusqlite::Connection) -> (r: Result<Vec<Frame>, TimerError>)
    ensures
        match r {
            Ok(v) => {
                &&& listing_from(v@, frames_of(conn))
                &&& forall|i: int|
                    #[trigger] frames_of(conn).dom().contains(i) ==> exists|k: int|
                        0 <= k < v@.len() && (#[trigger] v@[k]).id as int == i
            },
            Err(e) => e is Storage,
        },
{
    let rows = match query_all_desc(conn) {
        Err(e) => {
            return Err(TimerError::Storage(e));
        },
        Ok(rows) => rows,
    };
    let v = frames_of_rows(&rows);
    proof {
        assert forall|k: int| 0 <= k < v@.len() implies frame_reads(
            frames_of(conn),
            &(#[trigger] v@[k]),
        ) by {
            assert(frames_of(conn).dom().contains(rows@[k].id as int));
            assert(frames_of(conn)[rows@[k].id as int] == rows@[k]@);
        }
        assert forall|i: int| #[trigger] frames_of(conn).dom().contains(i) implies exists|k: int|
            0 <= k < v@.len() && (#[trigger] v@[k]).id as int == i by {
            let k = choose|k: int| 0 <= k < rows@.len() && (#[trigger] rows@[k]).id as int == i;
            assert(v@[k].id as int == i);
        }
    }
    Ok(v)
}

/// Every frame in the store, earliest start first: the export order.
pub fn log_all_frames_asc(conn: &rusqlite::Connection) -> (r: Result<Vec<Frame>, TimerError>)
    ensures
        match r {
            Ok(v) => {
                &&& forall|k: int| 0 <= k < v@.len() ==> frame_reads(frames_of(conn), &(#[trigger] v@[k]))
                &&& forall|k: int, l: int| 0 <= k < l < v@.len() ==> v@[k].id != v@[l].id
                &&& forall|k: int, l: int|
                    0 <= k < l < v@.len() ==> (#[trigger] v@[k]).start_time <= (
                    #[trigger] v@[l]).start_time
                &&& forall|i: int|
                    #[trigger] frames_of(conn).dom().contains(i) ==> exists|k: int|
                        0 <= k < v@.len() && (#[trigger] v@[k]).id as int == i
            },
            Err(e) => e is Storage,
        },
{
    let desc = match log_all_frames(conn) {
        Err(e) => {
            return Err(e);
        },
        Ok(v) => v,
    };
    let n = desc.len();
    let mut v: Vec<Frame> = Vec::new();
    let mut k: usize = 0;
    while k < n
        invariant
            n == desc@.len(),
            k <= n,
            v@.len() == k,
            forall|j: int| 0 <= j < k ==> same_frame(#[trigger] v@[j], desc@[n - 1 - j]),
        decreases n - k,
    {
        let f = frame_copy(&desc[n - 1 - k]);
        v.push(f);
        k = k + 1;
    }
    proof {
        assert forall|k: int| 0 <= k < v@.len() implies frame_reads(
            frames_of(conn),
            &(#[trigger] v@[k]),
        ) by {
            assert(same_frame(v@[k], desc@[n - 1 - k]));
            assert(frame_reads(frames_of(conn), &desc@[n - 1 - k]));
        }
        assert forall|k: int, l: int| 0 <= k < l < v@.len() implies v@[k].id != v@[l].id by {
            assert(same_frame(v@[k], desc@[n - 1 - k]));
            assert(same_frame(v@[l], desc@[n - 1 - l]));
        }
        assert forall|i: int| #[trigger] frames_of(conn).dom().contains(i) implies exists|k: int|
            0 <= k < v@.len() && (#[trigger] v@[k]).id as int == i by {
            let kk = choose|kk: int| 0 <= kk < desc@.len() && (#[trigger] desc@[kk]).id as int == i;
            assert(same_frame(v@[n - 1 - kk], desc@[kk]));
            assert(v@[n - 1 - kk].id as int == i);
        }
    }
    Ok(v)
}

/// The same interval, field for field.
pub open spec fn same_frame(a: Frame, b: Frame) -> bool {
    &&& a.id == b.id
    &&& a.project@ == b.project@
    &&& a.start_time == b.start_time
    &&& a.end_time == b.end_time
    &&& a.tags.deep_view() == b.tags.deep_view()
}

/// A copy of a frame.
fn frame_copy(f: &Frame) -> (r: Frame)
    ensures
        same_frame(r, *f),
{
    Frame {
        id: f.id,
        project: f.project.clone(),
        start_time: f.start_time,
        end_time: f.end_time,
        tags: crate::text::clone_strings(&f.tags),
    }
}

/// The stored rows as frames, in their given order.
fn frames_of_rows(rows: &Vec<crate::frame::RawFrame>) -> (v: Vec<Frame>)
    ensures
        v@.len() == rows@.len(),
        forall|k: int|
            0 <= k < rows@.len() ==> {
                let f = #[trigger] v@[k];
                &&& f.id == rows@[k].id
                &&& f.project@ == rows@[k]@.project
                &&& f.start_time == rows@[k].start_time
                &&& f.end_time == rows@[k].end_time
                &&& f.tags.deep_view() == tags_of_stored(rows@[k]@.tags)
            },
{
    let n = rows.len();
    let mut v: Vec<Frame> = Vec::new();
    let mut k: usize = 0;
    while k < n
        invariant
            n == rows@.len(),
            k <= n,
            v@.len() == k,
            forall|j: int|
                0 <= j < k ==> {
                    let f = #[trigger] v@[j];
                    &&& f.id == rows@[j].id
                    &&& f.project@ == rows@[j]@.project
                    &&& f.start_time == rows@[j].start_time
                    &&& f.end_time == rows@[j].end_time
                    &&& f.tags.deep_view() == tags_of_stored(rows@[j]@.tags)
                },
        decreases n - k,
    {
        v.push(Frame::from_raw(&rows[k]));
        k = k + 1;
    }
    v
}

/// Law: a deleted frame is listed no more. Once row `id` is removed, any
/// listing drawn from the store shows only other ids.
pub proof fn lemma_delete_then_log(m: Map<int, FrameData>, id: int, v: Seq<Frame>)
    requires
        forall|k: int| 0 <= k < v.len() ==> frame_reads(m.remove(id), &(#[trigger] v[k])),
    ensures
        forall|k: int| 0 <= k < v.len() ==> (#[trigger] v[k]).id as int != id,
{
    assert forall|k: int| 0 <= k < v.len() implies (#[trigger] v[k]).id as int != id by {
        assert(m.remove(id).dom().contains(v[k].id as int));
    }
}

/// A project name some row carries.
pub open spec fn project_in_store(m: Map<int, FrameData>, p: Seq<char>) -> bool {
    exists|i: int| #[trigger] m.dom().contains(i) && m[i].project == p
}

/// The distinct projects across all frames, sorted ascending.
pub fn projects(conn: &rusqlite::Connection) -> (r: Result<Vec<String>, TimerError>)
    ensures
        match r {
            Ok(v) => {
                &&& sorted_unique(v.deep_view())
                &&& forall|k: int|
                    0 <= k < v.deep_view().len() ==> project_in_store(
                        frames_of(conn),
                        #[trigger] v.deep_view()[k],
                    )
                &&& forall|i: int|
                    #[trigger] frames_of(conn).dom().contains(i) ==> v.deep_view().contains(
                        frames_of(conn)[i].project,
                    )
            },
            Err(e) => e is Storage,
        },
{
    let rows = match query_all_desc(conn) {
        Err(e) => {
            return Err(TimerError::Storage(e));
        },
        Ok(rows) => rows,
    };
    let ghost m = frames_of(conn);
    let n = rows.len();
    let mut out: Vec<String> = Vec::new();
    let mut k: usize = 0;
    proof {
        assert(out.deep_view() =~= Seq::<Seq<char>>::empty());
    }
    while k < n
        invariant
            n == rows@.len(),
            k <= n,
            crate::store::rows_from_store(rows@, m),
            sorted_unique(out.deep_view()),
            forall|j: int|
                0 <= j < out.deep_view().len() ==> project_in_store(
                    m,
                    #[trigger] out.deep_view()[j],
                ),
            forall|j: int|
                0 <= j < k ==> out.deep_view().contains((#[trigger] rows@[j])@.project),
        decreases n - k,
    {
        let p = rows[k].project.clone();
        proof {
            assert(m.dom().contains(rows@[k as int].id as int));
            assert(m[rows@[k as int].id as int].project == p@);
        }
        let ghost before = out.deep_view();
        insert_unique_sorted(&mut out, p);
        proof {
            assert forall|j: int| 0 <= j < out.deep_view().len() implies project_in_store(
                m,
                #[trigger] out.deep_view()[j],
            ) by {
                let x = out.deep_view()[j];
                assert(out.deep_view().contains(x));
                if before.contains(x) {
                    let jj = choose|jj: int| 0 <= jj < before.len() && before[jj] == x;
                    assert(project_in_store(m, before[jj]));
                } else {
                    assert(x == p@);
                    assert(project_in_store(m, p@)) by {
                        assert(m.dom().contains(rows@[k as int].id as int));
                    }
                }
            }
            assert forall|j: int| 0 <= j < k + 1 implies out.deep_view().contains(
                (#[trigger] rows@[j])@.project,
            ) by {
                if j < k {
                    assert(before.contains(rows@[j]@.project));
                } else {
                    assert(out.deep_view().contains(p@));
                }
            }
        }
        k = k + 1;
    }
    proof {
        assert forall|i: int| #[trigger] m.dom().contains(i) implies out.deep_view().contains(
            m[i].project,
        ) by {
            let j = choose|j: int| 0 <= j < rows@.len() && (#[trigger] rows@[j]).id as int == i;
            assert(out.deep_view().contains(rows@[j]@.project));
        }
    }
    Ok(out)
}

/// A tag some row's tag list carries.
pub open spec fn tag_in_store(m: Map<int, FrameData>, t: Seq<char>) -> bool {
    exists|i: int|
        #[trigger] m.dom().contains(i) && m[i].tags is Some && split_commas(
            m[i].tags.unwrap(),
        ).contains(t)
}

/// The distinct tags across all frames, sorted ascending.
pub fn tags_list(conn: &rusqlite::Connection) -> (r: Result<Vec<String>, TimerError>)
    ensures
        match r {
            Ok(v) => {
                &&& sorted_unique(v.deep_view())
                &&& forall|k: int|
                    0 <= k < v.deep_view().len() ==> tag_in_store(
                        frames_of(conn),
                        #[trigger] v.deep_view()[k],
                    )
                &&& forall|t: Seq<char>|
                    #[trigger] tag_in_store(frames_of(conn), t) ==> v.deep_view().contains(t)
            },
            Err(e) => e is Storage,
        },
{
    let rows = match query_all_desc(conn) {
        Err(e) => {
            return Err(TimerError::Storage(e));
        },
        Ok(rows) => rows,
    };
    let ghost m = frames_of(conn);
    let n = rows.len();
    let mut out: Vec<String> = Vec::new();
    let mut k: usize = 0;
    proof {
        assert(out.deep_view() =~= Seq::<Seq<char>>::empty());
    }
    while k < n
        invariant
            n == rows@.len(),
            k <= n,
            crate::store::rows_from_store(rows@, m),
            sorted_unique(out.deep_view()),
            forall|j: int|
                0 <= j < out.deep_view().len() ==> tag_in_store(m, #[trigger] out.deep_view()[j]),
            forall|j: int, q: int|
                0 <= j < k && (#[trigger] rows@[j])@.tags is Some && 0 <= q < split_commas(
                    rows@[j]@.tags.unwrap(),
                ).len() ==> out.deep_view().contains(
                    #[trigger] split_commas(rows@[j]@.tags.unwrap())[q],
                ),
        decreases n - k,
    {
        proof {
            assert(m.dom().contains(rows@[k as int].id as int));
            assert(m[rows@[k as int].id as int] == rows@[k as int]@);
        }
        let row_tags: Vec<String> = match &rows[k].tags {
            Some(s) => crate::text::split_tags(s.as_str()),
            None => Vec::new(),
        };
        let tn = row_tags.len();
        let mut q: usize = 0;
        proof {
            assert(row_tags.deep_view().len() == tn);
        }
        while q < tn
            invariant
                tn == row_tags@.len(),
                q <= tn,
                row_tags.deep_view().len() == tn,
                n == rows@.len(),
                k < n,
                crate::store::rows_from_store(rows@, m),
                rows@[k as int]@.tags is Some ==> row_tags.deep_view() == split_commas(
                    rows@[k as int]@.tags.unwrap(),
                ),
                rows@[k as int]@.tags is None ==> tn == 0,
                m.dom().contains(rows@[k as int].id as int) && m[rows@[k as int].id as int]
                    == rows@[k as int]@,
                sorted_unique(out.deep_view()),
                forall|j: int|
                    0 <= j < out.deep_view().len() ==> tag_in_store(
                        m,
                        #[trigger] out.deep_view()[j],
                    ),
                forall|j: int, p: int|
                    0 <= j < k && (#[trigger] rows@[j])@.tags is Some && 0 <= p < split_commas(
                        rows@[j]@.tags.unwrap(),
                    ).len() ==> out.deep_view().contains(
                        #[trigger] split_commas(rows@[j]@.tags.unwrap())[p],
                    ),
                forall|p: int|
                    0 <= p < q ==> out.deep_view().contains(#[trigger] row_tags.deep_view()[p]),
            decreases tn - q,
        {
            let t = row_tags[q].clone();
            proof {
                assert(row_tags.deep_view()[q as int] == row_tags@[q as int]@);
                assert(rows@[k as int]@.tags is Some);
                assert(split_commas(rows@[k as int]@.tags.unwrap()).contains(t@)) by {
                    assert(split_commas(rows@[k as int]@.tags.unwrap())[q as int] == t@);
                }
                assert(tag_in_store(m, t@)) by {
                    assert(m.dom().contains(rows@[k as int].id as int));
                }
            }
            let ghost before = out.deep_view();
            insert_unique_sorted(&mut out, t);
            proof {
                assert forall|j: int| 0 <= j < out.deep_view().len() implies tag_in_store(
                    m,
                    #[trigger] out.deep_view()[j],
                ) by {
                    let x = out.deep_view()[j];
                    assert(out.deep_view().contains(x));
                    if before.contains(x) {
                        let jj = choose|jj: int| 0 <= jj < before.len() && before[jj] == x;
                        assert(tag_in_store(m, before[jj]));
                    } else {
                        assert(x == t@);
                    }
                }
            }
            q = q + 1;
        }
        k = k + 1;
    }
    proof {
        assert forall|t: Seq<char>| #[trigger] tag_in_store(m, t) implies out.deep_view().contains(
            t,
        ) by {
            let i = choose|i: int|
                #[trigger] m.dom().contains(i) && m[i].tags is Some && split_commas(
                    m[i].tags.unwrap(),
                ).contains(t);
            let j = choose|j: int| 0 <= j < rows@.len() && (#[trigger] rows@[j]).id as int == i;
            assert(rows@[j]@ == m[i]);
            let p = choose|p: int|
                0 <= p < split_commas(m[i].tags.unwrap()).len() && split_commas(
                    m[i].tags.unwrap(),
                )[p] == t;
            assert(out.deep_view().contains(split_commas(rows@[j]@.tags.unwrap())[p]));
        }
    }
    Ok(out)
}

} // verus!
