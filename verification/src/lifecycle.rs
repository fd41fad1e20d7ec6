//! The frame lifecycle: Idle and Tracking, with at most one open frame in
//! the store at any time. `start`, `stop`, `cancel`, `restart` and the
//! atomic context `switch` each state over the store contents exactly what
//! they change, when they fail, and that the single-open-frame invariant
//! survives them.

use vstd::prelude::*;

use crate::clock::{now_ts, TS_LIMIT};
use crate::errors::TimerError;
use crate::frame::{stored_tags_string, Frame, FrameData};
use crate::store::{
    close_and_insert, closed_at, delete_frame, frames_of, insert_frame, query_last_closed,
    query_open, update_fields,
};
use crate::text::{
    clone_strings, has_no_comma, lemma_split_len, lemma_split_no_sep, split_commas, str_eq,
};

verus! {

/// Row `i` exists and is open.
pub open spec fn is_open_in(m: Map<int, FrameData>, i: int) -> bool {
    m.dom().contains(i) && m[i].end is None
}

/// No row is open: the tracker is idle.
pub open spec fn no_open(m: Map<int, FrameData>) -> bool {
    forall|i: int| #[trigger] m.dom().contains(i) ==> m[i].end is Some
}

/// The store invariant: at most one open row.
pub open spec fn at_most_one_open(m: Map<int, FrameData>) -> bool {
    forall|i: int, j: int| is_open_in(m, i) && is_open_in(m, j) ==> i == j
}

/// Row `id` is the one open row.
pub open spec fn only_open(m: Map<int, FrameData>, id: int) -> bool {
    is_open_in(m, id) && forall|j: int| #[trigger] is_open_in(m, j) ==> j == id
}

/// Whether a row tracks the given source-control context: same project,
/// and the first of its stored tags is the branch.
pub open spec fn ctx_matches(d: FrameData, repo: Seq<char>, branch: Seq<char>) -> bool {
    d.project == repo && match d.tags {
        Some(s) => split_commas(s)[0] == branch,
        None => false,
    }
}

/// Some open row tracks the given context.
pub open spec fn is_tracking_ctx(m: Map<int, FrameData>, repo: Seq<char>, branch: Seq<char>) -> bool {
    exists|i: int| #[trigger] is_open_in(m, i) && ctx_matches(m[i], repo, branch)
}

/// The row a context switch opens.
pub open spec fn switched_data(repo: Seq<char>, branch: Seq<char>, now: int) -> FrameData {
    FrameData { project: repo, start: now, end: None, tags: Some(branch) }
}

/// The row `m` holds closed latest, if any: what `restart` copies.
pub open spec fn is_last_closed(m: Map<int, FrameData>, p: int) -> bool {
    m.dom().contains(p) && m[p].end is Some && forall|j: int|
        #[trigger] m.dom().contains(j) && m[j].end is Some ==> m[j].end.unwrap()
            <= m[p].end.unwrap()
}

/// The open frame, if any: the derived current-tracking state.
pub fn get_current(conn: &rusqlite::Connection) -> (r: Result<Option<Frame>, TimerError>)
    ensures
        match r {
            Ok(Some(f)) => is_open_in(frames_of(conn), f.id as int) && frame_reads(
                frames_of(conn),
                &f,
            ),
            Ok(None) => no_open(frames_of(conn)),
            Err(e) => e is Storage,
        },
{
    match query_open(conn) {
        Err(e) => Err(TimerError::Storage(e)),
        Ok(None) => Ok(None),
        Ok(Some(raw)) => Ok(Some(Frame::from_raw(&raw))),
    }
}

/// `f` is row `f.id` as a caller sees it: same fields, the stored tag
/// column split into the tag list.
pub open spec fn frame_reads(m: Map<int, FrameData>, f: &Frame) -> bool {
    &&& m.dom().contains(f.id as int)
    &&& f.project@ == m[f.id as int].project
    &&& f.start_time as int == m[f.id as int].start
    &&& (match f.end_time {
        Some(t) => Some(t as int),
        None => None,
    }) == m[f.id as int].end
    &&& f.tags.deep_view() == crate::frame::tags_of_stored(m[f.id as int].tags)
}

/// Begin tracking `project` at instant `now`. Fails with `AlreadyTracking`
/// when a frame is open, and then changes nothing; otherwise inserts one
/// new open frame and returns it.
pub fn start_at(conn: &mut rusqlite::Connection, project: &str, tags: &Vec<String>, now: i64) -> (r:
    Result<Frame, TimerError>)
    ensures
        match r {
            Ok(f) => {
                &&& no_open(frames_of(old(conn)))
                &&& !frames_of(old(conn)).dom().contains(f.id as int)
                &&& frames_of(final (conn)) == frames_of(old(conn)).insert(f.id as int, f.data())
                &&& f.project@ == project@
                &&& f.start_time == now
                &&& f.end_time is None
                &&& f.tags.deep_view() == tags.deep_view()
                &&& only_open(frames_of(final (conn)), f.id as int)
            },
            Err(e) => {
                &&& frames_of(final (conn)) == frames_of(old(conn))
                &&& match e {
                    TimerError::AlreadyTracking => !no_open(frames_of(old(conn))),
                    TimerError::Storage(_) => true,
                    _ => false,
                }
            },
        },
        at_most_one_open(frames_of(old(conn))) ==> at_most_one_open(frames_of(final (conn))),
{
    let open = match query_open(conn) {
        Err(e) => {
            return Err(TimerError::Storage(e));
        },
        Ok(o) => o,
    };
    if open.is_some() {
        return Err(TimerError::AlreadyTracking);
    }
    let tags_str = stored_tags_string(tags);
    let tags_ref: Option<&str> = match &tags_str {
        Some(s) => Some(s.as_str()),
        None => None,
    };
    match insert_frame(conn, project, now, tags_ref) {
        Err(e) => Err(TimerError::Storage(e)),
        Ok(id) => {
            let f = Frame {
                id,
                project: project.to_owned(),
                start_time: now,
                end_time: None,
                tags: clone_strings(tags),
            };
            proof {
                let m = frames_of(old(conn));
                let m1 = frames_of(final (conn));
                assert(m1 == m.insert(id as int, f.data()));
                assert forall|j: int| #[trigger] is_open_in(m1, j) implies j == id as int by {
                    if j != id as int {
                        assert(m.dom().contains(j));
                        assert(m[j].end is Some);
                    }
                }
            }
            Ok(f)
        },
    }
}

/// Begin tracking now.
pub fn start(conn: &mut rusqlite::Connection, project: &str, tags: &Vec<String>) -> (r: Result<
    Frame,
    TimerError,
>)
    ensures
        match r {
            Ok(f) => {
                &&& no_open(frames_of(old(conn)))
                &&& !frames_of(old(conn)).dom().contains(f.id as int)
                &&& frames_of(final (conn)) == frames_of(old(conn)).insert(f.id as int, f.data())
                &&& f.project@ == project@
                &&& f.end_time is None
                &&& f.tags.deep_view() == tags.deep_view()
                &&& only_open(frames_of(final (conn)), f.id as int)
                &&& -TS_LIMIT < f.start_time < TS_LIMIT
            },
            Err(e) => {
                &&& frames_of(final (conn)) == frames_of(old(conn))
                &&& match e {
                    TimerError::AlreadyTracking => !no_open(frames_of(old(conn))),
                    TimerError::Storage(_) => true,
                    _ => false,
                }
            },
        },
        at_most_one_open(frames_of(old(conn))) ==> at_most_one_open(frames_of(final (conn))),
{
    let now = now_ts();
    start_at(conn, project, tags, now)
}

/// Close the open frame at instant `now`. Fails with `NotTracking` when
/// none is open, and then changes nothing; otherwise sets the end time and
/// returns the frame as it stood just before closing.
pub fn stop_at(conn: &mut rusqlite::Connection, now: i64) -> (r: Result<Frame, TimerError>)
    ensures
        match r {
            Ok(f) => {
                &&& is_open_in(frames_of(old(conn)), f.id as int)
                &&& frame_reads(frames_of(old(conn)), &f)
                &&& f.end_time is None
                &&& frames_of(final (conn)) == frames_of(old(conn)).insert(
                    f.id as int,
                    closed_at(frames_of(old(conn)), f.id as int, now as int),
                )
                &&& (at_most_one_open(frames_of(old(conn))) ==> no_open(frames_of(final (conn))))
            },
            Err(e) => {
                &&& frames_of(final (conn)) == frames_of(old(conn))
                &&& match e {
                    TimerError::NotTracking => no_open(frames_of(old(conn))),
                    TimerError::Storage(_) => true,
                    _ => false,
                }
            },
        },
        at_most_one_open(frames_of(old(conn))) ==> at_most_one_open(frames_of(final (conn))),
{
    let raw = match query_open(conn) {
        Err(e) => {
            return Err(TimerError::Storage(e));
        },
        Ok(None) => {
            return Err(TimerError::NotTracking);
        },
        Ok(Some(raw)) => raw,
    };
    let f = Frame::from_raw(&raw);
    match update_fields(conn, f.id, None, false, None, None, Some(now)) {
        Err(e) => Err(TimerError::Storage(e)),
        Ok(_) => {
            proof {
                let m = frames_of(old(conn));
                let m1 = frames_of(final (conn));
                assert(m1 == m.insert(f.id as int, closed_at(m, f.id as int, now as int)));
                if at_most_one_open(m) {
                    assert forall|j: int| #[trigger] m1.dom().contains(j) implies m1[j].end
                        is Some by {
                        if j != f.id as int {
                            assert(m.dom().contains(j));
                            if m[j].end is None {
                                assert(is_open_in(m, j) && is_open_in(m, f.id as int));
                            }
                        }
                    }
                }
                assert forall|i: int, j: int|
                    is_open_in(m1, i) && is_open_in(m1, j) && at_most_one_open(m) implies i
                    == j by {
                    assert(is_open_in(m, i) && is_open_in(m, j));
                }
            }
            Ok(f)
        },
    }
}

/// Close the open frame now.
pub fn stop(conn: &mut rusqlite::Connection) -> (r: Result<Frame, TimerError>)
    ensures
        match r {
            Ok(f) => {
                &&& is_open_in(frames_of(old(conn)), f.id as int)
                &&& frame_reads(frames_of(old(conn)), &f)
                &&& f.end_time is None
                &&& (exists|e: int|
                    -TS_LIMIT < e < TS_LIMIT && frames_of(final (conn)) == frames_of(
                        old(conn),
                    ).insert(f.id as int, #[trigger] closed_at(frames_of(old(conn)), f.id as int, e)))
                &&& (at_most_one_open(frames_of(old(conn))) ==> no_open(frames_of(final (conn))))
            },
            Err(e) => {
                &&& frames_of(final (conn)) == frames_of(old(conn))
                &&& match e {
                    TimerError::NotTracking => no_open(frames_of(old(conn))),
                    TimerError::Storage(_) => true,
                    _ => false,
                }
            },
        },
        at_most_one_open(frames_of(old(conn))) ==> at_most_one_open(frames_of(final (conn))),
{
    let now = now_ts();
    let r = stop_at(conn, now);
    proof {
        if r is Ok {
            let f = r->Ok_0;
            assert(frames_of(final (conn)) == frames_of(old(conn)).insert(
                f.id as int,
                closed_at(frames_of(old(conn)), f.id as int, now as int),
            ));
        }
    }
    r
}

/// Delete the open frame outright, leaving no closed record. Fails with
/// `NotTracking` when none is open, and then changes nothing.
pub fn cancel(conn: &mut rusqlite::Connection) -> (r: Result<Frame, TimerError>)
    ensures
        match r {
            Ok(f) => {
                &&& is_open_in(frames_of(old(conn)), f.id as int)
                &&& frame_reads(frames_of(old(conn)), &f)
                &&& frames_of(final (conn)) == frames_of(old(conn)).remove(f.id as int)
                &&& (at_most_one_open(frames_of(old(conn))) ==> no_open(frames_of(final (conn))))
            },
            Err(e) => {
                &&& frames_of(final (conn)) == frames_of(old(conn))
                &&& match e {
                    TimerError::NotTracking => no_open(frames_of(old(conn))),
                    TimerError::Storage(_) => true,
                    _ => false,
                }
            },
        },
        at_most_one_open(frames_of(old(conn))) ==> at_most_one_open(frames_of(final (conn))),
{
    let raw = match query_open(conn) {
        Err(e) => {
            return Err(TimerError::Storage(e));
        },
        Ok(None) => {
            return Err(TimerError::NotTracking);
        },
        Ok(Some(raw)) => raw,
    };
    let f = Frame::from_raw(&raw);
    match delete_frame(conn, f.id) {
        Err(e) => Err(TimerError::Storage(e)),
        Ok(_) => {
            proof {
                let m = frames_of(old(conn));
                let m1 = frames_of(final (conn));
                if at_most_one_open(m) {
                    assert forall|j: int| #[trigger] m1.dom().contains(j) implies m1[j].end
                        is Some by {
                        assert(m.dom().contains(j));
                        if m[j].end is None {
                            assert(is_open_in(m, j) && is_open_in(m, f.id as int));
                        }
                    }
                }
                assert forall|i: int, j: int|
                    is_open_in(m1, i) && is_open_in(m1, j) && at_most_one_open(m) implies i
                    == j by {
                    assert(is_open_in(m, i) && is_open_in(m, j));
                }
            }
            Ok(f)
        },
    }
}

/// Start a new frame copying the most recently closed one. Fails with
/// `AlreadyTracking` while tracking and `NoPreviousFrame` on a store with
/// no closed frame; either way nothing changes.
pub fn restart_at(conn: &mut rusqlite::Connection, now: i64) -> (r: Result<Frame, TimerError>)
    ensures
        match r {
            Ok(f) => {
                &&& no_open(frames_of(old(conn)))
                &&& !frames_of(old(conn)).dom().contains(f.id as int)
                &&& (exists|p: int|
                    #[trigger] is_last_closed(frames_of(old(conn)), p) && frames_of(old(conn))[p]
                        .project == f.project@ && crate::frame::tags_of_stored(
                        frames_of(old(conn))[p].tags,
                    ) == f.tags.deep_view())
                &&& frames_of(final (conn)) == frames_of(old(conn)).insert(f.id as int, f.data())
                &&& f.start_time == now
                &&& f.end_time is None
                &&& only_open(frames_of(final (conn)), f.id as int)
            },
            Err(e) => {
                &&& frames_of(final (conn)) == frames_of(old(conn))
                &&& match e {
                    TimerError::AlreadyTracking => !no_open(frames_of(old(conn))),
                    TimerError::NoPreviousFrame => frames_of(old(conn)).dom() =~= Set::<
                        int,
                    >::empty(),
                    TimerError::Storage(_) => true,
                    _ => false,
                }
            },
        },
        at_most_one_open(frames_of(old(conn))) ==> at_most_one_open(frames_of(final (conn))),
{
    let open = match query_open(conn) {
        Err(e) => {
            return Err(TimerError::Storage(e));
        },
        Ok(o) => o,
    };
    if open.is_some() {
        return Err(TimerError::AlreadyTracking);
    }
    let last = match query_last_closed(conn) {
        Err(e) => {
            return Err(TimerError::Storage(e));
        },
        Ok(None) => {
            proof {
                let m = frames_of(old(conn));
                assert forall|i: int| !(#[trigger] m.dom().contains(i)) by {
                    if m.dom().contains(i) {
                        assert(m[i].end is Some);
                        assert(m[i].end is None);
                    }
                }
            }
            return Err(TimerError::NoPreviousFrame);
        },
        Ok(Some(last)) => last,
    };
    let prev = Frame::from_raw(&last);
    let r = start_at(conn, prev.project.as_str(), &prev.tags, now);
    proof {
        if r is Ok {
            let m = frames_of(old(conn));
            assert(is_last_closed(m, prev.id as int));
        }
    }
    r
}

/// What a context switch did.
#[derive(Debug)]
pub enum SwitchOutcome {
    /// No source-control context was available: a silent no-op.
    NoContext,
    /// The open frame already tracks this context: a no-op.
    AlreadyOn,
    /// The open frame, if any, was closed, and a new one opened, both in
    /// one transaction.
    Switched { stopped: Option<Frame>, started: Frame },
}

/// Sync tracking to a source-control context at instant `now`: unless the
/// open frame already tracks `(repo, branch)`, close it (if any) and open
/// a frame for `repo` tagged `branch`, atomically. On any failure the
/// store keeps its prior rows.
pub fn switch_at(conn: &mut rusqlite::Connection, repo: &str, branch: &str, now: i64) -> (r: Result<
    SwitchOutcome,
    TimerError,
>)
    ensures
        match r {
            Ok(o) => match o {
                SwitchOutcome::NoContext => false,
                SwitchOutcome::AlreadyOn => frames_of(final (conn)) == frames_of(old(conn))
                    && is_tracking_ctx(frames_of(old(conn)), repo@, branch@),
                SwitchOutcome::Switched { stopped, started } => {
                    &&& !frames_of(old(conn)).dom().contains(started.id as int)
                    &&& started.project@ == repo@
                    &&& started.start_time == now
                    &&& started.end_time is None
                    &&& started.data() == switched_data(repo@, branch@, now as int)
                    &&& match stopped {
                        None => no_open(frames_of(old(conn))) && frames_of(final (conn))
                            == frames_of(old(conn)).insert(
                            started.id as int,
                            switched_data(repo@, branch@, now as int),
                        ),
                        Some(g) => is_open_in(frames_of(old(conn)), g.id as int) && frame_reads(
                            frames_of(old(conn)),
                            &g,
                        ) && !ctx_matches(frames_of(old(conn))[g.id as int], repo@, branch@)
                            && started.id != g.id && frames_of(final (conn)) == frames_of(
                            old(conn),
                        ).insert(
                            g.id as int,
                            closed_at(frames_of(old(conn)), g.id as int, now as int),
                        ).insert(started.id as int, switched_data(repo@, branch@, now as int)),
                    }
                    &&& (at_most_one_open(frames_of(old(conn))) ==> only_open(
                        frames_of(final (conn)),
                        started.id as int,
                    ))
                },
            },
            Err(e) => frames_of(final (conn)) == frames_of(old(conn)) && e is Storage,
        },
        at_most_one_open(frames_of(old(conn))) && is_tracking_ctx(
            frames_of(old(conn)),
            repo@,
            branch@,
        ) ==> frames_of(final (conn)) == frames_of(old(conn)) && (match r {
            Ok(o) => o is AlreadyOn,
            Err(_) => true,
        }),
        at_most_one_open(frames_of(old(conn))) ==> at_most_one_open(frames_of(final (conn))),
{
    let cur = match query_open(conn) {
        Err(e) => {
            return Err(TimerError::Storage(e));
        },
        Ok(o) => o,
    };
    match cur {
        Some(raw) => {
            let f = Frame::from_raw(&raw);
            let ghost m = frames_of(old(conn));
            let mut same = str_eq(f.project.as_str(), repo);
            if same {
                if f.tags.len() > 0 {
                    same = str_eq(f.tags[0].as_str(), branch);
                } else {
                    same = false;
                }
            }
            proof {
                assert(f.tags.deep_view().len() == f.tags@.len());
                match m[f.id as int].tags {
                    Some(s) => {
                        lemma_split_len(s, ',');
                        assert(f.tags.deep_view()[0] == f.tags@[0]@);
                    },
                    None => {},
                }
                assert(same == ctx_matches(m[f.id as int], repo@, branch@));
            }
            if same {
                return Ok(SwitchOutcome::AlreadyOn);
            }
            proof {
                if at_most_one_open(m) && is_tracking_ctx(m, repo@, branch@) {
                    let i = choose|i: int| is_open_in(m, i) && ctx_matches(m[i], repo@, branch@);
                    assert(is_open_in(m, i) && is_open_in(m, f.id as int));
                }
            }
            match close_and_insert(conn, f.id, now, repo, now, Some(branch)) {
                Err(e) => Err(TimerError::Storage(e)),
                Ok(id) => {
                    let started = Frame {
                        id,
                        project: repo.to_owned(),
                        start_time: now,
                        end_time: None,
                        tags: vec![branch.to_owned()],
                    };
                    proof {
                        assert(started.tags.deep_view() =~= seq![branch@]);
                        assert(started.data() == switched_data(repo@, branch@, now as int));
                        let m1 = frames_of(final (conn));
                        if at_most_one_open(m) {
                            assert forall|j: int| #[trigger] is_open_in(m1, j) implies j
                                == id as int by {
                                if j != id as int && j != f.id as int {
                                    assert(is_open_in(m, j) && is_open_in(m, f.id as int));
                                }
                            }
                        }
                    }
                    Ok(SwitchOutcome::Switched { stopped: Some(f), started })
                },
            }
        },
        None => {
            proof {
                let m = frames_of(old(conn));
                if is_tracking_ctx(m, repo@, branch@) {
                    let i = choose|i: int| is_open_in(m, i) && ctx_matches(m[i], repo@, branch@);
                    assert(m.dom().contains(i));
                }
            }
            match insert_frame(conn, repo, now, Some(branch)) {
                Err(e) => Err(TimerError::Storage(e)),
                Ok(id) => {
                    let started = Frame {
                        id,
                        project: repo.to_owned(),
                        start_time: now,
                        end_time: None,
                        tags: vec![branch.to_owned()],
                    };
                    proof {
                        assert(started.tags.deep_view() =~= seq![branch@]);
                        assert(started.data() == switched_data(repo@, branch@, now as int));
                        let m = frames_of(old(conn));
                        let m1 = frames_of(final (conn));
                        assert forall|j: int| #[trigger] is_open_in(m1, j) implies j
                            == id as int by {
                            if j != id as int {
                                assert(m.dom().contains(j));
                                assert(m[j].end is Some);
                            }
                        }
                    }
                    Ok(SwitchOutcome::Switched { stopped: None, started })
                },
            }
        },
    }
}

/// Sync tracking to a source-control context, now. No context at all is a
/// defined no-op, not an error.
pub fn switch(conn: &mut rusqlite::Connection, ctx: Option<(String, String)>) -> (r: Result<
    SwitchOutcome,
    TimerError,
>)
    ensures
        ctx is None ==> frames_of(final (conn)) == frames_of(old(conn)) && (match r {
            Ok(o) => o is NoContext,
            Err(_) => false,
        }),
        match r {
            Ok(o) => match o {
                SwitchOutcome::NoContext => ctx is None,
                SwitchOutcome::AlreadyOn => frames_of(final (conn)) == frames_of(old(conn))
                    && ctx is Some && is_tracking_ctx(
                    frames_of(old(conn)),
                    ctx.unwrap().0@,
                    ctx.unwrap().1@,
                ),
                SwitchOutcome::Switched { stopped, started } => {
                    &&& ctx is Some
                    &&& !frames_of(old(conn)).dom().contains(started.id as int)
                    &&& started.project@ == ctx.unwrap().0@
                    &&& started.end_time is None
                    &&& started.data() == switched_data(
                        ctx.unwrap().0@,
                        ctx.unwrap().1@,
                        started.start_time as int,
                    )
                    &&& match stopped {
                        None => no_open(frames_of(old(conn))) && frames_of(final (conn))
                            == frames_of(old(conn)).insert(started.id as int, started.data()),
                        Some(g) => is_open_in(frames_of(old(conn)), g.id as int) && frame_reads(
                            frames_of(old(conn)),
                            &g,
                        ) && !ctx_matches(
                            frames_of(old(conn))[g.id as int],
                            ctx.unwrap().0@,
                            ctx.unwrap().1@,
                        ) && started.id != g.id && frames_of(final (conn)) == frames_of(
                            old(conn),
                        ).insert(
                            g.id as int,
                            closed_at(
                                frames_of(old(conn)),
                                g.id as int,
                                started.start_time as int,
                            ),
                        ).insert(started.id as int, started.data()),
                    }
                    &&& (at_most_one_open(frames_of(old(conn))) ==> only_open(
                        frames_of(final (conn)),
                        started.id as int,
                    ))
                },
            },
            Err(_) => frames_of(final (conn)) == frames_of(old(conn)),
        },
        at_most_one_open(frames_of(old(conn))) && ctx is Some && is_tracking_ctx(
            frames_of(old(conn)),
            ctx.unwrap().0@,
            ctx.unwrap().1@,
        ) ==> frames_of(final (conn)) == frames_of(old(conn)) && (match r {
            Ok(o) => o is AlreadyOn,
            Err(_) => true,
        }),
        at_most_one_open(frames_of(old(conn))) ==> at_most_one_open(frames_of(final (conn))),
{
    match ctx {
        None => Ok(SwitchOutcome::NoContext),
        Some((repo, branch)) => switch_at(conn, repo.as_str(), branch.as_str(), now_ts()),
    }
}

/// Law: an empty store holds at most one open frame, and every operation
/// here promises to keep that so. Together with those promises, induction
/// over any sequence of calls gives the invariant at every observable
/// point.
pub proof fn lemma_single_open_from_empty()
    ensures
        at_most_one_open(Map::<int, FrameData>::empty()),
        no_open(Map::<int, FrameData>::empty()),
{
}

/// Law: a successful switch leaves the store tracking exactly the context
/// it was given, provided the branch name holds no comma: the tag column
/// stores the tag list comma-joined, so a comma inside the branch would
/// split apart on the next read.
pub proof fn lemma_switch_establishes_ctx(repo: Seq<char>, branch: Seq<char>, now: int)
    requires
        has_no_comma(branch),
    ensures
        ctx_matches(switched_data(repo, branch, now), repo, branch),
{
    lemma_split_no_sep(branch, ',');
}

/// Law: a second switch with the same context is a no-op. After a switch
/// opened `id` for `(repo, branch)` and left it the only open row, the
/// store is tracking that context and still holds at most one open row;
/// `switch_at` then promises to change nothing and to report `AlreadyOn`.
pub proof fn lemma_switch_idempotent(
    m1: Map<int, FrameData>,
    id: int,
    repo: Seq<char>,
    branch: Seq<char>,
    now: int,
)
    requires
        only_open(m1, id),
        m1[id] == switched_data(repo, branch, now),
        has_no_comma(branch),
    ensures
        is_tracking_ctx(m1, repo, branch),
        at_most_one_open(m1),
{
    lemma_switch_establishes_ctx(repo, branch, now);
    assert(is_open_in(m1, id) && ctx_matches(m1[id], repo, branch));
}

/// Start a new frame copying the most recently closed one, now.
pub fn restart(conn: &mut rusqlite::Connection) -> (r: Result<Frame, TimerError>)
    ensures
        match r {
            Ok(f) => {
                &&& no_open(frames_of(old(conn)))
                &&& (exists|p: int|
                    #[trigger] is_last_closed(frames_of(old(conn)), p) && frames_of(old(conn))[p]
                        .project == f.project@ && crate::frame::tags_of_stored(
                        frames_of(old(conn))[p].tags,
                    ) == f.tags.deep_view())
                &&& frames_of(final (conn)) == frames_of(old(conn)).insert(f.id as int, f.data())
                &&& f.end_time is None
                &&& only_open(frames_of(final (conn)), f.id as int)
            },
            Err(e) => {
                &&& frames_of(final (conn)) == frames_of(old(conn))
                &&& match e {
                    TimerError::AlreadyTracking => !no_open(frames_of(old(conn))),
                    TimerError::NoPreviousFrame => frames_of(old(conn)).dom() =~= Set::<
                        int,
                    >::empty(),
                    TimerError::Storage(_) => true,
                    _ => false,
                }
            },
        },
        at_most_one_open(frames_of(old(conn))) ==> at_most_one_open(frames_of(final (conn))),
{
    let now = now_ts();
    restart_at(conn, now)
}

} // verus!
