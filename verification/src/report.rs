//! Aggregation: total durations grouped by project or by tag, ordered by
//! total descending. A frame with several tags charges its full duration
//! to every one of them; a frame with none is charged to the synthetic
//! `(untagged)` bucket. Sums saturate at the `i64` range.

use vstd::prelude::*;

use crate::frame::{clamp_i64, duration_of, Frame};
use crate::text::str_eq;

verus! {

/// The duration one frame contributes, measured at `now`.
pub open spec fn frame_dur(f: Frame, now: int) -> int {
    clamp_i64(duration_of(f.data(), now))
}

pub open spec fn sat_add_spec(a: int, b: int) -> int {
    clamp_i64(a + b)
}

/// `a + b`, held within the `i64` range.
pub fn sat_add(a: i64, b: i64) -> (r: i64)
    ensures
        r as int == sat_add_spec(a as int, b as int),
{
    let s = a as i128 + b as i128;
    if s > i64::MAX as i128 {
        i64::MAX
    } else if s < i64::MIN as i128 {
        i64::MIN
    } else {
        s as i64
    }
}

/// The summed duration of the frames of project `p`, in listing order.
pub open spec fn project_total(frames: Seq<Frame>, p: Seq<char>, now: int) -> int
    decreases frames.len(),
{
    if frames.len() == 0 {
        0
    } else {
        let rest = project_total(frames.drop_last(), p, now);
        if frames.last().project@ == p {
            sat_add_spec(rest, frame_dur(frames.last(), now))
        } else {
            rest
        }
    }
}

/// The summed duration of every listed frame.
pub open spec fn total_duration_spec(frames: Seq<Frame>, now: int) -> int
    decreases frames.len(),
{
    if frames.len() == 0 {
        0
    } else {
        sat_add_spec(
            total_duration_spec(frames.drop_last(), now),
            frame_dur(frames.last(), now),
        )
    }
}

/// A bucket under this key exists.
pub open spec fn has_key(v: Seq<(String, i64)>, key: Seq<char>) -> bool {
    exists|k: int| 0 <= k < v.len() && (#[trigger] v[k]).0@ == key
}

/// Some listed frame carries this project.
pub open spec fn key_from_listing(frames: Seq<Frame>, key: Seq<char>) -> bool {
    exists|j: int| 0 <= j < frames.len() && (#[trigger] frames[j]).project@ == key
}

/// No two buckets share a key.
pub open spec fn keys_distinct(v: Seq<(String, i64)>) -> bool {
    forall|k: int, l: int|
        0 <= k < l < v.len() ==> (#[trigger] v[k]).0@ != (#[trigger] v[l]).0@
}

/// Frames of a project absent from the listing sum to nothing.
proof fn lemma_project_total_absent(frames: Seq<Frame>, p: Seq<char>, now: int)
    requires
        forall|j: int| 0 <= j < frames.len() ==> (#[trigger] frames[j]).project@ != p,
    ensures
        project_total(frames, p, now) == 0,
    decreases frames.len(),
{
    if frames.len() > 0 {
        assert(forall|j: int|
            0 <= j < frames.len() - 1 ==> (#[trigger] frames.drop_last()[j]).project@ != p);
        lemma_project_total_absent(frames.drop_last(), p, now);
    }
}

/// One bucket per project, in order of first appearance, each holding the
/// project's total duration at `now`.
pub fn totals_by_project(frames: &Vec<Frame>, now: i64) -> (r: Vec<(String, i64)>)
    ensures
        keys_distinct(r@),
        forall|k: int|
            0 <= k < r@.len() ==> (#[trigger] r@[k]).1 as int == project_total(
                frames@,
                r@[k].0@,
                now as int,
            ),
        forall|j: int| 0 <= j < frames@.len() ==> has_key(r@, (#[trigger] frames@[j]).project@),
        forall|k: int| 0 <= k < r@.len() ==> key_from_listing(frames@, (#[trigger] r@[k]).0@),
{
    let n = frames.len();
    let mut out: Vec<(String, i64)> = Vec::new();
    let mut i: usize = 0;
    while i < n
        invariant
            n == frames@.len(),
            i <= n,
            keys_distinct(out@),
            forall|k: int|
                0 <= k < out@.len() ==> (#[trigger] out@[k]).1 as int == project_total(
                    frames@.take(i as int),
                    out@[k].0@,
                    now as int,
                ),
            forall|j: int| 0 <= j < i ==> has_key(out@, (#[trigger] frames@[j]).project@),
            forall|k: int|
                0 <= k < out@.len() ==> key_from_listing(frames@, (#[trigger] out@[k]).0@),
        decreases n - i,
    {
        let d = frames[i].duration_at(now);
        let ghost prev = frames@.take(i as int);
        let ghost cur = frames@.take(i + 1);
        proof {
            assert(cur.drop_last() =~= prev);
            assert(cur.last() == frames@[i as int]);
        }
        let m = out.len();
        let mut k: usize = 0;
        let mut found = false;
        while k < m && !found
            invariant
                m == out@.len(),
                k <= m,
                forall|kk: int| 0 <= kk < k ==> (#[trigger] out@[kk]).0@ != frames@[i as int].project@,
                found ==> k < m && out@[k as int].0@ == frames@[i as int].project@,
                i < n,
                n == frames@.len(),
            decreases m - k, (if found {
                0int
            } else {
                1int
            }),
        {
            if str_eq(out[k].0.as_str(), frames[i].project.as_str()) {
                found = true;
            } else {
                k = k + 1;
            }
        }
        if found {
            let ghost old_out = out@;
            let total = sat_add(out[k].1, d);
            let key = out[k].0.clone();
            out[k] = (key, total);
            proof {
                assert(out@ =~= old_out.update(k as int, (out@[k as int].0, total)));
                assert(out@[k as int].0@ == old_out[k as int].0@);
                assert forall|kk: int| 0 <= kk < out@.len() implies (#[trigger] out@[kk]).1 as int
                    == project_total(cur, out@[kk].0@, now as int) by {
                    if kk == k as int {
                        assert(frames@[i as int].project@ == out@[kk].0@);
                    } else {
                        assert(out@[kk] == old_out[kk]);
                        assert(frames@[i as int].project@ != out@[kk].0@);
                    }
                }
                assert forall|j: int| 0 <= j < i + 1 implies has_key(
                    out@,
                    (#[trigger] frames@[j]).project@,
                ) by {
                    if j < i {
                        let kk = choose|kk: int|
                            0 <= kk < old_out.len() && (#[trigger] old_out[kk]).0@
                                == frames@[j].project@;
                        assert(out@[kk].0@ == frames@[j].project@);
                    } else {
                        assert(out@[k as int].0@ == frames@[j].project@);
                    }
                }
            }
        } else {
            proof {
                assert forall|j: int|
                    0 <= j < prev.len() implies (#[trigger] prev[j]).project@ != frames@[i as int].project@ by {
                    if prev[j].project@ == frames@[i as int].project@ {
                        assert(has_key(out@, frames@[j].project@));
                        let kk = choose|kk: int|
                            0 <= kk < out@.len() && (#[trigger] out@[kk]).0@
                                == frames@[j].project@;
                    }
                }
                lemma_project_total_absent(prev, frames@[i as int].project@, now as int);
            }
            let ghost old_out = out@;
            let key = frames[i].project.clone();
            out.push((key, d));
            proof {
                assert(out@ =~= old_out.push((out@[out@.len() - 1].0, d)));
                assert(out@[out@.len() - 1].0@ == frames@[i as int].project@);
                assert(key_from_listing(frames@, out@[out@.len() - 1].0@)) by {
                    assert(frames@[i as int].project@ == out@[out@.len() - 1].0@);
                }
                assert(clamp_i64(0 + frame_dur(frames@[i as int], now as int)) == d as int);
                assert forall|kk: int| 0 <= kk < out@.len() implies (#[trigger] out@[kk]).1 as int
                    == project_total(cur, out@[kk].0@, now as int) by {
                    if kk < out@.len() - 1 {
                        assert(out@[kk] == old_out[kk]);
                        assert(frames@[i as int].project@ != out@[kk].0@);
                    }
                }
                assert forall|j: int| 0 <= j < i + 1 implies has_key(
                    out@,
                    (#[trigger] frames@[j]).project@,
                ) by {
                    if j < i {
                        let kk = choose|kk: int|
                            0 <= kk < old_out.len() && (#[trigger] old_out[kk]).0@
                                == frames@[j].project@;
                        assert(out@[kk].0@ == frames@[j].project@);
                    } else {
                        assert(out@[out@.len() - 1].0@ == frames@[j].project@);
                    }
                }
            }
        }
        i = i + 1;
    }
    proof {
        assert(frames@.take(n as int) =~= frames@);
    }
    out
}

/// Add `d` to the bucket under `key`, creating it with `d` when absent.
fn charge_bucket(out: &mut Vec<(String, i64)>, key: &str, d: i64)
    requires
        keys_distinct(old(out)@),
    ensures
        keys_distinct(final (out)@),
        has_key(final (out)@, key@),
        has_key(old(out)@, key@) ==> final (out)@.len() == old(out)@.len() && forall|kk: int|
            0 <= kk < old(out)@.len() ==> (#[trigger] final (out)@[kk]).0@ == old(out)@[kk].0@
                && final (out)@[kk].1 as int == (if old(out)@[kk].0@ == key@ {
                sat_add_spec(old(out)@[kk].1 as int, d as int)
            } else {
                old(out)@[kk].1 as int
            }),
        !has_key(old(out)@, key@) ==> final (out)@.len() == old(out)@.len() + 1 && (forall|
            kk: int,
        |
            0 <= kk < old(out)@.len() ==> (#[trigger] final (out)@[kk]) == old(out)@[kk]) && final (
        out)@.last().0@ == key@ && final (out)@.last().1 == d,
{
    let m = out.len();
    let mut k: usize = 0;
    let mut found = false;
    while k < m && !found
        invariant
            m == out@.len(),
            k <= m,
            forall|kk: int| 0 <= kk < k ==> (#[trigger] out@[kk]).0@ != key@,
            found ==> k < m && out@[k as int].0@ == key@,
        decreases m - k, (if found {
            0int
        } else {
            1int
        }),
    {
        if str_eq(out[k].0.as_str(), key) {
            found = true;
        } else {
            k = k + 1;
        }
    }
    if found {
        let ghost old_out = out@;
        let total = sat_add(out[k].1, d);
        let kept = out[k].0.clone();
        out[k] = (kept, total);
        proof {
            assert(out@ =~= old_out.update(k as int, (out@[k as int].0, total)));
            assert(out@[k as int].0@ == old_out[k as int].0@);
            assert(has_key(old_out, key@)) by {
                assert(old_out[k as int].0@ == key@);
            }
            assert(has_key(out@, key@)) by {
                assert(out@[k as int].0@ == key@);
            }
            assert forall|kk: int| 0 <= kk < old_out.len() implies (#[trigger] out@[kk]).0@
                == old_out[kk].0@ && out@[kk].1 as int == (if old_out[kk].0@ == key@ {
                sat_add_spec(old_out[kk].1 as int, d as int)
            } else {
                old_out[kk].1 as int
            }) by {
                if kk != k as int {
                    assert(out@[kk] == old_out[kk]);
                    assert(old_out[kk].0@ != key@);
                }
            }
        }
    } else {
        proof {
            assert(!has_key(out@, key@)) by {
                if has_key(out@, key@) {
                    let kk = choose|kk: int|
                        0 <= kk < out@.len() && (#[trigger] out@[kk]).0@ == key@;
                }
            }
        }
        let ghost old_out = out@;
        out.push((key.to_owned(), d));
        proof {
            assert(out@.len() == old_out.len() + 1);
            assert(out@.last().0@ == key@);
            assert(has_key(out@, key@)) by {
                assert(out@[out@.len() - 1].0@ == key@);
            }
            assert forall|kk: int| 0 <= kk < old_out.len() implies (#[trigger] out@[kk])
                == old_out[kk] by {}
            assert forall|kk: int, ll: int|
                0 <= kk < ll < out@.len() implies (#[trigger] out@[kk]).0@ != (
            #[trigger] out@[ll]).0@ by {
                if ll == out@.len() - 1 {
                    assert(out@[kk] == old_out[kk]);
                    assert(old_out[kk].0@ != key@);
                } else {
                    assert(out@[kk] == old_out[kk] && out@[ll] == old_out[ll]);
                }
            }
        }
    }
}

/// The bucket frames without tags are charged to.
pub open spec fn untagged_key() -> Seq<char> {
    "(untagged)"@
}

/// `acc` grown by `d` once for every occurrence of `t` in the tag list.
pub open spec fn charge_tags(acc: int, tags: Seq<Seq<char>>, t: Seq<char>, d: int) -> int
    decreases tags.len(),
{
    if tags.len() == 0 {
        acc
    } else {
        let a2 = charge_tags(acc, tags.drop_last(), t, d);
        if tags.last() == t {
            sat_add_spec(a2, d)
        } else {
            a2
        }
    }
}

/// What one frame adds to bucket `t`: its full duration once per matching
/// tag, its full duration to the untagged bucket when it has no tags.
pub open spec fn frame_tag_charge(acc: int, f: Frame, t: Seq<char>, now: int) -> int {
    if f.tags.deep_view().len() == 0 {
        if t == untagged_key() {
            sat_add_spec(acc, frame_dur(f, now))
        } else {
            acc
        }
    } else {
        charge_tags(acc, f.tags.deep_view(), t, frame_dur(f, now))
    }
}

/// The summed charge of bucket `t` over the listed frames, in order.
pub open spec fn tag_total(frames: Seq<Frame>, t: Seq<char>, now: int) -> int
    decreases frames.len(),
{
    if frames.len() == 0 {
        0
    } else {
        frame_tag_charge(tag_total(frames.drop_last(), t, now), frames.last(), t, now)
    }
}

/// Some listed frame carries this tag, or carries none at all while this
/// is the untagged bucket.
pub open spec fn tag_from_listing(frames: Seq<Frame>, t: Seq<char>) -> bool {
    exists|j: int|
        0 <= j < frames.len() && ((#[trigger] frames[j]).tags.deep_view().contains(t) || (
        frames[j].tags.deep_view().len() == 0 && t == untagged_key()))
}

proof fn lemma_charge_tags_absent(acc: int, tags: Seq<Seq<char>>, t: Seq<char>, d: int)
    requires
        forall|p: int| 0 <= p < tags.len() ==> (#[trigger] tags[p]) != t,
    ensures
        charge_tags(acc, tags, t, d) == acc,
    decreases tags.len(),
{
    if tags.len() > 0 {
        assert(forall|p: int|
            0 <= p < tags.len() - 1 ==> (#[trigger] tags.drop_last()[p]) != t);
        lemma_charge_tags_absent(acc, tags.drop_last(), t, d);
    }
}

proof fn lemma_tag_total_absent(frames: Seq<Frame>, t: Seq<char>, now: int)
    requires
        forall|j: int|
            0 <= j < frames.len() ==> !(#[trigger] frames[j]).tags.deep_view().contains(t) && !(
            frames[j].tags.deep_view().len() == 0 && t == untagged_key()),
    ensures
        tag_total(frames, t, now) == 0,
    decreases frames.len(),
{
    if frames.len() > 0 {
        assert(forall|j: int|
            0 <= j < frames.len() - 1 ==> !(#[trigger] frames.drop_last()[j]).tags.deep_view().contains(
                t,
            ) && !(frames.drop_last()[j].tags.deep_view().len() == 0 && t == untagged_key()));
        lemma_tag_total_absent(frames.drop_last(), t, now);
        let f = frames.last();
        if f.tags.deep_view().len() > 0 {
            assert forall|p: int|
                0 <= p < f.tags.deep_view().len() implies (#[trigger] f.tags.deep_view()[p])
                != t by {
                if f.tags.deep_view()[p] == t {
                    assert(f.tags.deep_view().contains(t));
                }
            }
            lemma_charge_tags_absent(0, f.tags.deep_view(), t, frame_dur(f, now));
        }
    }
}

/// Coverage of the first `i` frames: every tag they carry has a bucket,
/// and so does the untagged bucket when any of them is bare.
pub open spec fn tags_covered(out: Seq<(String, i64)>, frames: Seq<Frame>, i: int) -> bool {
    (forall|j: int, q: int|
        0 <= j < i && 0 <= q < (#[trigger] frames[j]).tags.deep_view().len() ==> has_key(
            out,
            #[trigger] frames[j].tags.deep_view()[q],
        )) && (forall|j: int|
        0 <= j < i && (#[trigger] frames[j]).tags.deep_view().len() == 0 ==> has_key(
            out,
            untagged_key(),
        ))
}

/// One bucket per tag that occurs, plus `(untagged)` for bare frames, each
/// holding the tag's summed charge at `now`. A frame charges its full
/// duration to every one of its tags.
pub fn totals_by_tag(frames: &Vec<Frame>, now: i64) -> (r: Vec<(String, i64)>)
    ensures
        keys_distinct(r@),
        forall|k: int|
            0 <= k < r@.len() ==> (#[trigger] r@[k]).1 as int == tag_total(
                frames@,
                r@[k].0@,
                now as int,
            ),
        tags_covered(r@, frames@, frames@.len() as int),
        forall|k: int| 0 <= k < r@.len() ==> tag_from_listing(frames@, (#[trigger] r@[k]).0@),
{
    let n = frames.len();
    let mut out: Vec<(String, i64)> = Vec::new();
    let mut i: usize = 0;
    while i < n
        invariant
            n == frames@.len(),
            i <= n,
            keys_distinct(out@),
            forall|k: int|
                0 <= k < out@.len() ==> (#[trigger] out@[k]).1 as int == tag_total(
                    frames@.take(i as int),
                    out@[k].0@,
                    now as int,
                ),
            tags_covered(out@, frames@, i as int),
            forall|k: int| 0 <= k < out@.len() ==> tag_from_listing(frames@, (#[trigger] out@[k]).0@),
        decreases n - i,
    {
        let d = frames[i].duration_at(now);
        let ghost prev = frames@.take(i as int);
        let ghost cur = frames@.take(i + 1);
        proof {
            assert(cur.drop_last() =~= prev);
            assert(cur.last() == frames@[i as int]);
        }
        let tn = frames[i].tags.len();
        proof {
            assert(frames@[i as int].tags.deep_view().len() == tn);
        }
        if tn == 0 {
            let ghost old_out = out@;
            proof {
                if !has_key(old_out, untagged_key()) {
                    assert forall|j: int|
                        0 <= j < prev.len() implies !(#[trigger] prev[j]).tags.deep_view().contains(
                        untagged_key(),
                    ) && !(prev[j].tags.deep_view().len() == 0 && untagged_key()
                        == untagged_key()) by {
                        assert(prev[j] == frames@[j]);
                        if prev[j].tags.deep_view().contains(untagged_key()) {
                            let qq = choose|qq: int|
                                0 <= qq < frames@[j].tags.deep_view().len() && frames@[j].tags.deep_view()[qq]
                                    == untagged_key();
                            assert(has_key(old_out, frames@[j].tags.deep_view()[qq]));
                        }
                        if prev[j].tags.deep_view().len() == 0 {
                            assert(has_key(old_out, untagged_key()));
                        }
                    }
                    lemma_tag_total_absent(prev, untagged_key(), now as int);
                }
            }
            charge_bucket(&mut out, "(untagged)", d);
            proof {
                assert("(untagged)"@ == untagged_key());
                assert forall|k: int| 0 <= k < out@.len() implies (#[trigger] out@[k]).1 as int
                    == tag_total(cur, out@[k].0@, now as int) by {
                    let key = out@[k].0@;
                    if k < old_out.len() {
                        assert(key == old_out[k].0@);
                        assert(old_out[k].1 as int == tag_total(prev, key, now as int));
                    } else {
                        assert(!has_key(old_out, untagged_key()));
                        assert(key == untagged_key());
                        assert(tag_total(prev, key, now as int) == 0);
                        assert(out@[k].1 == d);
                    }
                }
                assert(tags_covered(out@, frames@, i + 1)) by {
                    assert forall|j: int, qq: int|
                        0 <= j < i + 1 && 0 <= qq < (#[trigger] frames@[j]).tags.deep_view().len() implies has_key(
                        out@,
                        #[trigger] frames@[j].tags.deep_view()[qq],
                    ) by {
                        assert(j < i);
                        assert(has_key(old_out, frames@[j].tags.deep_view()[qq]));
                        let kk = choose|kk: int|
                            0 <= kk < old_out.len() && (#[trigger] old_out[kk]).0@
                                == frames@[j].tags.deep_view()[qq];
                        assert(out@[kk].0@ == frames@[j].tags.deep_view()[qq]);
                    }
                    assert(has_key(out@, untagged_key()));
                }
                assert forall|k: int| 0 <= k < out@.len() implies tag_from_listing(
                    frames@,
                    (#[trigger] out@[k]).0@,
                ) by {
                    if k < old_out.len() {
                        assert(out@[k].0@ == old_out[k].0@);
                        assert(tag_from_listing(frames@, old_out[k].0@));
                    } else {
                        assert(out@[k].0@ == untagged_key());
                        assert(frames@[i as int].tags.deep_view().len() == 0);
                        assert(tag_from_listing(frames@, out@[k].0@)) by {
                            assert(0 <= i < frames@.len() && frames@[i as int].tags.deep_view().len()
                                == 0 && out@[k].0@ == untagged_key());
                        }
                    }
                }
            }
        } else {
            let mut q: usize = 0;
            while q < tn
                invariant
                    n == frames@.len(),
                    i < n,
                    tn == frames@[i as int].tags.deep_view().len(),
                    tn == frames@[i as int].tags@.len(),
                    tn > 0,
                    q <= tn,
                    prev == frames@.take(i as int),
                    d as int == frame_dur(frames@[i as int], now as int),
                    keys_distinct(out@),
                    forall|k: int|
                        0 <= k < out@.len() ==> (#[trigger] out@[k]).1 as int == charge_tags(
                            tag_total(prev, out@[k].0@, now as int),
                            frames@[i as int].tags.deep_view().take(q as int),
                            out@[k].0@,
                            d as int,
                        ),
                    tags_covered(out@, frames@, i as int),
                    forall|p: int|
                        0 <= p < q ==> has_key(
                            out@,
                            #[trigger] frames@[i as int].tags.deep_view()[p],
                        ),
                    forall|k: int|
                        0 <= k < out@.len() ==> tag_from_listing(
                            frames@,
                            (#[trigger] out@[k]).0@,
                        ),
                decreases tn - q,
            {
                let ghost tagseq = frames@[i as int].tags.deep_view();
                let ghost tcur = tagseq[q as int];
                let ghost old_out = out@;
                proof {
                    assert(tagseq.take(q + 1).drop_last() =~= tagseq.take(q as int));
                    assert(tagseq.take(q + 1).last() == tagseq[q as int]);
                    assert(tagseq[q as int] == frames@[i as int].tags@[q as int]@);
                    if !has_key(old_out, tcur) {
                        assert forall|j: int|
                            0 <= j < prev.len() implies !(#[trigger] prev[j]).tags.deep_view().contains(
                            tcur,
                        ) && !(prev[j].tags.deep_view().len() == 0 && tcur == untagged_key()) by {
                            assert(prev[j] == frames@[j]);
                            if prev[j].tags.deep_view().contains(tcur) {
                                let qq = choose|qq: int|
                                    0 <= qq < frames@[j].tags.deep_view().len()
                                        && frames@[j].tags.deep_view()[qq] == tcur;
                                assert(has_key(old_out, frames@[j].tags.deep_view()[qq]));
                            }
                            if prev[j].tags.deep_view().len() == 0 {
                                assert(has_key(old_out, untagged_key()));
                            }
                        }
                        lemma_tag_total_absent(prev, tcur, now as int);
                        assert forall|p: int|
                            0 <= p < q implies (#[trigger] tagseq.take(q as int)[p]) != tcur by {
                            assert(tagseq.take(q as int)[p] == tagseq[p]);
                            if tagseq[p] == tcur {
                                assert(has_key(old_out, tagseq[p]));
                            }
                        }
                        lemma_charge_tags_absent(0, tagseq.take(q as int), tcur, d as int);
                    }
                }
                charge_bucket(&mut out, frames[i].tags[q].as_str(), d);
                proof {
                    assert forall|k: int| 0 <= k < out@.len() implies (#[trigger] out@[k]).1 as int
                        == charge_tags(
                        tag_total(prev, out@[k].0@, now as int),
                        tagseq.take(q + 1),
                        out@[k].0@,
                        d as int,
                    ) by {
                        let key = out@[k].0@;
                        if k < old_out.len() {
                            assert(key == old_out[k].0@);
                            assert(old_out[k].1 as int == charge_tags(
                                tag_total(prev, key, now as int),
                                tagseq.take(q as int),
                                key,
                                d as int,
                            ));
                        } else {
                            assert(!has_key(old_out, tcur));
                            assert(key == tcur);
                            assert(tag_total(prev, key, now as int) == 0);
                            assert(charge_tags(0, tagseq.take(q as int), key, d as int) == 0);
                            assert(out@[k].1 == d);
                        }
                    }
                    assert(tags_covered(out@, frames@, i as int)) by {
                        assert forall|j: int, qq: int|
                            0 <= j < i && 0 <= qq < (#[trigger] frames@[j]).tags.deep_view().len() implies has_key(
                            out@,
                            #[trigger] frames@[j].tags.deep_view()[qq],
                        ) by {
                            assert(has_key(old_out, frames@[j].tags.deep_view()[qq]));
                            let kk = choose|kk: int|
                                0 <= kk < old_out.len() && (#[trigger] old_out[kk]).0@
                                    == frames@[j].tags.deep_view()[qq];
                            assert(out@[kk].0@ == frames@[j].tags.deep_view()[qq]);
                        }
                        assert forall|j: int|
                            0 <= j < i && (#[trigger] frames@[j]).tags.deep_view().len()
                                == 0 implies has_key(out@, untagged_key()) by {
                            assert(has_key(old_out, untagged_key()));
                            let kk = choose|kk: int|
                                0 <= kk < old_out.len() && (#[trigger] old_out[kk]).0@
                                    == untagged_key();
                            assert(out@[kk].0@ == untagged_key());
                        }
                    }
                    assert forall|p: int| 0 <= p < q + 1 implies has_key(
                        out@,
                        #[trigger] tagseq[p],
                    ) by {
                        if p < q {
                            assert(has_key(old_out, tagseq[p]));
                            let kk = choose|kk: int|
                                0 <= kk < old_out.len() && (#[trigger] old_out[kk]).0@
                                    == tagseq[p];
                            assert(out@[kk].0@ == tagseq[p]);
                        } else {
                            assert(has_key(out@, tcur));
                        }
                    }
                    assert forall|k: int| 0 <= k < out@.len() implies tag_from_listing(
                        frames@,
                        (#[trigger] out@[k]).0@,
                    ) by {
                        if k < old_out.len() {
                            assert(out@[k].0@ == old_out[k].0@);
                            assert(tag_from_listing(frames@, old_out[k].0@));
                        } else {
                            assert(out@[k].0@ == tcur);
                            assert(tagseq.contains(tcur)) by {
                                assert(tagseq[q as int] == tcur);
                            }
                            assert(tag_from_listing(frames@, out@[k].0@)) by {
                                assert(0 <= i < frames@.len() && frames@[i as int].tags.deep_view().contains(
                                    tcur,
                                ));
                            }
                        }
                    }
                }
                q = q + 1;
            }
            proof {
                let tagseq = frames@[i as int].tags.deep_view();
                assert(tagseq.take(tn as int) =~= tagseq);
                assert forall|k: int| 0 <= k < out@.len() implies (#[trigger] out@[k]).1 as int
                    == tag_total(cur, out@[k].0@, now as int) by {
                    assert(out@[k].1 as int == charge_tags(
                        tag_total(prev, out@[k].0@, now as int),
                        tagseq,
                        out@[k].0@,
                        d as int,
                    ));
                }
                assert(tags_covered(out@, frames@, i + 1)) by {
                    assert forall|jq: int|
                        0 <= jq < tagseq.len() implies has_key(out@, #[trigger] tagseq[jq]) by {}
                }
            }
        }
        i = i + 1;
    }
    proof {
        assert(frames@.take(n as int) =~= frames@);
    }
    out
}

/// The total duration of every listed frame, at `now`.
pub fn total_duration(frames: &Vec<Frame>, now: i64) -> (r: i64)
    ensures
        r as int == total_duration_spec(frames@, now as int),
{
    let n = frames.len();
    let mut acc: i64 = 0;
    let mut i: usize = 0;
    while i < n
        invariant
            n == frames@.len(),
            i <= n,
            acc as int == total_duration_spec(frames@.take(i as int), now as int),
        decreases n - i,
    {
        let d = frames[i].duration_at(now);
        proof {
            assert(frames@.take(i + 1).drop_last() =~= frames@.take(i as int));
            assert(frames@.take(i + 1).last() == frames@[i as int]);
        }
        acc = sat_add(acc, d);
        i = i + 1;
    }
    proof {
        assert(frames@.take(n as int) =~= frames@);
    }
    acc
}

/// The buckets ordered by total descending; buckets with equal totals keep
/// their relative order.
pub fn sort_by_total_desc(v: Vec<(String, i64)>) -> (r: Vec<(String, i64)>)
    ensures
        r@.len() == v@.len(),
        forall|k: int, l: int| 0 <= k < l < r@.len() ==> (#[trigger] r@[k]).1 >= (#[trigger] r@[l]).1,
        r@.to_multiset() == v@.to_multiset(),
        forall|k: int| 0 <= k < r@.len() ==> v@.contains(#[trigger] r@[k]),
        forall|j: int| 0 <= j < v@.len() ==> r@.contains(#[trigger] v@[j]),
{
    broadcast use vstd::seq_lib::group_to_multiset_ensures;

    let n = v.len();
    let mut out: Vec<(String, i64)> = Vec::new();
    let mut j: usize = 0;
    proof {
        assert(Seq::<(String, i64)>::empty().to_multiset() =~= v@.take(0).to_multiset()) by {
            assert(v@.take(0) =~= Seq::<(String, i64)>::empty());
        }
    }
    while j < n
        invariant
            n == v@.len(),
            j <= n,
            out@.len() == j,
            forall|k: int, l: int|
                0 <= k < l < out@.len() ==> (#[trigger] out@[k]).1 >= (#[trigger] out@[l]).1,
            out@.to_multiset() == v@.take(j as int).to_multiset(),
        decreases n - j,
    {
        let x = (v[j].0.clone(), v[j].1);
        proof {
            assert(x == v@[j as int]);
        }
        let m = out.len();
        let mut pos: usize = 0;
        let mut placed = false;
        while pos < m && !placed
            invariant
                m == out@.len(),
                pos <= m,
                forall|k: int| 0 <= k < pos ==> (#[trigger] out@[k]).1 >= x.1,
                placed ==> pos < m && out@[pos as int].1 < x.1,
            decreases m - pos, (if placed {
                0int
            } else {
                1int
            }),
        {
            if out[pos].1 < x.1 {
                placed = true;
            } else {
                pos = pos + 1;
            }
        }
        let ghost old_out = out@;
        out.insert(pos, x);
        proof {
            assert(out@ == old_out.insert(pos as int, x));
            vstd::seq_lib::to_multiset_insert::<(String, i64)>(old_out, pos as int, x);
            assert(v@.take(j + 1) =~= v@.take(j as int).push(v@[j as int]));
            vstd::seq_lib::to_multiset_build::<(String, i64)>(v@.take(j as int), v@[j as int]);
            let p = pos as int;
            assert forall|k: int, l: int|
                0 <= k < l < out@.len() implies (#[trigger] out@[k]).1 >= (
            #[trigger] out@[l]).1 by {
                if l < p {
                    assert(out@[k] == old_out[k] && out@[l] == old_out[l]);
                } else if k < p && l == p {
                    assert(out@[k] == old_out[k]);
                } else if k < p && l > p {
                    assert(out@[k] == old_out[k] && out@[l] == old_out[l - 1]);
                } else if k == p {
                    assert(out@[l] == old_out[l - 1]);
                    assert(p <= l - 1 < old_out.len());
                    assert(placed);
                    assert(old_out[p].1 < x.1);
                    if l - 1 > p {
                        assert(old_out[l - 1].1 <= old_out[p].1);
                    }
                } else {
                    assert(out@[k] == old_out[k - 1] && out@[l] == old_out[l - 1]);
                }
            }
        }
        j = j + 1;
    }
    proof {
        assert(v@.take(n as int) =~= v@);
        assert forall|k: int| 0 <= k < out@.len() implies v@.contains(#[trigger] out@[k]) by {
            vstd::seq_lib::to_multiset_contains::<(String, i64)>(out@, out@[k]);
            vstd::seq_lib::to_multiset_contains::<(String, i64)>(v@, out@[k]);
            assert(out@.contains(out@[k]));
        }
        assert forall|jj: int| 0 <= jj < v@.len() implies out@.contains(#[trigger] v@[jj]) by {
            vstd::seq_lib::to_multiset_contains::<(String, i64)>(v@, v@[jj]);
            vstd::seq_lib::to_multiset_contains::<(String, i64)>(out@, v@[jj]);
            assert(v@.contains(v@[jj]));
        }
    }
    out
}

} // verus!
