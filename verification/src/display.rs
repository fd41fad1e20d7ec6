//! The display texts the command line prints: status lines, log row
//! fields, and the `+tag` suffixes. Column alignment is left to the
//! caller; everything here is the text itself.

use vstd::prelude::*;

use crate::clock::ts_to_local_civil;
use crate::frame::{format_duration_chars, Frame};
use crate::numfmt::{dec_pad2, dec_signed, i64_dec_chars, u64_pad2_chars};
use crate::text::{append_str_chars, chars_of, string_from_chars};

verus! {

/// The tag list as the status lines show it: nothing for no tags, else
/// one ` +tag` for each.
pub open spec fn tags_suffix(tags: Seq<Seq<char>>) -> Seq<char>
    decreases tags.len(),
{
    if tags.len() == 0 {
        seq![]
    } else {
        tags_suffix(tags.drop_last()) + " +"@ + tags.last()
    }
}

/// The tag list as a log row shows it: nothing for no tags, else `+a +b`.
pub open spec fn tags_inline(tags: Seq<Seq<char>>) -> Seq<char> {
    if tags.len() == 0 {
        seq![]
    } else {
        "+"@ + join_with_plus(tags)
    }
}

/// The tags joined by ` +`.
pub open spec fn join_with_plus(tags: Seq<Seq<char>>) -> Seq<char>
    decreases tags.len(),
{
    if tags.len() == 0 {
        seq![]
    } else if tags.len() == 1 {
        tags[0]
    } else {
        join_with_plus(tags.drop_last()) + " +"@ + tags.last()
    }
}

/// The ` +tag` suffix of a frame's tag list.
pub fn tags_suffix_string(tags: &Vec<String>) -> (r: String)
    ensures
        r@ == tags_suffix(tags.deep_view()),
{
    let mut out: Vec<char> = Vec::new();
    let n = tags.len();
    let mut k: usize = 0;
    proof {
        assert(tags.deep_view().len() == n);
    }
    while k < n
        invariant
            n == tags@.len(),
            tags.deep_view().len() == n,
            k <= n,
            out@ == tags_suffix(tags.deep_view().take(k as int)),
        decreases n - k,
    {
        proof {
            assert(tags.deep_view().take(k + 1).drop_last() =~= tags.deep_view().take(k as int));
            assert(tags.deep_view().take(k + 1).last() == tags.deep_view()[k as int]);
            assert(tags.deep_view()[k as int] == tags@[k as int]@);
        }
        append_str_chars(&mut out, " +");
        append_str_chars(&mut out, tags[k].as_str());
        k = k + 1;
    }
    proof {
        assert(tags.deep_view().take(n as int) =~= tags.deep_view());
    }
    string_from_chars(&out)
}

/// The `+a +b` form of a frame's tag list.
pub fn tags_inline_string(tags: &Vec<String>) -> (r: String)
    ensures
        r@ == tags_inline(tags.deep_view()),
{
    let n = tags.len();
    proof {
        assert(tags.deep_view().len() == n);
    }
    if n == 0 {
        return String::new();
    }
    let mut out: Vec<char> = Vec::new();
    append_str_chars(&mut out, "+");
    let mut k: usize = 0;
    proof {
        assert(out@ =~= "+"@);
    }
    while k < n
        invariant
            n == tags@.len(),
            tags.deep_view().len() == n,
            0 < n,
            k <= n,
            k == 0 ==> out@ == "+"@,
            k > 0 ==> out@ == "+"@ + join_with_plus(tags.deep_view().take(k as int)),
        decreases n - k,
    {
        proof {
            assert(tags.deep_view().take(k + 1).drop_last() =~= tags.deep_view().take(k as int));
            assert(tags.deep_view().take(k + 1).last() == tags.deep_view()[k as int]);
            assert(tags.deep_view()[k as int] == tags@[k as int]@);
            if k == 1 {
                assert(join_with_plus(tags.deep_view().take(1)) == tags.deep_view().take(1)[0]);
            }
        }
        if k > 0 {
            append_str_chars(&mut out, " +");
        }
        append_str_chars(&mut out, tags[k].as_str());
        k = k + 1;
        proof {
            if k == 1 {
                assert(out@ =~= "+"@ + tags.deep_view()[0]);
                assert(join_with_plus(tags.deep_view().take(1)) == tags.deep_view().take(1)[0]);
                assert(tags.deep_view().take(1)[0] == tags.deep_view()[0]);
            }
        }
    }
    proof {
        assert(tags.deep_view().take(n as int) =~= tags.deep_view());
    }
    string_from_chars(&out)
}

/// `Started {project}{ +tags}`.
pub fn started_message(f: &Frame) -> (r: String)
    ensures
        r@ == "Started "@ + f.project@ + tags_suffix(f.tags.deep_view()),
{
    let mut out: Vec<char> = chars_of("Started ");
    append_str_chars(&mut out, f.project.as_str());
    let suffix = tags_suffix_string(&f.tags);
    append_str_chars(&mut out, suffix.as_str());
    string_from_chars(&out)
}

/// `Stopped {project}{ +tags} ({duration})`.
pub fn stopped_message(f: &Frame, dur: i64) -> (r: String)
    ensures
        r@ == "Stopped "@ + f.project@ + tags_suffix(f.tags.deep_view()) + " ("@
            + format_duration_chars(dur as int) + ")"@,
{
    let mut out: Vec<char> = chars_of("Stopped ");
    append_str_chars(&mut out, f.project.as_str());
    let suffix = tags_suffix_string(&f.tags);
    append_str_chars(&mut out, suffix.as_str());
    append_str_chars(&mut out, " (");
    let d = Frame::format_duration(dur);
    append_str_chars(&mut out, d.as_str());
    append_str_chars(&mut out, ")");
    string_from_chars(&out)
}

/// `{project}{ +tags} ({duration})`: the tracking status line.
pub fn status_message(f: &Frame, dur: i64) -> (r: String)
    ensures
        r@ == f.project@ + tags_suffix(f.tags.deep_view()) + " ("@ + format_duration_chars(
            dur as int,
        ) + ")"@,
{
    let mut out: Vec<char> = chars_of(f.project.as_str());
    let suffix = tags_suffix_string(&f.tags);
    append_str_chars(&mut out, suffix.as_str());
    append_str_chars(&mut out, " (");
    let d = Frame::format_duration(dur);
    append_str_chars(&mut out, d.as_str());
    append_str_chars(&mut out, ")");
    proof {
        assert(out@ =~= f.project@ + tags_suffix(f.tags.deep_view()) + " ("@
            + format_duration_chars(dur as int) + ")"@);
    }
    string_from_chars(&out)
}

/// `Cancelled {project}{ +tags}`.
pub fn cancelled_message(f: &Frame) -> (r: String)
    ensures
        r@ == "Cancelled "@ + f.project@ + tags_suffix(f.tags.deep_view()),
{
    let mut out: Vec<char> = chars_of("Cancelled ");
    append_str_chars(&mut out, f.project.as_str());
    let suffix = tags_suffix_string(&f.tags);
    append_str_chars(&mut out, suffix.as_str());
    string_from_chars(&out)
}

/// `Deleted frame {id}`.
pub fn deleted_message(id: i64) -> (r: String)
    ensures
        r@ == "Deleted frame "@ + dec_signed(id as int),
{
    let mut out: Vec<char> = chars_of("Deleted frame ");
    let ds = i64_dec_chars(id);
    let mut k: usize = 0;
    let n = ds.len();
    let ghost prefix = out@;
    while k < n
        invariant
            n == ds@.len(),
            k <= n,
            out@ == prefix + ds@.take(k as int),
        decreases n - k,
    {
        out.push(ds[k]);
        k = k + 1;
        proof {
            assert(out@ =~= prefix + ds@.take(k as int));
        }
    }
    proof {
        assert(out@ =~= prefix + ds@);
    }
    string_from_chars(&out)
}

/// `Updated frame {id}`.
pub fn updated_message(id: i64) -> (r: String)
    ensures
        r@ == "Updated frame "@ + dec_signed(id as int),
{
    let mut out: Vec<char> = chars_of("Updated frame ");
    let ds = i64_dec_chars(id);
    let mut k: usize = 0;
    let n = ds.len();
    let ghost prefix = out@;
    while k < n
        invariant
            n == ds@.len(),
            k <= n,
            out@ == prefix + ds@.take(k as int),
        decreases n - k,
    {
        out.push(ds[k]);
        k = k + 1;
        proof {
            assert(out@ =~= prefix + ds@.take(k as int));
        }
    }
    proof {
        assert(out@ =~= prefix + ds@);
    }
    string_from_chars(&out)
}

/// `HH:MM`, zero-padded.
pub fn hm_string(hour: u8, minute: u8) -> (r: String)
    ensures
        r@ == dec_pad2(hour as nat) + ":"@ + dec_pad2(minute as nat),
{
    let mut out: Vec<char> = Vec::new();
    crate::frame::append_chars(&mut out, u64_pad2_chars(hour as u64));
    append_str_chars(&mut out, ":");
    crate::frame::append_chars(&mut out, u64_pad2_chars(minute as u64));
    proof {
        assert(out@ =~= dec_pad2(hour as nat) + ":"@ + dec_pad2(minute as nat));
    }
    string_from_chars(&out)
}

/// The local wall-clock `HH:MM` of an instant, or `--:--` for one outside
/// the representable span.
pub fn time_of_day_string(ts: i64) -> (r: String)
    ensures
        r@.len() == 5,
{
    match ts_to_local_civil(ts) {
        Some(c) => {
            let s = hm_string(c.1, c.2);
            proof {
                crate::numfmt::lemma_dec_digits_len_small(c.1 as nat);
                crate::numfmt::lemma_dec_digits_len_small(c.2 as nat);
                reveal_strlit(":");
            }
            s
        },
        None => {
            let s = "--:--";
            proof {
                reveal_strlit("--:--");
            }
            s.to_owned()
        },
    }
}

/// One log row's fields: id, project, inline tags, duration, time range.
pub struct DisplayRow {
    pub id: String,
    pub project: String,
    pub tags: String,
    pub duration: String,
    pub time_range: String,
}

/// The fields a log view shows of one frame at instant `now`: its id in
/// decimal, its project, its tags inline, its duration formatted, and its
/// local time range — two five-character wall-clock times joined by
/// ` - `, the end reading `now` exactly while the frame is open. Which
/// wall-clock digits the zone yields cannot be named here, so the range
/// clause fixes the shape.
pub fn display_row(f: &Frame, now: i64) -> (r: DisplayRow)
    ensures
        r.id@ == dec_signed(f.id as int),
        r.project@ == f.project@,
        r.tags@ == tags_inline(f.tags.deep_view()),
        r.duration@ == format_duration_chars(crate::frame::clamp_i64(
            crate::frame::duration_of(f.data(), now as int),
        )),
        r.time_range@.len() == (if f.end_time is Some {
            13int
        } else {
            11int
        }),
        r.time_range@.subrange(5, 8) == " - "@,
        f.end_time is None ==> r.time_range@.skip(8) == "now"@,
{
    let id = crate::numfmt::i64_to_string(f.id);
    let tags = tags_inline_string(&f.tags);
    let dur = f.duration_at(now);
    let duration = Frame::format_duration(dur);
    let start_part = time_of_day_string(f.start_time);
    let mut range: Vec<char> = chars_of(start_part.as_str());
    append_str_chars(&mut range, " - ");
    let end_part: String = match f.end_time {
        Some(e) => time_of_day_string(e),
        None => {
            let s = "now";
            s.to_owned()
        },
    };
    append_str_chars(&mut range, end_part.as_str());
    proof {
        reveal_strlit(" - ");
        assert(start_part@.len() == 5);
        assert(range@ =~= start_part@ + " - "@ + end_part@);
        if f.end_time is None {
            reveal_strlit("now");
            assert(end_part@.len() == 3);
            assert(range@.skip(8) =~= end_part@);
        } else {
            assert(end_part@.len() == 5);
        }
        assert(range@.subrange(5, 8) =~= " - "@);
    }
    DisplayRow {
        id,
        project: f.project.clone(),
        tags,
        duration,
        time_range: string_from_chars(&range),
    }
}

} // verus!
