//! The frame: one tracked interval of work on a project, with its tags.

use vstd::prelude::*;

use crate::clock::now_ts;
use crate::numfmt::{dec_digits, dec_signed, u64_dec_chars};
use crate::text::{join_commas, join_tags, split_commas, split_tags, string_from_chars};

verus! {

/// One tracked interval. `end_time` absent means the frame is open: it is
/// still being tracked. Timestamps are whole seconds since the Unix epoch.
#[derive(Debug)]
pub struct Frame {
    pub id: i64,
    pub project: String,
    pub start_time: i64,
    pub end_time: Option<i64>,
    pub tags: Vec<String>,
}

/// A frame as one store row holds it: the tag list still comma-joined, and
/// absent when there are no tags.
#[derive(Debug)]
pub struct RawFrame {
    pub id: i64,
    pub project: String,
    pub start_time: i64,
    pub end_time: Option<i64>,
    pub tags: Option<String>,
}

/// The mathematical content of one stored frame row, keyed elsewhere by id.
pub ghost struct FrameData {
    pub project: Seq<char>,
    pub start: int,
    pub end: Option<int>,
    pub tags: Option<Seq<char>>,
}

impl View for RawFrame {
    type V = FrameData;

    open spec fn view(&self) -> FrameData {
        FrameData {
            project: self.project@,
            start: self.start_time as int,
            end: match self.end_time {
                Some(t) => Some(t as int),
                None => None,
            },
            tags: match self.tags {
                Some(s) => Some(s@),
                None => None,
            },
        }
    }
}

/// The tag list a stored tags column stands for: absent means no tags, and
/// a present string splits on commas.
pub open spec fn tags_of_stored(t: Option<Seq<char>>) -> Seq<Seq<char>> {
    match t {
        None => seq![],
        Some(s) => split_commas(s),
    }
}

/// The stored form of a tag list: absent for no tags, else comma-joined.
pub open spec fn stored_of_tags(tags: Seq<Seq<char>>) -> Option<Seq<char>> {
    if tags.len() == 0 {
        None
    } else {
        Some(join_commas(tags))
    }
}

impl Frame {
    /// The fields of this frame as stored row content.
    pub open spec fn data(&self) -> FrameData {
        FrameData {
            project: self.project@,
            start: self.start_time as int,
            end: match self.end_time {
                Some(t) => Some(t as int),
                None => None,
            },
            tags: stored_of_tags(self.tags.deep_view()),
        }
    }

    /// A frame read back from its stored row: the tag column split into
    /// the tag list it stands for.
    pub fn from_raw(raw: &RawFrame) -> (f: Frame)
        ensures
            f.id == raw.id,
            f.project@ == raw@.project,
            f.start_time == raw.start_time,
            f.end_time == raw.end_time,
            f.tags.deep_view() == tags_of_stored(raw@.tags),
    {
        let tags: Vec<String> = match &raw.tags {
            Some(s) => split_tags(s.as_str()),
            None => Vec::new(),
        };
        proof {
            if raw.tags is None {
                assert(tags.deep_view() =~= tags_of_stored(raw@.tags));
            }
        }
        Frame {
            id: raw.id,
            project: raw.project.clone(),
            start_time: raw.start_time,
            end_time: raw.end_time,
            tags,
        }
    }

    /// Elapsed seconds from start to end, measured to `now` while open.
    /// An end placed before the start by an explicit edit gives a negative
    /// duration; a difference beyond `i64` saturates.
    pub fn duration_at(&self, now: i64) -> (r: i64)
        ensures
            r as int == clamp_i64(duration_of(self.data(), now as int)),
    {
        let end: i128 = match self.end_time {
            Some(t) => t as i128,
            None => now as i128,
        };
        let d = end - (self.start_time as i128);
        if d > i64::MAX as i128 {
            i64::MAX
        } else if d < i64::MIN as i128 {
            i64::MIN
        } else {
            d as i64
        }
    }

    /// Elapsed seconds, measured to the current instant while open.
    pub fn duration(&self) -> (r: i64)
        ensures
            self.end_time is Some ==> r as int == clamp_i64(
                duration_of(self.data(), 0),
            ),
    {
        let now = now_ts();
        proof {
            if self.end_time is Some {
                assert(duration_of(self.data(), now as int) == duration_of(self.data(), 0));
            }
        }
        self.duration_at(now)
    }

    /// A duration the way every display shows it: `"{h}h {m}m"` from one
    /// hour up, else `"{m}m {s}s"` from one minute up, else `"{s}s"`.
    pub fn format_duration(d: i64) -> (r: String)
        ensures
            r@ == format_duration_chars(d as int),
    {
        let mut out: Vec<char> = Vec::new();
        if d < 0 {
            let m: u64 = ((-(d + 1)) as u64) + 1;
            proof {
                assert(m as int == -(d as int));
            }
            let s = m % 60;
            if s == 0 {
                out.push('0');
                proof {
                    assert(dec_signed(0) =~= seq!['0']);
                    assert(out@ =~= dec_signed(0));
                }
            } else {
                out.push('-');
                let ghost sign = out@;
                append_chars(&mut out, u64_dec_chars(s));
                proof {
                    assert(out@ =~= dec_signed(-(s as int)));
                }
            }
            out.push('s');
            proof {
                assert(out@ =~= format_duration_chars(d as int));
            }
        } else {
            let du = d as u64;
            if du >= 3600 {
                append_chars(&mut out, u64_dec_chars(du / 3600));
                out.push('h');
                out.push(' ');
                append_chars(&mut out, u64_dec_chars((du / 60) % 60));
                out.push('m');
            } else if du >= 60 {
                append_chars(&mut out, u64_dec_chars(du / 60));
                out.push('m');
                out.push(' ');
                append_chars(&mut out, u64_dec_chars(du % 60));
                out.push('s');
            } else {
                append_chars(&mut out, u64_dec_chars(du));
                out.push('s');
            }
            proof {
                assert(out@ =~= format_duration_chars(d as int));
            }
        }
        string_from_chars(&out)
    }
}

/// The elapsed seconds of a stored frame at instant `now`: up to its end
/// when closed, up to `now` while open.
pub open spec fn duration_of(f: FrameData, now: int) -> int {
    match f.end {
        Some(e) => e - f.start,
        None => now - f.start,
    }
}

/// `v` brought into the range of `i64`.
pub open spec fn clamp_i64(v: int) -> int {
    if v > i64::MAX {
        i64::MAX as int
    } else if v < i64::MIN {
        i64::MIN as int
    } else {
        v
    }
}

/// The display form of a duration of `d` seconds. Hours and minutes from
/// one hour up, minutes and seconds from one minute up, seconds alone
/// below; a negative duration truncates toward zero, showing its seconds
/// remainder with its sign.
pub open spec fn format_duration_chars(d: int) -> Seq<char> {
    if d < 0 {
        dec_signed(-((-d) % 60)) + seq!['s']
    } else if d >= 3600 {
        dec_digits((d / 3600) as nat) + seq!['h', ' '] + dec_digits(((d / 60) % 60) as nat)
            + seq!['m']
    } else if d >= 60 {
        dec_digits((d / 60) as nat) + seq!['m', ' '] + dec_digits((d % 60) as nat) + seq!['s']
    } else {
        dec_digits(d as nat) + seq!['s']
    }
}

/// The stored form of a tag list: absent for no tags, else comma-joined.
pub fn stored_tags_string(tags: &Vec<String>) -> (r: Option<String>)
    ensures
        (match r {
            Some(s) => Some(s@),
            None => None,
        }) == stored_of_tags(tags.deep_view()),
{
    if tags.len() == 0 {
        proof {
            assert(tags.deep_view().len() == 0);
        }
        None
    } else {
        proof {
            assert(tags.deep_view().len() > 0);
        }
        Some(join_tags(tags))
    }
}

/// Append every character of `tail` to `out`.
pub fn append_chars(out: &mut Vec<char>, tail: Vec<char>)
    ensures
        final (out)@ == old(out)@ + tail@,
{
    let ghost orig = out@;
    let n = tail.len();
    let mut i: usize = 0;
    while i < n
        invariant
            n == tail@.len(),
            i <= n,
            out@ == orig + tail@.take(i as int),
        decreases n - i,
    {
        out.push(tail[i]);
        i = i + 1;
        proof {
            assert(out@ =~= orig + tail@.take(i as int));
        }
    }
    proof {
        assert(out@ =~= orig + tail@);
    }
}

} // verus!

