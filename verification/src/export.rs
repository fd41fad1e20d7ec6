//! The export surface: every frame as a flat record, and the CSV form of
//! such a record. The JSON form serialises the same records outside the
//! library.

use vstd::prelude::*;

use crate::clock::ts_to_local_civil;
use crate::dates::Date;
use crate::frame::{append_chars, clamp_i64, duration_of, Frame};
use crate::numfmt::{
    dec_digits, dec_pad2, dec_pad4, dec_signed, i64_dec_chars, u64_dec_chars, u64_pad2_chars,
    u64_pad4_chars,
};
use crate::text::{
    append_str_chars, chars_of, csv_escaped, eq_ignore_ascii_case, escape_csv, join_commas,
    join_tags, lower_chars, string_from_chars,
};

verus! {

/// The two export forms.
#[derive(Clone, Copy, PartialEq, Eq, Structural, Debug)]
pub enum ExportFormat {
    Json,
    Csv,
}

impl core::str::FromStr for ExportFormat {
    type Err = String;

    /// Forwards to `parse_export_format`, which carries the contract a
    /// trait method cannot.
    fn from_str(s: &str) -> Result<Self, Self::Err> {
        parse_export_format(s)
    }
}

/// The format an argument names: `json` or `csv`, ASCII
/// case-insensitively; anything else is refused with a message.
pub fn parse_export_format(s: &str) -> (r: Result<ExportFormat, String>)
    ensures
        match r {
            Ok(f) => (f is Json && lower_chars(s@) == lower_chars("json"@)) || (f is Csv
                && lower_chars(s@) == lower_chars("csv"@)),
            Err(m) => lower_chars(s@) != lower_chars("json"@) && lower_chars(s@) != lower_chars(
                "csv"@,
            ) && m@ == "unknown format: "@ + s@ + " (expected json or csv)"@,
        },
{
    if eq_ignore_ascii_case(s, "json") {
        Ok(ExportFormat::Json)
    } else if eq_ignore_ascii_case(s, "csv") {
        Ok(ExportFormat::Csv)
    } else {
        let mut msg: Vec<char> = chars_of("unknown format: ");
        append_str_chars(&mut msg, s);
        append_str_chars(&mut msg, " (expected json or csv)");
        proof {
            assert(msg@ =~= "unknown format: "@ + s@ + " (expected json or csv)"@);
        }
        Err(string_from_chars(&msg))
    }
}

/// One exported frame: identifier, project, local ISO times (the end
/// absent while open), the tag list, and the elapsed seconds.
pub struct ExportRecord {
    pub id: i64,
    pub project: String,
    pub start_time: String,
    pub end_time: Option<String>,
    pub tags: Vec<String>,
    pub duration_seconds: i64,
}

/// The year as ISO shows it: four digits zero-padded, more only beyond
/// four, a leading `-` before the common era.
pub open spec fn year_chars(y: int) -> Seq<char> {
    if y < 0 {
        seq!['-'] + abs_year_chars(-y)
    } else {
        abs_year_chars(y)
    }
}

pub open spec fn abs_year_chars(n: int) -> Seq<char> {
    if n < 10000 {
        dec_pad4(n as nat)
    } else {
        dec_digits(n as nat)
    }
}

/// A civil time in `YYYY-MM-DDTHH:MM:SS` form.
pub open spec fn civil_iso_chars(d: Date, h: int, mi: int, s: int) -> Seq<char> {
    year_chars(d.year as int) + "-"@ + dec_pad2(d.month as nat) + "-"@ + dec_pad2(d.day as nat)
        + "T"@ + dec_pad2(h as nat) + ":"@ + dec_pad2(mi as nat) + ":"@ + dec_pad2(s as nat)
}

/// The `YYYY-MM-DDTHH:MM:SS` text of a civil time.
pub fn format_civil_iso(d: Date, h: u8, mi: u8, s: u8) -> (r: String)
    ensures
        r@ == civil_iso_chars(d, h as int, mi as int, s as int),
{
    let mut out: Vec<char> = Vec::new();
    if d.year < 0 {
        append_str_chars(&mut out, "-");
        proof {
            reveal_strlit("-");
            assert(out@ =~= seq!['-']);
        }
        let m: u32 = ((-(d.year + 1)) as u32) + 1;
        proof {
            assert(m as int == -(d.year as int));
        }
        if m < 10000 {
            append_chars(&mut out, u64_pad4_chars(m as u64));
        } else {
            append_chars(&mut out, u64_dec_chars(m as u64));
        }
    } else {
        if d.year < 10000 {
            append_chars(&mut out, u64_pad4_chars(d.year as u64));
        } else {
            append_chars(&mut out, u64_dec_chars(d.year as u64));
        }
    }
    proof {
        assert(out@ =~= year_chars(d.year as int));
    }
    append_str_chars(&mut out, "-");
    append_chars(&mut out, u64_pad2_chars(d.month as u64));
    append_str_chars(&mut out, "-");
    append_chars(&mut out, u64_pad2_chars(d.day as u64));
    append_str_chars(&mut out, "T");
    append_chars(&mut out, u64_pad2_chars(h as u64));
    append_str_chars(&mut out, ":");
    append_chars(&mut out, u64_pad2_chars(mi as u64));
    append_str_chars(&mut out, ":");
    append_chars(&mut out, u64_pad2_chars(s as u64));
    proof {
        assert(out@ =~= civil_iso_chars(d, h as int, mi as int, s as int));
    }
    string_from_chars(&out)
}

/// The local ISO text of an instant; empty for one outside the
/// representable span, else at least the nineteen places of
/// `YYYY-MM-DDTHH:MM:SS`.
pub fn iso_local_string(ts: i64) -> (r: String)
    ensures
        r@.len() == 0 || r@.len() >= 19,
{
    match ts_to_local_civil(ts) {
        Some(c) => {
            let s = format_civil_iso(c.0, c.1, c.2, c.3);
            proof {
                let y = c.0.year as int;
                if y < 0 {
                    lemma_abs_year_len(-y);
                } else {
                    lemma_abs_year_len(y);
                }
                crate::numfmt::lemma_dec_digits_len_small(c.0.month as nat);
                crate::numfmt::lemma_dec_digits_len_small(c.0.day as nat);
                crate::numfmt::lemma_dec_digits_len_small(c.1 as nat);
                crate::numfmt::lemma_dec_digits_len_small(c.2 as nat);
                crate::numfmt::lemma_dec_digits_len_small(c.3 as nat);
                reveal_strlit("-");
                reveal_strlit("T");
                reveal_strlit(":");
            }
            s
        },
        None => String::new(),
    }
}

proof fn lemma_abs_year_len(n: int)
    requires
        n >= 0,
    ensures
        abs_year_chars(n).len() >= 4,
{
    if n < 10000 {
        crate::numfmt::lemma_dec_pad4_len(n as nat);
    } else {
        crate::numfmt::lemma_dec_digits_len_ge4(n as nat);
    }
}

/// The export record of one frame at instant `now`: same id, project and
/// tags, ISO local times (empty only for an instant outside the
/// representable span), and the elapsed seconds measured to `now` while
/// open.
pub fn export_record(f: &Frame, now: i64) -> (r: ExportRecord)
    ensures
        r.id == f.id,
        r.project@ == f.project@,
        r.tags.deep_view() == f.tags.deep_view(),
        r.end_time is Some <==> f.end_time is Some,
        r.duration_seconds as int == clamp_i64(duration_of(f.data(), now as int)),
        r.start_time@.len() == 0 || r.start_time@.len() >= 19,
        r.end_time matches Some(e) ==> e@.len() == 0 || e@.len() >= 19,
{
    let end_time: Option<String> = match f.end_time {
        Some(e) => Some(iso_local_string(e)),
        None => None,
    };
    ExportRecord {
        id: f.id,
        project: f.project.clone(),
        start_time: iso_local_string(f.start_time),
        end_time,
        tags: crate::text::clone_strings(&f.tags),
        duration_seconds: f.duration_at(now),
    }
}

/// The CSV header row.
pub fn csv_header() -> (r: String)
    ensures
        r@ == "id,project,start_time,end_time,tags,duration_seconds"@,
{
    let s = "id,project,start_time,end_time,tags,duration_seconds";
    s.to_owned()
}

/// One record as a CSV row: id, escaped project, the two times, the
/// comma-joined tags escaped as one field, and the seconds.
pub fn csv_line(rec: &ExportRecord) -> (r: String)
    ensures
        r@ == dec_signed(rec.id as int) + ","@ + csv_escaped(rec.project@) + ","@
            + rec.start_time@ + ","@ + (match rec.end_time {
            Some(e) => e@,
            None => Seq::<char>::empty(),
        }) + ","@ + csv_escaped(join_commas(rec.tags.deep_view())) + ","@ + dec_signed(
            rec.duration_seconds as int,
        ),
{
    let mut out: Vec<char> = Vec::new();
    append_chars(&mut out, i64_dec_chars(rec.id));
    append_str_chars(&mut out, ",");
    let p = escape_csv(rec.project.as_str());
    append_str_chars(&mut out, p.as_str());
    append_str_chars(&mut out, ",");
    append_str_chars(&mut out, rec.start_time.as_str());
    append_str_chars(&mut out, ",");
    match &rec.end_time {
        Some(e) => {
            append_str_chars(&mut out, e.as_str());
        },
        None => {},
    }
    append_str_chars(&mut out, ",");
    let joined = join_tags(&rec.tags);
    let tags_field = escape_csv(joined.as_str());
    append_str_chars(&mut out, tags_field.as_str());
    append_str_chars(&mut out, ",");
    append_chars(&mut out, i64_dec_chars(rec.duration_seconds));
    proof {
        assert(out@ =~= dec_signed(rec.id as int) + ","@ + csv_escaped(rec.project@) + ","@
            + rec.start_time@ + ","@ + (match rec.end_time {
            Some(e) => e@,
            None => Seq::<char>::empty(),
        }) + ","@ + csv_escaped(join_commas(rec.tags.deep_view())) + ","@ + dec_signed(
            rec.duration_seconds as int,
        ));
    }
    string_from_chars(&out)
}

/// The export records of a listing, in its order.
pub fn export_records(frames: &Vec<Frame>, now: i64) -> (r: Vec<ExportRecord>)
    ensures
        r@.len() == frames@.len(),
        forall|k: int|
            0 <= k < frames@.len() ==> {
                let rec = #[trigger] r@[k];
                &&& rec.id == frames@[k].id
                &&& rec.project@ == frames@[k].project@
                &&& rec.tags.deep_view() == frames@[k].tags.deep_view()
                &&& rec.duration_seconds as int == clamp_i64(
                    duration_of(frames@[k].data(), now as int),
                )
            },
{
    let n = frames.len();
    let mut r: Vec<ExportRecord> = Vec::new();
    let mut k: usize = 0;
    while k < n
        invariant
            n == frames@.len(),
            k <= n,
            r@.len() == k,
            forall|j: int|
                0 <= j < k ==> {
                    let rec = #[trigger] r@[j];
                    &&& rec.id == frames@[j].id
                    &&& rec.project@ == frames@[j].project@
                    &&& rec.tags.deep_view() == frames@[j].tags.deep_view()
                    &&& rec.duration_seconds as int == clamp_i64(
                        duration_of(frames@[j].data(), now as int),
                    )
                },
        decreases n - k,
    {
        r.push(export_record(&frames[k], now));
        k = k + 1;
    }
    r
}

} // verus!
