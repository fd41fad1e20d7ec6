//! Character-level text utilities: comma-joined tag lists, CSV escaping,
//! ASCII case folding, and the `+tag` argument form.

use vstd::prelude::*;

verus! {

/// Index of the first occurrence of `c` in `s`, or `s.len()` if absent.
pub open spec fn first_index_of(s: Seq<char>, c: char) -> int
    decreases s.len(),
{
    if s.len() == 0 {
        0
    } else if s[0] == c {
        0
    } else {
        1 + first_index_of(s.skip(1), c)
    }
}

pub proof fn lemma_first_index_of(s: Seq<char>, c: char)
    ensures
        0 <= first_index_of(s, c) <= s.len(),
        first_index_of(s, c) < s.len() ==> s[first_index_of(s, c)] == c,
        forall|i: int| 0 <= i < first_index_of(s, c) ==> s[i] != c,
    decreases s.len(),
{
    if s.len() == 0 {
    } else if s[0] == c {
    } else {
        lemma_first_index_of(s.skip(1), c);
        assert forall|i: int| 0 <= i < first_index_of(s, c) implies s[i] != c by {
            if i > 0 {
                assert(s.skip(1)[i - 1] == s[i]);
            }
        }
    }
}

/// The segments of `s` between occurrences of `c`; splitting the empty
/// string gives one empty segment, as Rust's `str::split` does.
pub open spec fn split_sep(s: Seq<char>, c: char) -> Seq<Seq<char>>
    decreases s.len(),
{
    let i = first_index_of(s, c);
    if 0 <= i < s.len() {
        seq![s.take(i)] + split_sep(s.skip(i + 1), c)
    } else {
        seq![s]
    }
}

/// The segments of `s` between commas.
pub open spec fn split_commas(s: Seq<char>) -> Seq<Seq<char>> {
    split_sep(s, ',')
}

/// The segments joined back with a comma between each pair.
pub open spec fn join_commas(ts: Seq<Seq<char>>) -> Seq<char>
    decreases ts.len(),
{
    if ts.len() == 0 {
        seq![]
    } else if ts.len() == 1 {
        ts[0]
    } else {
        ts[0] + seq![','] + join_commas(ts.skip(1))
    }
}

pub open spec fn has_no_comma(t: Seq<char>) -> bool {
    forall|i: int| 0 <= i < t.len() ==> t[i] != ','
}

proof fn lemma_first_index_of_append(t: Seq<char>, rest: Seq<char>, c: char)
    requires
        forall|i: int| 0 <= i < t.len() ==> t[i] != c,
    ensures
        first_index_of(t + seq![c] + rest, c) == t.len(),
    decreases t.len(),
{
    let s = t + seq![c] + rest;
    if t.len() == 0 {
        assert(s[0] == c);
    } else {
        assert(s[0] == t[0]);
        lemma_first_index_of_append(t.skip(1), rest, c);
        assert(s.skip(1) =~= t.skip(1) + seq![c] + rest);
    }
}

proof fn lemma_first_index_of_none(t: Seq<char>, c: char)
    requires
        forall|i: int| 0 <= i < t.len() ==> t[i] != c,
    ensures
        first_index_of(t, c) == t.len(),
    decreases t.len(),
{
    if t.len() == 0 {
    } else {
        lemma_first_index_of_none(t.skip(1), c);
    }
}

/// Splitting undoes joining: a non-empty list of comma-free segments comes
/// back unchanged. This is the round trip behind storing a tag list as one
/// comma-joined column.
pub proof fn lemma_split_join_commas(ts: Seq<Seq<char>>)
    requires
        ts.len() > 0,
        forall|k: int| 0 <= k < ts.len() ==> has_no_comma(#[trigger] ts[k]),
    ensures
        split_commas(join_commas(ts)) == ts,
    decreases ts.len(),
{
    if ts.len() == 1 {
        lemma_first_index_of_none(ts[0], ',');
        assert(split_commas(ts[0]) =~= seq![ts[0]]);
        assert(seq![ts[0]] =~= ts);
    } else {
        let s = join_commas(ts);
        let rest = join_commas(ts.skip(1));
        assert(s =~= ts[0] + seq![','] + rest);
        lemma_first_index_of_append(ts[0], rest, ',');
        assert(s.take(ts[0].len() as int) =~= ts[0]);
        assert(s.skip(ts[0].len() as int + 1) =~= rest);
        lemma_split_join_commas(ts.skip(1));
        assert(split_commas(s) =~= seq![ts[0]] + split_commas(rest));
        assert(seq![ts[0]] + ts.skip(1) =~= ts);
    }
}

/// Joining undoes splitting, for any stored string at all: reading a
/// comma-joined column apart and writing it back keeps it letter for
/// letter.
pub proof fn lemma_join_split_commas(s: Seq<char>)
    ensures
        join_commas(split_commas(s)) == s,
    decreases s.len(),
{
    lemma_first_index_of(s, ',');
    let i = first_index_of(s, ',');
    if 0 <= i < s.len() {
        lemma_join_split_commas(s.skip(i + 1));
        let parts = split_sep(s, ',');
        assert(parts == seq![s.take(i)] + split_sep(s.skip(i + 1), ','));
        assert(parts.len() >= 2) by {
            assert(split_sep(s.skip(i + 1), ',').len() >= 1) by {
                lemma_split_len(s.skip(i + 1), ',');
            }
        }
        assert(parts[0] == s.take(i));
        assert(parts.skip(1) =~= split_sep(s.skip(i + 1), ','));
        assert(join_commas(parts) == s.take(i) + seq![','] + join_commas(parts.skip(1)));
        assert(s.take(i) + seq![','] + s.skip(i + 1) =~= s);
    } else {
        assert(split_sep(s, ',') =~= seq![s]);
    }
}

/// A split has at least one segment.
pub proof fn lemma_split_len(s: Seq<char>, c: char)
    ensures
        split_sep(s, c).len() >= 1,
    decreases s.len(),
{
    lemma_first_index_of(s, c);
    let i = first_index_of(s, c);
    if 0 <= i < s.len() {
        lemma_split_len(s.skip(i + 1), c);
    }
}

/// Append every character of `s` to `out`.
pub fn append_str_chars(out: &mut Vec<char>, s: &str)
    ensures
        final (out)@ == old(out)@ + s@,
{
    let ghost orig = out@;
    let cs = chars_of(s);
    let n = cs.len();
    let mut i: usize = 0;
    while i < n
        invariant
            n == cs@.len(),
            cs@ == s@,
            i <= n,
            out@ == orig + s@.take(i as int),
        decreases n - i,
    {
        out.push(cs[i]);
        i = i + 1;
        proof {
            assert(out@ =~= orig + s@.take(i as int));
        }
    }
    proof {
        assert(out@ =~= orig + s@);
    }
}

/// A copy of a list of strings.
pub fn clone_strings(v: &Vec<String>) -> (r: Vec<String>)
    ensures
        r@ == v@,
        r.deep_view() == v.deep_view(),
{
    let mut r: Vec<String> = Vec::new();
    let n = v.len();
    let mut k: usize = 0;
    while k < n
        invariant
            n == v@.len(),
            k <= n,
            r@ == v@.take(k as int),
        decreases n - k,
    {
        r.push(v[k].clone());
        k = k + 1;
        proof {
            assert(r@ =~= v@.take(k as int));
        }
    }
    proof {
        assert(v@.take(n as int) =~= v@);
        assert(r.deep_view() =~= v.deep_view());
    }
    r
}

pub proof fn lemma_first_index_at(s: Seq<char>, c: char, j: int)
    requires
        0 <= j < s.len(),
        s[j] == c,
        forall|i: int| 0 <= i < j ==> s[i] != c,
    ensures
        first_index_of(s, c) == j,
    decreases j,
{
    if j == 0 {
    } else {
        lemma_first_index_at(s.skip(1), c, j - 1);
    }
}

/// How a join grows when one more segment is appended at the end.
pub proof fn lemma_join_push(ts: Seq<Seq<char>>, t: Seq<char>)
    ensures
        ts.len() == 0 ==> join_commas(ts.push(t)) == t,
        ts.len() > 0 ==> join_commas(ts.push(t)) == join_commas(ts) + seq![','] + t,
    decreases ts.len(),
{
    if ts.len() == 0 {
        assert(join_commas(ts.push(t)) == ts.push(t)[0]);
        assert(ts.push(t)[0] == t);
    } else if ts.len() == 1 {
        assert(ts.push(t).skip(1) =~= seq![t]);
        assert(join_commas(seq![t]) == t);
        assert(ts.push(t)[0] == ts[0]);
        assert(join_commas(ts) == ts[0]);
    } else {
        lemma_join_push(ts.skip(1), t);
        assert(ts.push(t).skip(1) =~= ts.skip(1).push(t));
    }
}

/// Splitting a sequence free of the separator gives that one segment back.
pub proof fn lemma_split_no_sep(s: Seq<char>, c: char)
    requires
        forall|i: int| 0 <= i < s.len() ==> s[i] != c,
    ensures
        split_sep(s, c) == seq![s],
{
    lemma_first_index_of_none(s, c);
}

/// Splitting steps over the first separator.
pub proof fn lemma_split_at_sep(s: Seq<char>, c: char, j: int)
    requires
        0 <= j < s.len(),
        s[j] == c,
        forall|i: int| 0 <= i < j ==> s[i] != c,
    ensures
        split_sep(s, c) == seq![s.take(j)] + split_sep(s.skip(j + 1), c),
{
    lemma_first_index_at(s, c, j);
}

/// The tag list as stored: the tags joined with commas between them.
pub fn join_tags(tags: &Vec<String>) -> (r: String)
    ensures
        r@ == join_commas(tags.deep_view()),
{
    let mut acc: Vec<char> = Vec::new();
    let mut k: usize = 0;
    let n = tags.len();
    while k < n
        invariant
            n == tags@.len(),
            k <= n,
            tags.deep_view().len() == n,
            acc@ == join_commas(tags.deep_view().take(k as int)),
        decreases n - k,
    {
        proof {
            lemma_join_push(tags.deep_view().take(k as int), tags.deep_view()[k as int]);
            assert(tags.deep_view().take(k as int).push(tags.deep_view()[k as int]) =~= tags
                .deep_view()
                .take(k + 1 as int));
        }
        if k > 0 {
            acc.push(',');
        }
        let cs = chars_of(tags[k].as_str());
        let mut j: usize = 0;
        let m = cs.len();
        let ghost before = acc@;
        while j < m
            invariant
                m == cs@.len(),
                j <= m,
                acc@ == before + cs@.take(j as int),
            decreases m - j,
        {
            acc.push(cs[j]);
            j = j + 1;
            proof {
                assert(acc@ =~= before + cs@.take(j as int));
            }
        }
        proof {
            assert(cs@.take(m as int) =~= cs@);
            assert(tags.deep_view()[k as int] == tags@[k as int]@);
        }
        k = k + 1;
    }
    proof {
        assert(tags.deep_view().take(n as int) =~= tags.deep_view());
    }
    string_from_chars(&acc)
}

/// The comma-separated segments of `s`, as owned strings.
pub fn split_tags(s: &str) -> (r: Vec<String>)
    ensures
        r.deep_view() == split_commas(s@),
{
    split_on_char(s, ',')
}

/// The segments of `s` between occurrences of `sep`, as owned strings.
pub fn split_on_char(s: &str, sep: char) -> (r: Vec<String>)
    ensures
        r.deep_view() == split_sep(s@, sep),
{
    let cs = chars_of(s);
    let n = cs.len();
    let mut r: Vec<String> = Vec::new();
    let mut seg: Vec<char> = Vec::new();
    let mut i: usize = 0;
    proof {
        assert(r.deep_view() =~= Seq::<Seq<char>>::empty());
        assert(s@.skip(0) =~= s@);
        assert(seg@ =~= s@.subrange(0, 0));
    }
    while i < n
        invariant
            n == cs@.len(),
            cs@ == s@,
            i <= n,
            seg@.len() <= i,
            seg@ == s@.subrange(i - seg@.len(), i as int),
            forall|q: int| 0 <= q < seg@.len() ==> seg@[q] != sep,
            split_sep(s@, sep) =~= r.deep_view() + split_sep(s@.skip(i - seg@.len()), sep),
        decreases n - i,
    {
        let ghost start = i - seg@.len();
        if cs[i] == sep {
            proof {
                let tail = s@.skip(start);
                assert forall|q: int| 0 <= q < seg@.len() implies tail[q] != sep by {
                    assert(tail[q] == seg@[q]);
                }
                assert(tail[seg@.len() as int] == sep);
                lemma_split_at_sep(tail, sep, seg@.len() as int);
                assert(tail.take(seg@.len() as int) =~= seg@);
                assert(tail.skip(seg@.len() as int + 1) =~= s@.skip(i + 1));
            }
            let done = string_from_chars(&seg);
            r.push(done);
            proof {
                assert(r.deep_view() =~= r.deep_view().take(r.deep_view().len() - 1).push(seg@));
                assert(split_sep(s@, sep) =~= r.deep_view() + split_sep(s@.skip(i + 1), sep));
            }
            seg = Vec::new();
        } else {
            seg.push(cs[i]);
            proof {
                assert(seg@ =~= s@.subrange(start, i + 1));
            }
        }
        i = i + 1;
    }
    proof {
        let start = i - seg@.len();
        assert(s@.skip(start) =~= seg@);
        lemma_split_no_sep(seg@, sep);
    }
    let done = string_from_chars(&seg);
    r.push(done);
    proof {
        assert(r.deep_view() =~= r.deep_view().take(r.deep_view().len() - 1).push(seg@));
    }
    r
}

/// The characters of `s`, one per unicode scalar value.
pub fn chars_of(s: &str) -> (r: Vec<char>)
    ensures
        r@ == s@,
{
    let n = s.unicode_len();
    let mut r: Vec<char> = Vec::new();
    let mut i: usize = 0;
    while i < n
        invariant
            n == s@.len(),
            i <= n,
            r@ =~= s@.take(i as int),
        decreases n - i,
    {
        r.push(s.get_char(i));
        i = i + 1;
        proof {
            assert(r@ =~= s@.take(i as int));
        }
    }
    proof {
        assert(s@.take(n as int) =~= s@);
    }
    r
}

/// Relies on `String`'s `FromIterator<char>`: collecting characters yields
/// the string of exactly those characters, in order.
#[verifier::external_body]
pub fn string_from_chars(v: &Vec<char>) -> (s: String)
    ensures
        s@ == v@,
{
    v.iter().collect()
}

/// Whether two character vectors hold the same characters.
pub fn chars_eq(a: &Vec<char>, b: &Vec<char>) -> (r: bool)
    ensures
        r == (a@ == b@),
{
    if a.len() != b.len() {
        proof {
            assert(a@ != b@);
        }
        return false;
    }
    let n = a.len();
    let mut i: usize = 0;
    while i < n
        invariant
            n == a@.len() == b@.len(),
            i <= n,
            forall|j: int| 0 <= j < i ==> a@[j] == b@[j],
        decreases n - i,
    {
        if a[i] != b[i] {
            return false;
        }
        i = i + 1;
    }
    proof {
        assert(a@ =~= b@);
    }
    true
}

pub open spec fn is_csv_special(c: char) -> bool {
    c == ',' || c == '"' || c == '\n'
}

pub open spec fn needs_csv_quoting(s: Seq<char>) -> bool {
    exists|i: int| 0 <= i < s.len() && is_csv_special(s[i])
}

/// Every double quote doubled, all else kept.
pub open spec fn double_quotes(s: Seq<char>) -> Seq<char>
    decreases s.len(),
{
    if s.len() == 0 {
        seq![]
    } else if s[0] == '"' {
        seq!['"', '"'] + double_quotes(s.skip(1))
    } else {
        seq![s[0]] + double_quotes(s.skip(1))
    }
}

/// A field as it stands in a CSV row: wrapped in double quotes, with inner
/// quotes doubled, when it holds a comma, a quote or a newline; else as is.
pub open spec fn csv_escaped(s: Seq<char>) -> Seq<char> {
    if needs_csv_quoting(s) {
        seq!['"'] + double_quotes(s) + seq!['"']
    } else {
        s
    }
}

proof fn lemma_double_quotes_push(s: Seq<char>, c: char)
    ensures
        c == '"' ==> double_quotes(s.push(c)) == double_quotes(s) + seq!['"', '"'],
        c != '"' ==> double_quotes(s.push(c)) == double_quotes(s) + seq![c],
    decreases s.len(),
{
    if s.len() == 0 {
        assert(s.push(c)[0] == c);
        assert(s.push(c).skip(1) =~= Seq::<char>::empty());
        assert(double_quotes(Seq::<char>::empty()) == Seq::<char>::empty());
        if c == '"' {
            assert(double_quotes(s.push(c)) =~= double_quotes(s) + seq!['"', '"']);
        } else {
            assert(double_quotes(s.push(c)) =~= double_quotes(s) + seq![c]);
        }
    } else {
        lemma_double_quotes_push(s.skip(1), c);
        assert(s.push(c)[0] == s[0]);
        assert(s.push(c).skip(1) =~= s.skip(1).push(c));
        let head: Seq<char> = if s[0] == '"' {
            seq!['"', '"']
        } else {
            seq![s[0]]
        };
        assert(double_quotes(s) == head + double_quotes(s.skip(1)));
        assert(double_quotes(s.push(c)) == head + double_quotes(s.skip(1).push(c)));
        if c == '"' {
            assert(double_quotes(s.skip(1).push(c)) == double_quotes(s.skip(1)) + seq!['"', '"']);
            assert(double_quotes(s.push(c)) =~= double_quotes(s) + seq!['"', '"']);
        } else {
            assert(double_quotes(s.skip(1).push(c)) == double_quotes(s.skip(1)) + seq![c]);
            assert(double_quotes(s.push(c)) =~= double_quotes(s) + seq![c]);
        }
    }
}

/// A field of a CSV row, escaped as `csv_escaped` describes.
pub fn escape_csv(s: &str) -> (r: String)
    ensures
        r@ == csv_escaped(s@),
{
    let cs = chars_of(s);
    let n = cs.len();
    let mut special = false;
    let mut i: usize = 0;
    while i < n
        invariant
            n == cs@.len(),
            cs@ == s@,
            i <= n,
            special == exists|j: int| 0 <= j < i && is_csv_special(s@[j]),
        decreases n - i,
    {
        let c = cs[i];
        if c == ',' || c == '"' || c == '\n' {
            special = true;
        }
        i = i + 1;
    }
    if !special {
        return s.to_owned();
    }
    let mut out: Vec<char> = Vec::new();
    out.push('"');
    let mut i: usize = 0;
    while i < n
        invariant
            n == cs@.len(),
            cs@ == s@,
            i <= n,
            out@ == seq!['"'] + double_quotes(s@.take(i as int)),
        decreases n - i,
    {
        proof {
            lemma_double_quotes_push(s@.take(i as int), s@[i as int]);
            assert(s@.take(i as int).push(s@[i as int]) =~= s@.take(i + 1));
        }
        let c = cs[i];
        if c == '"' {
            out.push('"');
            out.push('"');
        } else {
            out.push(c);
        }
        i = i + 1;
        proof {
            assert(out@ =~= seq!['"'] + double_quotes(s@.take(i as int)));
        }
    }
    out.push('"');
    proof {
        assert(s@.take(n as int) =~= s@);
        assert(out@ =~= seq!['"'] + double_quotes(s@) + seq!['"']);
    }
    string_from_chars(&out)
}

/// A tag argument: a `+` followed by the tag itself.
pub fn parse_tag(s: &str) -> (r: Result<String, String>)
    ensures
        match r {
            Ok(t) => s@.len() > 0 && s@[0] == '+' && t@ == s@.skip(1),
            Err(m) => (s@.len() == 0 || s@[0] != '+') && m@ == "tags must start with +: "@ + s@,
        },
{
    let cs = chars_of(s);
    let n = cs.len();
    if n > 0 && cs[0] == '+' {
        let mut rest: Vec<char> = Vec::new();
        let mut i: usize = 1;
        while i < n
            invariant
                n == cs@.len(),
                cs@ == s@,
                1 <= i <= n,
                rest@ == s@.subrange(1, i as int),
            decreases n - i,
        {
            rest.push(cs[i]);
            i = i + 1;
            proof {
                assert(rest@ =~= s@.subrange(1, i as int));
            }
        }
        proof {
            assert(s@.subrange(1, n as int) =~= s@.skip(1));
        }
        Ok(string_from_chars(&rest))
    } else {
        let prefix = "tags must start with +: ";
        let mut msg: Vec<char> = chars_of(prefix);
        let mut i: usize = 0;
        while i < n
            invariant
                n == cs@.len(),
                cs@ == s@,
                i <= n,
                msg@ == prefix@ + s@.take(i as int),
            decreases n - i,
        {
            msg.push(cs[i]);
            i = i + 1;
            proof {
                assert(msg@ =~= prefix@ + s@.take(i as int));
            }
        }
        proof {
            assert(prefix@ + s@.take(n as int) =~= "tags must start with +: "@ + s@);
        }
        Err(string_from_chars(&msg))
    }
}

/// ASCII upper-case letters folded to lower case; all else kept.
pub open spec fn lower_char(c: char) -> char {
    if 65 <= c as u32 && c as u32 <= 90 {
        ((c as u32 + 32) as u8) as char
    } else {
        c
    }
}

pub open spec fn lower_chars(s: Seq<char>) -> Seq<char> {
    s.map_values(|c: char| lower_char(c))
}

/// Whether `s` reads as `t` once ASCII letters are folded to lower case.
pub fn eq_ignore_ascii_case(s: &str, t: &str) -> (r: bool)
    ensures
        r == (lower_chars(s@) == lower_chars(t@)),
{
    let cs = chars_of(s);
    let ct = chars_of(t);
    if cs.len() != ct.len() {
        proof {
            assert(lower_chars(s@).len() != lower_chars(t@).len());
        }
        return false;
    }
    let n = cs.len();
    let mut i: usize = 0;
    while i < n
        invariant
            n == cs@.len() == ct@.len(),
            cs@ == s@,
            ct@ == t@,
            i <= n,
            forall|j: int| 0 <= j < i ==> lower_char(s@[j]) == lower_char(t@[j]),
        decreases n - i,
    {
        let a = cs[i] as u32;
        let b = ct[i] as u32;
        let la = if 65 <= a && a <= 90 {
            a + 32
        } else {
            a
        };
        let lb = if 65 <= b && b <= 90 {
            b + 32
        } else {
            b
        };
        if la != lb {
            proof {
                assert(lower_char(s@[i as int]) != lower_char(t@[i as int]));
                assert(lower_chars(s@)[i as int] != lower_chars(t@)[i as int]);
            }
            return false;
        }
        i = i + 1;
    }
    proof {
        assert(lower_chars(s@) =~= lower_chars(t@));
    }
    true
}

/// `a` at or before `b`: lexicographic order by unicode scalar value,
/// the order the store's text columns sort in.
pub open spec fn lex_le(a: Seq<char>, b: Seq<char>) -> bool
    decreases a.len(),
{
    if a.len() == 0 {
        true
    } else if b.len() == 0 {
        false
    } else if (a[0] as u32) < (b[0] as u32) {
        true
    } else if (a[0] as u32) > (b[0] as u32) {
        false
    } else {
        lex_le(a.skip(1), b.skip(1))
    }
}

pub open spec fn lex_lt(a: Seq<char>, b: Seq<char>) -> bool {
    lex_le(a, b) && a != b
}

/// Two characters with one scalar value are one character.
pub proof fn lemma_char_eq(c: char, d: char)
    requires
        c as u32 == d as u32,
    ensures
        c == d,
{
    vstd::utf8::char_u32_cast(c, c as u32);
    vstd::utf8::char_u32_cast(d, d as u32);
}

/// The lexicographic order is total, and antisymmetric.
pub proof fn lemma_lex_total(a: Seq<char>, b: Seq<char>)
    ensures
        lex_le(a, b) || lex_le(b, a),
        lex_le(a, b) && lex_le(b, a) ==> a == b,
    decreases a.len(),
{
    if a.len() == 0 {
        if lex_le(b, a) {
            assert(a =~= b);
        }
    } else if b.len() == 0 {
    } else if a[0] as u32 == b[0] as u32 {
        lemma_lex_total(a.skip(1), b.skip(1));
        lemma_char_eq(a[0], b[0]);
        if lex_le(a, b) && lex_le(b, a) {
            assert(a.skip(1) == b.skip(1));
            assert(a =~= b) by {
                assert(a.len() == a.skip(1).len() + 1);
                assert(forall|i: int|
                    1 <= i < a.len() ==> a[i] == a.skip(1)[i - 1] && b[i] == b.skip(1)[i - 1]);
            }
        }
    }
}

/// The lexicographic order is transitive.
pub proof fn lemma_lex_trans(a: Seq<char>, b: Seq<char>, c: Seq<char>)
    requires
        lex_le(a, b),
        lex_le(b, c),
    ensures
        lex_le(a, c),
    decreases a.len(),
{
    if a.len() == 0 {
    } else {
        assert(b.len() > 0);
        assert(c.len() > 0);
        if a[0] as u32 == b[0] as u32 && b[0] as u32 == c[0] as u32 {
            lemma_lex_trans(a.skip(1), b.skip(1), c.skip(1));
        }
    }
}

/// Walking past an equal prefix does not change the order.
proof fn lemma_lex_skip(a: Seq<char>, b: Seq<char>, i: int)
    requires
        0 <= i <= a.len(),
        i <= b.len(),
        forall|j: int| 0 <= j < i ==> a[j] == b[j],
    ensures
        lex_le(a, b) == lex_le(a.skip(i), b.skip(i)),
    decreases i,
{
    if i > 0 {
        assert(a.len() > 0 && b.len() > 0);
        assert(a[0] == b[0]);
        assert forall|j: int| 0 <= j < i - 1 implies a.skip(1)[j] == b.skip(1)[j] by {
            assert(a.skip(1)[j] == a[j + 1]);
            assert(b.skip(1)[j] == b[j + 1]);
        }
        lemma_lex_skip(a.skip(1), b.skip(1), i - 1);
        assert(a.skip(1).skip(i - 1) =~= a.skip(i));
        assert(b.skip(1).skip(i - 1) =~= b.skip(i));
        assert(lex_le(a, b) == lex_le(a.skip(1), b.skip(1)));
    } else {
        assert(a.skip(0) =~= a);
        assert(b.skip(0) =~= b);
    }
}

/// Whether `a` sorts at or before `b`.
pub fn str_le(a: &str, b: &str) -> (r: bool)
    ensures
        r == lex_le(a@, b@),
{
    let ca = chars_of(a);
    let cb = chars_of(b);
    let na = ca.len();
    let nb = cb.len();
    let mut i: usize = 0;
    while i < na && i < nb
        invariant
            na == a@.len(),
            nb == b@.len(),
            ca@ == a@,
            cb@ == b@,
            i <= na,
            i <= nb,
            forall|j: int| 0 <= j < i ==> a@[j] == b@[j],
        decreases na - i,
    {
        let x = ca[i] as u32;
        let y = cb[i] as u32;
        if x < y {
            proof {
                lemma_lex_skip(a@, b@, i as int);
            }
            return true;
        }
        if x > y {
            proof {
                lemma_lex_skip(a@, b@, i as int);
            }
            return false;
        }
        proof {
            lemma_char_eq(a@[i as int], b@[i as int]);
        }
        i = i + 1;
    }
    proof {
        lemma_lex_skip(a@, b@, i as int);
    }
    i >= na
}

/// Strictly increasing in lexicographic order: sorted, with no repeats.
pub open spec fn sorted_unique(sv: Seq<Seq<char>>) -> bool {
    forall|k: int, l: int| 0 <= k < l < sv.len() ==> lex_lt(#[trigger] sv[k], #[trigger] sv[l])
}

/// Strictly between two inequalities: `a` before `b`, both ways around.
proof fn lemma_lex_lt_trans(a: Seq<char>, b: Seq<char>, c: Seq<char>)
    requires
        lex_lt(a, b),
        lex_lt(b, c),
    ensures
        lex_lt(a, c),
{
    lemma_lex_trans(a, b, c);
    if a == c {
        lemma_lex_total(b, c);
    }
}

/// Insert `s` into a sorted list of distinct strings, keeping it sorted
/// and dropping nothing but a repeat of `s` itself.
pub fn insert_unique_sorted(v: &mut Vec<String>, s: String)
    requires
        sorted_unique(old(v).deep_view()),
    ensures
        sorted_unique(final (v).deep_view()),
        final (v).deep_view().contains(s@),
        forall|x: Seq<char>|
            #[trigger] final (v).deep_view().contains(x) ==> old(v).deep_view().contains(x) || x
                == s@,
        forall|x: Seq<char>|
            #[trigger] old(v).deep_view().contains(x) ==> final (v).deep_view().contains(x),
{
    let ghost dv = v.deep_view();
    let n = v.len();
    proof {
        assert(dv.len() == n);
    }
    let mut i: usize = 0;
    let mut stop = false;
    while i < n && !stop
        invariant
            n == v@.len(),
            v@ == old(v)@,
            dv == v.deep_view(),
            dv.len() == n,
            i <= n,
            forall|k: int| 0 <= k < i ==> lex_lt(#[trigger] dv[k], s@),
            stop ==> i < n && !lex_lt(dv[i as int], s@),
        decreases n - i, (if stop {
            0int
        } else {
            1int
        }),
    {
        proof {
            assert(dv[i as int] == v@[i as int]@);
        }
        let le = str_le(v[i].as_str(), s.as_str());
        let eq = str_eq(v[i].as_str(), s.as_str());
        if le && !eq {
            i = i + 1;
        } else {
            stop = true;
        }
    }
    if i < n {
        proof {
            assert(dv[i as int] == v@[i as int]@);
        }
        if str_eq(v[i].as_str(), s.as_str()) {
            proof {
                assert(dv.contains(s@)) by {
                    assert(dv[i as int] == s@);
                }
            }
            return ;
        }
    }
    let ghost pos = i as int;
    v.insert(i, s);
    proof {
        let dv1 = v.deep_view();
        assert(dv1.len() == dv.len() + 1);
        assert forall|k: int| 0 <= k < dv1.len() implies dv1[k] == (if k < pos {
            dv[k]
        } else if k == pos {
            s@
        } else {
            dv[k - 1]
        }) by {
            assert(dv1[k] == v@[k]@);
            if k < pos {
                assert(v@[k] == old(v)@[k]);
            } else if k > pos {
                assert(v@[k] == old(v)@[k - 1]);
            }
        }
        if pos < dv.len() {
            assert(!lex_lt(dv[pos], s@) && dv[pos] != s@);
            lemma_lex_total(dv[pos], s@);
            assert(lex_lt(s@, dv[pos]));
        }
        assert forall|k: int, l: int| 0 <= k < l < dv1.len() implies lex_lt(dv1[k], dv1[l]) by {
            if l < pos {
            } else if l == pos {
                assert(lex_lt(dv[k], s@));
            } else if k == pos {
                if l - 1 > pos {
                    lemma_lex_lt_trans(s@, dv[pos], dv[l - 1]);
                }
            } else if k < pos {
                assert(lex_lt(dv[k], dv[l - 1]));
            } else {
                assert(lex_lt(dv[k - 1], dv[l - 1]));
            }
        }
        assert(dv1.contains(s@)) by {
            assert(dv1[pos] == s@);
        }
        assert forall|x: Seq<char>| #[trigger] dv1.contains(x) implies dv.contains(x) || x
            == s@ by {
            let k = choose|k: int| 0 <= k < dv1.len() && dv1[k] == x;
            if k < pos {
                assert(dv[k] == x);
            } else if k > pos {
                assert(dv[k - 1] == x);
            }
        }
        assert forall|x: Seq<char>| #[trigger] dv.contains(x) implies dv1.contains(x) by {
            let k = choose|k: int| 0 <= k < dv.len() && dv[k] == x;
            if k < pos {
                assert(dv1[k] == x);
            } else {
                assert(dv1[k + 1] == x);
            }
        }
    }
}

/// Whether two string slices hold the same characters.
pub fn str_eq(a: &str, b: &str) -> (r: bool)
    ensures
        r == (a@ == b@),
{
    let ca = chars_of(a);
    let cb = chars_of(b);
    chars_eq(&ca, &cb)
}

} // verus!
