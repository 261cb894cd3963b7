//! The flat-file log format: entries between `%%START%%` and `%%END%%`
//! lines, with a date line and a `%%TAGS%%` line.
use vstd::prelude::*;

use crate::models::RawJot;
use crate::stardate::{timestamp_in_range, StarDate};
use crate::text::{
    char_views, chars_of, parse_tags, split_on, string_of, string_views, strictly_sorted, tag_set,
    trim, trim_of,
};

verus! {

/// The seconds since the epoch of a line read as `%Y-%m-%d %H:%M:%S` in UTC.
pub uninterp spec fn parsed_timestamp(line: Seq<char>) -> Option<i64>;

/// Relies on chrono::NaiveDateTime::parse_from_str with format
/// `%Y-%m-%d %H:%M:%S`, taken as UTC: the outcome depends on the text alone.
#[verifier::external_body]
fn parse_date(line: &str) -> (r: Option<i64>)
    ensures
        r == parsed_timestamp(line@),
{
    match chrono::NaiveDateTime::parse_from_str(line, "%Y-%m-%d %H:%M:%S") {
        Ok(d) => Some(d.and_utc().timestamp()),
        Err(_) => None,
    }
}

/// A line with a trailing carriage return removed.
pub open spec fn strip_cr(l: Seq<char>) -> Seq<char> {
    if l.len() > 0 && l.last() == '\r' {
        l.drop_last()
    } else {
        l
    }
}

pub open spec fn stripped(p: Seq<Seq<char>>) -> Seq<Seq<char>> {
    p.map_values(|l: Seq<char>| strip_cr(l))
}

/// The lines of a text: split at `\n`, a `\r` before it dropped, and no empty
/// line after a final `\n`.
pub open spec fn lines_of(s: Seq<char>) -> Seq<Seq<char>> {
    let p = split_on(s, '\n');
    if p.last().len() == 0 {
        stripped(p.drop_last())
    } else {
        stripped(p.drop_last()).push(p.last())
    }
}

/// The lines of a text.
pub fn split_lines(s: &str) -> (r: Vec<Vec<char>>)
    ensures
        char_views(r@) == lines_of(s@),
{
    let cs = chars_of(s);
    let mut done: Vec<Vec<char>> = Vec::new();
    let mut cur: Vec<char> = Vec::new();
    let mut i: usize = 0;
    assert(cs@.subrange(0, 0) =~= Seq::<char>::empty());
    assert(cur@ =~= Seq::<char>::empty());
    assert(char_views(done@) =~= stripped(split_on(cs@.subrange(0, 0), '\n').drop_last()));
    while i < cs.len()
        invariant
            0 <= i <= cs@.len(),
            cs@ == s@,
            split_on(cs@.subrange(0, i as int), '\n').len() >= 1,
            split_on(cs@.subrange(0, i as int), '\n').last() == cur@,
            char_views(done@) == stripped(split_on(cs@.subrange(0, i as int), '\n').drop_last()),
        decreases cs@.len() - i,
    {
        let c = cs[i];
        let ghost pre = cs@.subrange(0, i as int);
        let ghost sp = split_on(pre, '\n');
        assert(cs@.subrange(0, i + 1).drop_last() =~= pre);
        assert(cs@.subrange(0, i + 1).last() == c);
        if c == '\n' {
            let n = cur.len();
            if n > 0 && cur[n - 1] == '\r' {
                cur.pop();
            }
            assert(cur@ == strip_cr(sp.last()));
            let ghost old_done = done@;
            done.push(cur);
            cur = Vec::new();
            assert(split_on(cs@.subrange(0, i + 1), '\n') == sp.push(Seq::<char>::empty()));
            assert(sp.push(Seq::<char>::empty()).drop_last() =~= sp);
            assert(stripped(sp) =~= stripped(sp.drop_last()).push(strip_cr(sp.last())));
            assert(char_views(done@) =~= char_views(old_done).push(strip_cr(sp.last())));
            assert(cur@ =~= Seq::<char>::empty());
        } else {
            cur.push(c);
            let ghost sp2 = split_on(cs@.subrange(0, i + 1), '\n');
            assert(sp2 == sp.update(sp.len() - 1, sp.last().push(c)));
            assert(sp2.drop_last() =~= sp.drop_last());
        }
        i = i + 1;
    }
    assert(cs@.subrange(0, cs@.len() as int) =~= cs@);
    if cur.len() > 0 {
        let ghost old_done = done@;
        done.push(cur);
        assert(char_views(done@) =~= char_views(old_done).push(split_on(cs@, '\n').last()));
    }
    done
}

/// A line that starts with a date and time: `dddd-dd-dd dd:dd:dd`.
pub open spec fn is_date_line(l: Seq<char>) -> bool {
    &&& l.len() >= 19
    &&& forall|i: int| 0 <= i < 19 ==> date_shape_at(#[trigger] l[i], i)
}

/// What the date pattern asks of position `i`.
pub open spec fn date_shape_at(c: char, i: int) -> bool {
    if i == 4 || i == 7 {
        c == '-'
    } else if i == 10 {
        c == ' '
    } else if i == 13 || i == 16 {
        c == ':'
    } else {
        '0' <= c && c <= '9'
    }
}

fn is_date_line_exec(l: &Vec<char>) -> (r: bool)
    ensures
        r == is_date_line(l@),
{
    if l.len() < 19 {
        return false;
    }
    let mut i: usize = 0;
    while i < 19
        invariant
            0 <= i <= 19,
            l@.len() >= 19,
            forall|j: int| 0 <= j < i ==> date_shape_at(#[trigger] l@[j], j),
        decreases 19 - i,
    {
        let c = l[i];
        let ok = if i == 4 || i == 7 {
            c == '-'
        } else if i == 10 {
            c == ' '
        } else if i == 13 || i == 16 {
            c == ':'
        } else {
            '0' <= c && c <= '9'
        };
        if !ok {
            assert(!date_shape_at(l@[i as int], i as int));
            return false;
        }
        i = i + 1;
    }
    true
}

/// Whether `l` starts with `p`.
fn starts_with(l: &Vec<char>, p: &Vec<char>) -> (r: bool)
    ensures
        r == (l@.len() >= p@.len() && l@.subrange(0, p@.len() as int) == p@),
{
    if l.len() < p.len() {
        return false;
    }
    let mut i: usize = 0;
    while i < p.len()
        invariant
            0 <= i <= p@.len(),
            l@.len() >= p@.len(),
            l@.subrange(0, i as int) == p@.subrange(0, i as int),
        decreases p@.len() - i,
    {
        if l[i] != p[i] {
            assert(l@.subrange(0, p@.len() as int)[i as int] != p@[i as int]);
            return false;
        }
        assert(l@.subrange(0, i + 1) =~= l@.subrange(0, i as int).push(l@[i as int]));
        assert(p@.subrange(0, i + 1) =~= p@.subrange(0, i as int).push(p@[i as int]));
        i = i + 1;
    }
    assert(p@.subrange(0, p@.len() as int) =~= p@);
    true
}

/// Whether `l` is exactly `p`.
fn same_chars(l: &Vec<char>, p: &Vec<char>) -> (r: bool)
    ensures
        r == (l@ == p@),
{
    let r = l.len() == p.len() && starts_with(l, p);
    proof {
        if l@.len() == p@.len() {
            assert(l@ =~= l@.subrange(0, p@.len() as int));
        }
    }
    r
}

pub open spec fn start_marker() -> Seq<char> {
    "%%START%%"@
}

pub open spec fn end_marker() -> Seq<char> {
    "%%END%%"@
}

pub open spec fn tags_marker() -> Seq<char> {
    "%%TAGS%% "@
}

/// A `%%TAGS%% ` line; the rest of it is the tag line.
pub open spec fn is_tags_line(l: Seq<char>) -> bool {
    l.len() >= tags_marker().len() && l.subrange(0, tags_marker().len() as int) == tags_marker()
}

/// One entry as read: its raw content lines, date and tag line.
pub struct LawgEntry {
    pub content: Seq<char>,
    pub date: StarDate,
    pub tagline: Option<Seq<char>>,
}

/// Where the reading of a log stands after some lines.
pub struct LawgState {
    /// The entries closed so far; an entry whose date line did not parse is
    /// the number of that line.
    pub entries: Seq<Result<LawgEntry, nat>>,
    pub content: Seq<char>,
    pub date: StarDate,
    pub bad_date: Option<nat>,
    pub tagline: Option<Seq<char>>,
}

/// The date of an entry before any date line: 1973-07-13T00:00:00Z.
pub open spec fn default_date() -> StarDate {
    StarDate::spec_at(111_369_600, 0)
}

pub open spec fn initial_state() -> LawgState {
    LawgState {
        entries: Seq::empty(),
        content: Seq::empty(),
        date: default_date(),
        bad_date: None,
        tagline: None,
    }
}

/// Reading line number `n` (counted from 1).
pub open spec fn read_line(st: LawgState, line: Seq<char>, n: nat) -> LawgState {
    if line == start_marker() {
        st
    } else if is_date_line(line) {
        match parsed_timestamp(line) {
            Some(secs) if timestamp_in_range(secs, 0) => LawgState {
                date: StarDate::spec_at(secs, 0),
                bad_date: None,
                ..st
            },
            _ => LawgState { bad_date: Some(n), ..st },
        }
    } else if is_tags_line(line) {
        LawgState { tagline: Some(line.subrange(tags_marker().len() as int, line.len() as int)), ..st }
    } else if line == end_marker() {
        LawgState {
            entries: st.entries.push(
                match st.bad_date {
                    Some(l) => Err(l),
                    None => Ok(LawgEntry { content: st.content, date: st.date, tagline: st.tagline }),
                },
            ),
            content: Seq::empty(),
            tagline: None,
            ..st
        }
    } else {
        LawgState { content: st.content + seq!['\n'] + line, ..st }
    }
}

pub open spec fn read_lines(lines: Seq<Seq<char>>) -> LawgState
    decreases lines.len(),
{
    if lines.len() == 0 {
        initial_state()
    } else {
        read_line(read_lines(lines.drop_last()), lines.last(), lines.len())
    }
}

/// The tags that a tag line, or its absence, stands for.
pub open spec fn tagline_set(t: Option<Seq<char>>) -> Set<Seq<char>> {
    match t {
        Some(s) => tag_set(split_on(s, ',')),
        None => Set::empty(),
    }
}

/// A log entry whose date line did not parse.
#[derive(Clone, Copy, Debug, PartialEq, Eq, Structural)]
pub struct LawgError {
    /// The number of the date line, counted from 1.
    pub line: usize,
}

/// A parsed entry against the entry as read.
pub open spec fn entry_matches(r: Result<RawJot, LawgError>, e: Result<LawgEntry, nat>) -> bool {
    match (r, e) {
        (Ok(j), Ok(x)) => {
            &&& j.content@ == trim_of(x.content)
            &&& j.creation_date == x.date
            &&& strictly_sorted(string_views(j.tags@))
            &&& string_views(j.tags@).to_set() == tagline_set(x.tagline)
        },
        (Err(err), Err(l)) => err.line as int == l,
        _ => false,
    }
}

/// Reads the entries of a log: content is trimmed, tags parsed from the last
/// `%%TAGS%%` line of the entry, and the date is that of the last date line
/// so far. An entry under a date line that does not parse is an error that
/// names the line; the other entries are unaffected.
pub fn parse_lawg(log: &str) -> (r: Vec<Result<RawJot, LawgError>>)
    ensures
        r@.len() == read_lines(lines_of(log@)).entries.len(),
        forall|k: int|
            0 <= k < r@.len() ==> entry_matches(
                #[trigger] r@[k],
                read_lines(lines_of(log@)).entries[k],
            ),
{
    let lines = split_lines(log);
    let ghost ls = char_views(lines@);
    let start = chars_of("%%START%%");
    let end = chars_of("%%END%%");
    let tag_mark = chars_of("%%TAGS%% ");
    let mut jots: Vec<Result<RawJot, LawgError>> = Vec::new();
    let mut content: Vec<char> = Vec::new();
    let mut date = match StarDate::from_timestamp(111_369_600, 0) {
        Some(d) => d,
        None => {
            assert(false);
            return jots;
        },
    };
    let mut bad: Option<usize> = None;
    let mut tags: Vec<String> = Vec::new();
    let ghost mut tagline: Option<Seq<char>> = None;
    let mut i: usize = 0;
    assert(ls.subrange(0, 0) =~= Seq::<Seq<char>>::empty());
    assert(content@ =~= Seq::<char>::empty());
    assert(string_views(tags@).to_set() =~= Set::<Seq<char>>::empty());
    while i < lines.len()
        invariant
            0 <= i <= lines@.len(),
            ls == char_views(lines@),
            ls == lines_of(log@),
            start@ == start_marker(),
            end@ == end_marker(),
            tag_mark@ == tags_marker(),
            ({
                let st = read_lines(ls.subrange(0, i as int));
                &&& jots@.len() == st.entries.len()
                &&& forall|k: int| 0 <= k < jots@.len() ==> entry_matches(#[trigger] jots@[k], st.entries[k])
                &&& content@ == st.content
                &&& date == st.date
                &&& match bad {
                    Some(l) => st.bad_date == Some(l as nat),
                    None => st.bad_date is None,
                }
                &&& tagline == st.tagline
                &&& strictly_sorted(string_views(tags@))
                &&& string_views(tags@).to_set() == tagline_set(tagline)
            }),
        decreases lines@.len() - i,
    {
        let ghost st = read_lines(ls.subrange(0, i as int));
        assert(ls.subrange(0, i + 1).drop_last() =~= ls.subrange(0, i as int));
        assert(ls.subrange(0, i + 1).last() == lines@[i as int]@);
        let line = &lines[i];
        if same_chars(line, &start) {
        } else if is_date_line_exec(line) {
            let text = string_of(line.as_slice());
            let parsed = match parse_date(text.as_str()) {
                Some(secs) => StarDate::from_timestamp(secs, 0),
                None => None,
            };
            match parsed {
                Some(d) => {
                    date = d;
                    bad = None;
                },
                None => {
                    bad = Some(i + 1);
                },
            }
        } else if starts_with(line, &tag_mark) {
            proof {
                reveal_strlit("%%TAGS%% ");
            }
            let rest = string_of(vstd::slice::slice_subrange(line.as_slice(), 9, line.len()));
            tags = parse_tags(rest.as_str());
            proof {
                tagline = Some(line@.subrange(9, line@.len() as int));
            }
        } else if same_chars(line, &end) {
            let text = string_of(content.as_slice());
            let trimmed = trim(text.as_str());
            let entry = match bad {
                Some(l) => Err(LawgError { line: l }),
                None => Ok(RawJot { content: trimmed, creation_date: date, tags }),
            };
            let ghost old_jots = jots@;
            jots.push(entry);
            assert(jots@ == old_jots.push(entry));
            tags = Vec::new();
            content = Vec::new();
            proof {
                tagline = None;
            }
            assert(string_views(tags@).to_set() =~= Set::<Seq<char>>::empty());
            assert(content@ =~= Seq::<char>::empty());
        } else {
            content.push('\n');
            let mut k: usize = 0;
            let ghost c0 = content@;
            while k < line.len()
                invariant
                    0 <= k <= line@.len(),
                    content@ == c0 + line@.subrange(0, k as int),
                decreases line@.len() - k,
            {
                content.push(line[k]);
                assert(line@.subrange(0, k + 1) =~= line@.subrange(0, k as int).push(line@[k as int]));
                k = k + 1;
            }
            assert(line@.subrange(0, line@.len() as int) =~= line@);
        }
        i = i + 1;
    }
    assert(ls.subrange(0, lines@.len() as int) =~= ls);
    jots
}

} // verus!
