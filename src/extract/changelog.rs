//! Changelog entries: a text is a run of entries, each opening with a header
//! line `* Title YYYY-MM-DD ...` (optionally followed by a time and tags such
//! as `[memo]:[dev]:`) and running up to the next header.
//!
//! Offsets are counted in characters.
use vstd::prelude::*;

use super::{extracted_from, truncate_to, ExtractedContent, TruncationConfig};
use crate::loader::document::strings_view;
use crate::text::{
    chars_of, contains_chars, count_lines, is_digit, line_count, occurs_in, string_of,
    sub_chars, trim, trim_end, trim_end_at, trim_start_at,
};

verus! {

/// Where the line that contains position `p` of `s` ends: the next `\n` at or
/// after `p`, or the end of `s`.
pub open spec fn line_end(s: Seq<char>, p: int) -> int
    decreases s.len() - p,
{
    if p < 0 || p >= s.len() {
        s.len() as int
    } else if s[p] == '\n' {
        p
    } else {
        line_end(s, p + 1)
    }
}

/// The line that starts at `p`, without its line break (`\n` or `\r\n`).
pub open spec fn line_at(s: Seq<char>, p: int) -> Seq<char> {
    let e = line_end(s, p);
    let l = s.subrange(p, e);
    if e < s.len() && l.len() > 0 && l.last() == '\r' {
        l.drop_last()
    } else {
        l
    }
}

/// A line starts at `p`.
pub open spec fn is_line_start(s: Seq<char>, p: int) -> bool {
    0 <= p < s.len() && (p == 0 || s[p - 1] == '\n')
}

/// A date `DDDD-DD-DD` stands at `q` of `l`.
pub open spec fn date_at(l: Seq<char>, q: int) -> bool {
    &&& 0 <= q && q + 10 <= l.len()
    &&& is_digit(l[q]) && is_digit(l[q + 1]) && is_digit(l[q + 2]) && is_digit(l[q + 3])
    &&& l[q + 4] == '-' && is_digit(l[q + 5]) && is_digit(l[q + 6])
    &&& l[q + 7] == '-' && is_digit(l[q + 8]) && is_digit(l[q + 9])
}

/// `l` is an entry header: `* `, at least one character, a space, a date.
pub open spec fn is_header(l: Seq<char>) -> bool {
    &&& l.len() >= 2 && l[0] == '*' && l[1] == ' '
    &&& exists|j: int| 3 <= j < l.len() && l[j] == ' ' && #[trigger] date_at(l, j + 1)
}

/// A header line starts at position `p` of `s`.
pub open spec fn starts_entry(s: Seq<char>) -> spec_fn(int) -> bool {
    |p: int| is_line_start(s, p) && is_header(line_at(s, p))
}

/// The positions of the header lines of `s`, in order.
pub open spec fn header_starts(s: Seq<char>) -> Seq<int> {
    Seq::new(s.len(), |i: int| i).filter(starts_entry(s))
}

/// Where entry `i` ends: at the next header, or at the end of the text.
pub open spec fn entry_end(s: Seq<char>, i: int) -> int {
    if i + 1 < header_starts(s).len() {
        header_starts(s)[i + 1]
    } else {
        s.len() as int
    }
}

/// `l` without its leading `* ` markers.
pub open spec fn strip_stars(l: Seq<char>) -> Seq<char>
    decreases l.len(),
{
    if l.len() >= 2 && l[0] == '*' && l[1] == ' ' {
        strip_stars(l.skip(2))
    } else {
        l
    }
}

/// The first date at or after `from`, or the length of `t`.
pub open spec fn next_date(t: Seq<char>, from: int) -> int
    decreases t.len() - from,
{
    if from < 0 || from + 10 > t.len() {
        t.len() as int
    } else if date_at(t, from) {
        from
    } else {
        next_date(t, from + 1)
    }
}

/// The date of a header line.
pub open spec fn header_date(l: Seq<char>) -> Seq<char> {
    let t = strip_stars(l);
    let q = next_date(t, 0);
    if q + 10 <= t.len() {
        t.subrange(q, q + 10)
    } else {
        Seq::empty()
    }
}

/// The title of a header line: what stands before the date, trimmed.
pub open spec fn header_title(l: Seq<char>) -> Seq<char> {
    let t = strip_stars(l);
    trim(t.take(next_date(t, 0)))
}

/// The first `]` at or after `from`, or the length of `l`.
pub open spec fn next_close(l: Seq<char>, from: int) -> int
    decreases l.len() - from,
{
    if from < 0 || from >= l.len() {
        l.len() as int
    } else if l[from] == ']' {
        from
    } else {
        next_close(l, from + 1)
    }
}

/// The tags of `l` from position `i` on: each non-empty text between a `[`
/// and the next `]`, scanning left to right.
pub open spec fn tags_from(l: Seq<char>, i: int) -> Seq<Seq<char>>
    decreases l.len() - i,
{
    if i < 0 || i >= l.len() {
        Seq::empty()
    } else if l[i] == '[' && i + 1 < next_close(l, i + 1) < l.len() {
        seq![l.subrange(i + 1, next_close(l, i + 1))] + tags_from(l, next_close(l, i + 1) + 1)
    } else {
        tags_from(l, i + 1)
    }
}

/// The title of entry `i` of `s`.
pub open spec fn entry_title(s: Seq<char>, i: int) -> Seq<char> {
    header_title(line_at(s, header_starts(s)[i]))
}

/// The content of entry `i` of `s`: its text, header included, without
/// trailing white space.
pub open spec fn entry_content(s: Seq<char>, i: int) -> Seq<char> {
    trim_end(s.subrange(header_starts(s)[i], entry_end(s, i)))
}

/// A parsed changelog entry.
pub struct ChangelogEntry {
    /// Title, without the `* ` marker and the date.
    pub title: String,
    /// Date, `YYYY-MM-DD`.
    pub date: String,
    /// Tags, from `[tag]` groups of the header.
    pub tags: Vec<String>,
    /// The whole entry, header included, without trailing white space.
    pub content: String,
    /// Character offset where the entry starts.
    pub start_offset: usize,
    /// Character offset where the entry ends.
    pub end_offset: usize,
}

/// `e` is entry `i` of `s`.
pub open spec fn is_entry(s: Seq<char>, i: int, e: ChangelogEntry) -> bool {
    let p = header_starts(s)[i];
    let l = line_at(s, p);
    &&& e.start_offset == p
    &&& e.end_offset == entry_end(s, i)
    &&& e.title@ == header_title(l)
    &&& e.date@ == header_date(l)
    &&& strings_view(e.tags@) == tags_from(l, 0)
    &&& e.content@ == entry_content(s, i)
}

/// `r` is what `extract_current_entry` gives for `s`: the first entry, or the
/// whole text when there is none, cut to `max` characters.
pub open spec fn current_entry_extract(r: ExtractedContent, s: Seq<char>, max: Option<usize>) -> bool {
    if header_starts(s).len() > 0 {
        extracted_from(r, entry_content(s, 0), s, max)
    } else {
        extracted_from(r, s, s, max)
    }
}

/// The positions, as integers.
pub open spec fn positions_view(v: Seq<usize>) -> Seq<int> {
    v.map_values(|x: usize| x as int)
}

pub(crate) fn line_end_exec(cs: &Vec<char>, p: usize) -> (e: usize)
    requires
        p <= cs@.len(),
    ensures
        e == line_end(cs@, p as int),
        p <= e <= cs@.len(),
{
    let mut i = p;
    while i < cs.len() && cs[i] != '\n'
        invariant
            p <= i <= cs@.len(),
            line_end(cs@, p as int) == line_end(cs@, i as int),
        decreases cs@.len() - i,
    {
        i = i + 1;
    }
    i
}

pub(crate) fn line_exec(cs: &Vec<char>, p: usize) -> (r: Vec<char>)
    requires
        p <= cs@.len(),
    ensures
        r@ == line_at(cs@, p as int),
{
    let e = line_end_exec(cs, p);
    if e < cs.len() && e > p && cs[e - 1] == '\r' {
        let r = sub_chars(cs, p, e - 1);
        assert(r@ =~= cs@.subrange(p as int, e as int).drop_last());
        r
    } else {
        sub_chars(cs, p, e)
    }
}

pub(crate) fn is_digit_exec(c: char) -> (r: bool)
    ensures
        r == is_digit(c),
{
    '0' <= c && c <= '9'
}

pub(crate) fn date_at_exec(l: &Vec<char>, q: usize) -> (r: bool)
    ensures
        r == date_at(l@, q as int),
{
    if q > l.len() || l.len() - q < 10 {
        return false;
    }
    is_digit_exec(l[q]) && is_digit_exec(l[q + 1]) && is_digit_exec(l[q + 2]) && is_digit_exec(
        l[q + 3],
    ) && l[q + 4] == '-' && is_digit_exec(l[q + 5]) && is_digit_exec(l[q + 6]) && l[q + 7] == '-'
        && is_digit_exec(l[q + 8]) && is_digit_exec(l[q + 9])
}

fn header_exec(l: &Vec<char>) -> (r: bool)
    ensures
        r == is_header(l@),
{
    if l.len() < 2 || l[0] != '*' || l[1] != ' ' {
        return false;
    }
    let mut j: usize = 3;
    while j < l.len()
        invariant
            3 <= j,
            l@.len() >= 2,
            l@[0] == '*',
            l@[1] == ' ',
            forall|x: int| 3 <= x < j && x < l@.len() ==> !(l@[x] == ' ' && #[trigger] date_at(l@, x + 1)),
        decreases l@.len() - j,
    {
        if l[j] == ' ' && date_at_exec(l, j + 1) {
            assert(date_at(l@, j as int + 1));
            return true;
        }
        j = j + 1;
    }
    false
}

/// The positions of the header lines of `cs`.
fn header_positions(cs: &Vec<char>) -> (r: Vec<usize>)
    ensures
        positions_view(r@) == header_starts(cs@),
        forall|a: int, b: int| 0 <= a < b < r@.len() ==> r@[a] < r@[b],
        forall|a: int| 0 <= a < r@.len() ==> r@[a] < cs@.len(),
{
    let ghost s = cs@;
    let ghost all = Seq::new(s.len(), |i: int| i);
    let mut r: Vec<usize> = Vec::new();
    let mut p: usize = 0;
    while p < cs.len()
        invariant
            p <= s.len(),
            s == cs@,
            all == Seq::new(s.len(), |i: int| i),
            positions_view(r@) == all.take(p as int).filter(starts_entry(s)),
            forall|a: int, b: int| 0 <= a < b < r@.len() ==> r@[a] < r@[b],
            forall|a: int| 0 <= a < r@.len() ==> r@[a] < p,
        decreases s.len() - p,
    {
        let ghost before = r@;
        let starts = if p == 0 || cs[p - 1] == '\n' {
            let l = line_exec(cs, p);
            header_exec(&l)
        } else {
            false
        };
        proof {
            reveal(Seq::filter);
            assert(all.take(p + 1).drop_last() =~= all.take(p as int));
            assert(all.take(p + 1).last() == p as int);
            assert(starts == starts_entry(s)(p as int));
        }
        if starts {
            r.push(p);
            assert(positions_view(r@) =~= positions_view(before).push(p as int));
        }
        p = p + 1;
    }
    assert(all.take(s.len() as int) =~= all);
    r
}

/// How many characters of leading `* ` markers `l` has.
fn strip_stars_exec(l: &Vec<char>) -> (k: usize)
    ensures
        k <= l@.len(),
        l@.skip(k as int) == strip_stars(l@),
{
    let mut k: usize = 0;
    assert(l@.skip(0) =~= l@);
    while k < l.len() && l.len() - k >= 2 && l[k] == '*' && l[k + 1] == ' '
        invariant
            k <= l@.len(),
            strip_stars(l@.skip(k as int)) == strip_stars(l@),
        decreases l@.len() - k,
    {
        assert(l@.skip(k as int).skip(2) =~= l@.skip(k + 2));
        k = k + 2;
    }
    k
}

fn next_date_exec(t: &Vec<char>, from: usize) -> (q: usize)
    requires
        from <= t@.len(),
    ensures
        q == next_date(t@, from as int),
        q <= t@.len(),
{
    let mut q = from;
    while q < t.len() && t.len() - q >= 10 && !date_at_exec(t, q)
        invariant
            from <= q <= t@.len(),
            next_date(t@, from as int) == next_date(t@, q as int),
        decreases t@.len() - q,
    {
        q = q + 1;
    }
    if q < t.len() && t.len() - q >= 10 {
        q
    } else {
        t.len()
    }
}

fn next_close_exec(l: &Vec<char>, from: usize) -> (c: usize)
    requires
        from <= l@.len(),
    ensures
        c == next_close(l@, from as int),
        from <= c <= l@.len(),
{
    let mut c = from;
    while c < l.len() && l[c] != ']'
        invariant
            from <= c <= l@.len(),
            next_close(l@, from as int) == next_close(l@, c as int),
        decreases l@.len() - c,
    {
        c = c + 1;
    }
    c
}

/// The tags of a header line.
fn extract_tags(l: &Vec<char>) -> (r: Vec<String>)
    ensures
        strings_view(r@) == tags_from(l@, 0),
{
    let mut r: Vec<String> = Vec::new();
    let mut i: usize = 0;
    while i < l.len()
        invariant
            i <= l@.len(),
            strings_view(r@) + tags_from(l@, i as int) == tags_from(l@, 0),
        decreases l@.len() - i,
    {
        let ghost before = r@;
        if l[i] == '[' {
            let c = next_close_exec(l, i + 1);
            if c > i + 1 && c < l.len() {
                let inner = sub_chars(l, i + 1, c);
                r.push(string_of(inner.as_slice()));
                proof {
                    assert(strings_view(r@) =~= strings_view(before).push(l@.subrange(i + 1, c as int)));
                    assert(strings_view(r@) + tags_from(l@, c + 1) =~= strings_view(before) + tags_from(
                        l@,
                        i as int,
                    ));
                }
                i = c + 1;
            } else {
                i = i + 1;
            }
        } else {
            i = i + 1;
        }
    }
    assert(strings_view(r@) + tags_from(l@, i as int) =~= strings_view(r@));
    r
}

/// The title, date and tags of the entry whose header starts at `p`, with
/// its text `cs[p..end]`.
fn parse_single_entry(cs: &Vec<char>, p: usize, end: usize) -> (e: ChangelogEntry)
    requires
        p <= end <= cs@.len(),
    ensures
        e.start_offset == p,
        e.end_offset == end,
        e.title@ == header_title(line_at(cs@, p as int)),
        e.date@ == header_date(line_at(cs@, p as int)),
        strings_view(e.tags@) == tags_from(line_at(cs@, p as int), 0),
        e.content@ == trim_end(cs@.subrange(p as int, end as int)),
{
    let l = line_exec(cs, p);
    let k = strip_stars_exec(&l);
    let t = sub_chars(&l, k, l.len());
    assert(t@ =~= l@.skip(k as int));
    let q = next_date_exec(&t, 0);
    let date = if q < t.len() && t.len() - q >= 10 {
        string_of(sub_chars(&t, q, q + 10).as_slice())
    } else {
        String::new()
    };
    let a = trim_start_at(&t, 0, q);
    let b = trim_end_at(&t, a, q);
    assert(t@.subrange(0, q as int) =~= t@.take(q as int));
    let title = string_of(sub_chars(&t, a, b).as_slice());
    let tags = extract_tags(&l);
    let stop = trim_end_at(cs, p, end);
    let content = string_of(sub_chars(cs, p, stop).as_slice());
    ChangelogEntry { title, date, tags, content, start_offset: p, end_offset: end }
}

/// Whether the line `line` is an entry header.
pub fn is_entry_header(line: &str) -> (r: bool)
    ensures
        r == is_header(line@),
{
    header_exec(&chars_of(line))
}

/// Splits changelog text into entries and extracts from them.
pub struct ChangelogEntryExtractor {
    pub truncation: TruncationConfig,
}

impl ChangelogEntryExtractor {
    /// An extractor with these limits.
    pub fn new(truncation: TruncationConfig) -> (r: Self)
        ensures
            r.truncation == truncation,
    {
        ChangelogEntryExtractor { truncation }
    }

    /// All entries of `text`, in order: one for each header line.
    pub fn parse_entries(&self, text: &str) -> (r: Vec<ChangelogEntry>)
        ensures
            r@.len() == header_starts(text@).len(),
            forall|i: int| 0 <= i < r@.len() ==> is_entry(text@, i, #[trigger] r@[i]),
    {
        let cs = chars_of(text);
        let hs = header_positions(&cs);
        let ghost h = header_starts(cs@);
        let mut r: Vec<ChangelogEntry> = Vec::new();
        let mut i: usize = 0;
        while i < hs.len()
            invariant
                i <= hs@.len(),
                cs@ == text@,
                h == header_starts(cs@),
                positions_view(hs@) == h,
                forall|a: int, b: int| 0 <= a < b < hs@.len() ==> hs@[a] < hs@[b],
                forall|a: int| 0 <= a < hs@.len() ==> hs@[a] < cs@.len(),
                r@.len() == i,
                forall|x: int| 0 <= x < i ==> is_entry(text@, x, #[trigger] r@[x]),
            decreases hs@.len() - i,
        {
            let p = hs[i];
            let end = if i + 1 < hs.len() {
                hs[i + 1]
            } else {
                cs.len()
            };
            assert(h[i as int] == p as int);
            assert(i + 1 < hs@.len() ==> h[i + 1] == hs@[i + 1] as int);
            let e = parse_single_entry(&cs, p, end);
            r.push(e);
            i = i + 1;
        }
        r
    }

    /// The first entry whose title or content holds `title`, cut to the
    /// character limit; `None` when no entry does.
    pub fn extract_by_title(&self, text: &str, title: &str) -> (r: Option<ExtractedContent>)
        ensures
            match r {
                Some(x) => exists|i: int|
                    0 <= i < header_starts(text@).len() && (occurs_in(entry_title(text@, i), title@)
                        || occurs_in(entry_content(text@, i), title@)) && (forall|j: int|
                        0 <= j < i ==> !(occurs_in(entry_title(text@, j), title@) || occurs_in(
                            entry_content(text@, j),
                            title@,
                        ))) && extracted_from(
                        x,
                        entry_content(text@, i),
                        text@,
                        self.truncation.max_chars,
                    ),
                None => forall|j: int|
                    0 <= j < header_starts(text@).len() ==> !(occurs_in(entry_title(text@, j), title@)
                        || occurs_in(entry_content(text@, j), title@)),
            },
    {
        let entries = self.parse_entries(text);
        let needle = chars_of(title);
        let mut i: usize = 0;
        while i < entries.len()
            invariant
                i <= entries@.len(),
                entries@.len() == header_starts(text@).len(),
                forall|x: int| 0 <= x < entries@.len() ==> is_entry(text@, x, #[trigger] entries@[x]),
                needle@ == title@,
                forall|j: int|
                    0 <= j < i ==> !(occurs_in(entry_title(text@, j), title@) || occurs_in(
                        entry_content(text@, j),
                        title@,
                    )),
            decreases entries@.len() - i,
        {
            let e = &entries[i];
            assert(is_entry(text@, i as int, entries@[i as int]));
            let in_title = contains_chars(&chars_of(e.title.as_str()), &needle);
            let in_content = contains_chars(&chars_of(e.content.as_str()), &needle);
            if in_title || in_content {
                return Some(self.truncate_entry(e, text));
            }
            i = i + 1;
        }
        None
    }

    /// `entry`'s content cut to the character limit, reported against the
    /// whole text `full_text`.
    fn truncate_entry(&self, entry: &ChangelogEntry, full_text: &str) -> (r: ExtractedContent)
        ensures
            extracted_from(r, entry.content@, full_text@, self.truncation.max_chars),
    {
        let full = chars_of(full_text);
        let total_chars = full.len();
        let total_lines = count_lines(&full);
        let body = chars_of(entry.content.as_str());
        truncate_to(&body, self.truncation.max_chars, total_chars, total_lines)
    }
}

/// The first entry of `text`, or the whole text when it has none, cut to the
/// character limit.
pub fn extract_current_entry(text: &str, truncation: &TruncationConfig) -> (r: ExtractedContent)
    ensures
        current_entry_extract(r, text@, truncation.max_chars),
{
    let extractor = ChangelogEntryExtractor::new(*truncation);
    let entries = extractor.parse_entries(text);
    if entries.len() > 0 {
        assert(is_entry(text@, 0, entries@[0]));
        extractor.truncate_entry(&entries[0], text)
    } else {
        let cs = chars_of(text);
        let total_chars = cs.len();
        let total_lines = count_lines(&cs);
        truncate_to(&cs, truncation.max_chars, total_chars, total_lines)
    }
}

} // verus!
