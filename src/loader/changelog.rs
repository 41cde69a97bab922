//! The changelog file format. A file is a sequence of lines; a header line
//! `* Title YYYY-MM-DD HH:MM:SS [tag1]:[tag2]:` opens an entry, and the lines
//! after it, up to the next header, are its body. Lines before the first
//! header belong to no entry. Each entry whose date and time exist becomes a
//! document whose ID is the content hash of its title and trimmed body.
use vstd::prelude::*;

use crate::extract::changelog::{date_at, date_at_exec, is_digit_exec, line_at, line_end, line_end_exec, line_exec};
use crate::loader::document::{content_hash_of, documents_view, strings_view, Document, DocumentView, Timestamp};
use crate::text::{chars_of, is_digit, string_of, sub_chars, trim, trim_end_at, trim_start_at};

verus! {

/// `DDDD-DD-DD DD:DD:DD` stands at `q` of `l`.
pub open spec fn datetime_at(l: Seq<char>, q: int) -> bool {
    &&& date_at(l, q)
    &&& q + 19 <= l.len()
    &&& l[q + 10] == ' '
    &&& is_digit(l[q + 11]) && is_digit(l[q + 12]) && l[q + 13] == ':'
    &&& is_digit(l[q + 14]) && is_digit(l[q + 15]) && l[q + 16] == ':'
    &&& is_digit(l[q + 17]) && is_digit(l[q + 18])
}

/// Where the title of a header line ends: the first space at or after `from`
/// (and at 3 or later) that a date and time follow; the length when none does.
pub open spec fn title_end_from(l: Seq<char>, from: int) -> int
    decreases l.len() - from,
{
    if from < 3 || from >= l.len() {
        l.len() as int
    } else if l[from] == ' ' && datetime_at(l, from + 1) {
        from
    } else {
        title_end_from(l, from + 1)
    }
}

/// `l` is a header line: `* `, a title of at least one character, a space,
/// a date and time.
pub open spec fn is_loader_header(l: Seq<char>) -> bool {
    l.len() >= 2 && l[0] == '*' && l[1] == ' ' && title_end_from(l, 3) < l.len()
}

/// The first `]` at or after `from`, or the length of `l`.
pub open spec fn close_from(l: Seq<char>, from: int) -> int
    decreases l.len() - from,
{
    if from < 0 || from >= l.len() {
        l.len() as int
    } else if l[from] == ']' {
        from
    } else {
        close_from(l, from + 1)
    }
}

/// The tags of `l` from `i` on: each non-empty text between `[` and the next
/// `]` when a `:` follows that `]`, scanning left to right.
pub open spec fn colon_tags_from(l: Seq<char>, i: int) -> Seq<Seq<char>>
    decreases l.len() - i,
{
    if i < 0 || i >= l.len() {
        Seq::empty()
    } else if l[i] == '[' && i + 1 < close_from(l, i + 1) && close_from(l, i + 1) + 1 < l.len()
        && l[close_from(l, i + 1) + 1] == ':' {
        seq![l.subrange(i + 1, close_from(l, i + 1))] + colon_tags_from(l, close_from(l, i + 1) + 2)
    } else {
        colon_tags_from(l, i + 1)
    }
}

/// The value of the decimal digit `c`.
pub open spec fn digit_value(c: char) -> int {
    c as int - '0' as int
}

/// The number written by the digits `d[a..b]`.
pub open spec fn number_at(d: Seq<char>, a: int, b: int) -> int
    decreases b - a,
{
    if b <= a {
        0
    } else {
        number_at(d, a, b - 1) * 10 + digit_value(d[b - 1])
    }
}

/// Whether `y` is a leap year of the proleptic Gregorian calendar.
pub open spec fn is_leap(y: int) -> bool {
    y % 4 == 0 && (y % 100 != 0 || y % 400 == 0)
}

/// The number of days of month `m` of year `y`.
pub open spec fn days_in_month(y: int, m: int) -> int {
    if m == 2 {
        if is_leap(y) {
            29
        } else {
            28
        }
    } else if m == 4 || m == 6 || m == 9 || m == 11 {
        30
    } else {
        31
    }
}

/// The calendar date and time exist. A seconds field of 60 is a leap
/// second and is accepted.
pub open spec fn valid_civil(y: int, mo: int, d: int, h: int, mi: int, s: int) -> bool {
    1 <= mo <= 12 && 1 <= d <= days_in_month(y, mo) && 0 <= h < 24 && 0 <= mi < 60 && 0 <= s <= 60
}

/// Days from 1970-01-01 to the date `y-m-d` of the proleptic Gregorian calendar.
pub open spec fn days_from_civil(y: int, m: int, d: int) -> int {
    let yy = if m <= 2 {
        y - 1
    } else {
        y
    };
    let era = yy / 400;
    let yoe = yy - era * 400;
    let mp = if m > 2 {
        m - 3
    } else {
        m + 9
    };
    let doy = (153 * mp + 2) / 5 + d - 1;
    let doe = yoe * 365 + yoe / 4 - yoe / 100 + doy;
    era * 146097 + doe - 719468
}

/// Milliseconds since 1970-01-01T00:00:00Z of a UTC date and time.
pub open spec fn civil_millis(y: int, mo: int, d: int, h: int, mi: int, s: int) -> int {
    ((days_from_civil(y, mo, d) * 86400) + h * 3600 + mi * 60 + s) * 1000
}

/// The date and time written `YYYY-MM-DD HH:MM:SS` in `t`, as milliseconds,
/// when they exist. A leap second `:60` reads as second 59 plus one second,
/// that is, the first millisecond of the next minute.
pub open spec fn datetime_millis(t: Seq<char>) -> Option<int> {
    let y = number_at(t, 0, 4);
    let mo = number_at(t, 5, 7);
    let d = number_at(t, 8, 10);
    let h = number_at(t, 11, 13);
    let mi = number_at(t, 14, 16);
    let s = number_at(t, 17, 19);
    if valid_civil(y, mo, d, h, mi, s) {
        if s == 60 {
            Some(civil_millis(y, mo, d, h, mi, 59) + 1000)
        } else {
            Some(civil_millis(y, mo, d, h, mi, s))
        }
    } else {
        None
    }
}

/// Relies on `chrono::NaiveDateTime::parse_from_str` with the format
/// `%Y-%m-%d %H:%M:%S`, and on `timestamp_millis` of its UTC reading: on text
/// of that shape, the date and time parse exactly when they exist (the
/// seconds may be 60, a leap second, which chrono keeps as second 59 plus a
/// full second of nanoseconds), and give their milliseconds since the epoch.
#[verifier::external_body]
fn parse_datetime(t: &str) -> (r: Option<i64>)
    requires
        t@.len() == 19,
        datetime_at(t@, 0),
    ensures
        r is Some <==> datetime_millis(t@) is Some,
        r is Some ==> r->0 == datetime_millis(t@)->0,
{
    chrono::NaiveDateTime::parse_from_str(t, "%Y-%m-%d %H:%M:%S").ok().map(
        |dt| dt.and_utc().timestamp_millis(),
    )
}

/// The lines joined by `\n`.
pub open spec fn join_lines(ls: Seq<Seq<char>>) -> Seq<char>
    decreases ls.len(),
{
    if ls.len() == 0 {
        Seq::empty()
    } else if ls.len() == 1 {
        ls[0]
    } else {
        join_lines(ls.drop_last()) + seq!['\n'] + ls.last()
    }
}

/// An entry being read: its header line and the body lines so far.
pub struct OpenEntry {
    pub header: Seq<char>,
    pub body: Seq<Seq<char>>,
}

/// The document an entry gives, if its date and time exist.
pub open spec fn entry_document(e: OpenEntry) -> Option<DocumentView> {
    let l = e.header;
    let j = title_end_from(l, 3);
    let title = l.subrange(2, j);
    let stamp = datetime_millis(l.subrange(j + 1, j + 20));
    let text = trim(join_lines(e.body));
    match stamp {
        Some(m) => Some(
            DocumentView {
                id: content_hash_of(title, text),
                title,
                date: Timestamp { millis: m as i64 },
                tags: colon_tags_from(l.skip(j + 20), 0),
                text,
            },
        ),
        None => None,
    }
}

/// The documents a finished entry gives.
pub open spec fn close_entry(open: Option<OpenEntry>) -> Seq<DocumentView> {
    match open {
        Some(e) => match entry_document(e) {
            Some(d) => seq![d],
            None => Seq::empty(),
        },
        None => Seq::empty(),
    }
}

/// The documents of `s` read from the line that starts at `p`, with `open`
/// the entry being read.
pub open spec fn documents_from(s: Seq<char>, p: int, open: Option<OpenEntry>) -> Seq<DocumentView>
    decreases s.len() + 1 - p,
    via documents_from_decreases
{
    if p < 0 || p >= s.len() {
        close_entry(open)
    } else {
        let l = line_at(s, p);
        let next = line_end(s, p) + 1;
        let (done, rest) = if is_loader_header(l) {
            (close_entry(open), Some(OpenEntry { header: l, body: Seq::empty() }))
        } else {
            (Seq::empty(), match open {
                Some(e) => Some(OpenEntry { header: e.header, body: e.body.push(l) }),
                None => None,
            })
        };
        done + documents_from(s, next, rest)
    }
}

#[via_fn]
proof fn documents_from_decreases(s: Seq<char>, p: int, open: Option<OpenEntry>) {
    if 0 <= p < s.len() {
        lemma_line_end_bounds(s, p);
        assert(s.len() + 1 - (line_end(s, p) + 1) < s.len() + 1 - p);
    }
}

/// The line that contains `p` ends at or after `p`, and within the text.
pub proof fn lemma_line_end_bounds(s: Seq<char>, p: int)
    requires
        0 <= p <= s.len(),
    ensures
        p <= line_end(s, p) <= s.len(),
    decreases s.len() - p,
{
    if p < s.len() && s[p] != '\n' {
        lemma_line_end_bounds(s, p + 1);
    }
}

/// The documents of a changelog text.
pub open spec fn changelog_documents(s: Seq<char>) -> Seq<DocumentView> {
    documents_from(s, 0, None)
}

/// The line views of a list of lines.
pub open spec fn lines_view(v: Seq<Vec<char>>) -> Seq<Seq<char>> {
    v.map_values(|l: Vec<char>| l@)
}

fn datetime_at_exec(l: &Vec<char>, q: usize) -> (r: bool)
    ensures
        r == datetime_at(l@, q as int),
{
    if !date_at_exec(l, q) || l.len() - q < 19 {
        return false;
    }
    l[q + 10] == ' ' && is_digit_exec(l[q + 11]) && is_digit_exec(l[q + 12]) && l[q + 13] == ':'
        && is_digit_exec(l[q + 14]) && is_digit_exec(l[q + 15]) && l[q + 16] == ':'
        && is_digit_exec(l[q + 17]) && is_digit_exec(l[q + 18])
}

/// Finds `title_end_from(l, 3)`.
fn title_end(l: &Vec<char>) -> (j: usize)
    ensures
        j == title_end_from(l@, 3),
        j <= l@.len(),
        j < l@.len() ==> 3 <= j,
        j < l@.len() ==> l@[j as int] == ' ' && datetime_at(l@, j + 1),
{
    if l.len() <= 3 {
        return l.len();
    }
    let mut j: usize = 3;
    while j < l.len() && !(l[j] == ' ' && datetime_at_exec(l, j + 1))
        invariant
            3 <= j <= l@.len(),
            title_end_from(l@, 3) == title_end_from(l@, j as int),
        decreases l@.len() - j,
    {
        j = j + 1;
    }
    j
}

fn loader_header_exec(l: &Vec<char>) -> (r: bool)
    ensures
        r == is_loader_header(l@),
{
    l.len() >= 2 && l[0] == '*' && l[1] == ' ' && title_end(l) < l.len()
}

fn close_from_exec(l: &Vec<char>, from: usize) -> (c: usize)
    requires
        from <= l@.len(),
    ensures
        c == close_from(l@, from as int),
        from <= c <= l@.len(),
{
    let mut c = from;
    while c < l.len() && l[c] != ']'
        invariant
            from <= c <= l@.len(),
            close_from(l@, from as int) == close_from(l@, c as int),
        decreases l@.len() - c,
    {
        c = c + 1;
    }
    c
}

/// The `[tag]:` tags of `l`.
fn colon_tags(l: &Vec<char>) -> (r: Vec<String>)
    ensures
        strings_view(r@) == colon_tags_from(l@, 0),
{
    let mut r: Vec<String> = Vec::new();
    let mut i: usize = 0;
    while i < l.len()
        invariant
            i <= l@.len(),
            strings_view(r@) + colon_tags_from(l@, i as int) == colon_tags_from(l@, 0),
        decreases l@.len() - i,
    {
        let ghost before = r@;
        if l[i] == '[' {
            let c = close_from_exec(l, i + 1);
            if c > i + 1 && c < l.len() && l.len() - c > 1 && l[c + 1] == ':' {
                let inner = sub_chars(l, i + 1, c);
                r.push(string_of(inner.as_slice()));
                proof {
                    assert(strings_view(r@) =~= strings_view(before).push(l@.subrange(i + 1, c as int)));
                    assert(strings_view(r@) + colon_tags_from(l@, c + 2) =~= strings_view(before)
                        + colon_tags_from(l@, i as int));
                }
                i = c + 2;
            } else {
                i = i + 1;
            }
        } else {
            i = i + 1;
        }
    }
    assert(strings_view(r@) + colon_tags_from(l@, i as int) =~= strings_view(r@));
    r
}

/// The lines joined by `\n`.
fn join(lines: &Vec<Vec<char>>) -> (r: Vec<char>)
    ensures
        r@ == join_lines(lines_view(lines@)),
{
    let ghost lv = lines_view(lines@);
    let mut r: Vec<char> = Vec::new();
    let mut i: usize = 0;
    while i < lines.len()
        invariant
            i <= lines@.len(),
            lv == lines_view(lines@),
            r@ == join_lines(lv.take(i as int)),
        decreases lines@.len() - i,
    {
        assert(lv.take(i + 1).drop_last() =~= lv.take(i as int));
        assert(lv.take(i + 1).last() == lines@[i as int]@);
        let ghost before = r@;
        if i > 0 {
            r.push('\n');
        }
        let line = &lines[i];
        let mut k: usize = 0;
        let ghost base = r@;
        while k < line.len()
            invariant
                k <= line@.len(),
                r@ == base + line@.take(k as int),
            decreases line@.len() - k,
        {
            r.push(line[k]);
            k = k + 1;
            assert(r@ =~= base + line@.take(k as int));
        }
        assert(line@.take(line@.len() as int) =~= line@);
        proof {
            if i == 0 {
                assert(lv.take(1) =~= seq![line@]);
                assert(r@ =~= line@);
            } else {
                assert(r@ =~= before + seq!['\n'] + line@);
            }
        }
        i = i + 1;
    }
    assert(lv.take(lines@.len() as int) =~= lv);
    r
}

/// The document of an entry with header `header` and body `body`, if its
/// date and time exist.
fn close(header: &Vec<char>, body: &Vec<Vec<char>>) -> (r: Option<Document>)
    requires
        is_loader_header(header@),
    ensures
        match entry_document(OpenEntry { header: header@, body: lines_view(body@) }) {
            Some(d) => r is Some && r->0@ == d,
            None => r is None,
        },
{
    let l = header;
    let ln = l.len();
    let j = title_end(l);
    assert(j < ln);
    assert(j + 20 <= ln);
    let title_chars = sub_chars(l, 2, j);
    let stamp_chars = sub_chars(l, j + 1, j + 20);
    proof {
        assert forall|x: int| 0 <= x < 19 implies stamp_chars@[x] == l@[j + 1 + x] by {}
    }
    let stamp_text = string_of(stamp_chars.as_slice());
    let stamp = parse_datetime(stamp_text.as_str());
    match stamp {
        None => None,
        Some(millis) => {
            let rest = sub_chars(l, j + 20, l.len());
            assert(rest@ =~= l@.skip(j + 20));
            let tags = colon_tags(&rest);
            let joined = join(body);
            let a = trim_start_at(&joined, 0, joined.len());
            let b = trim_end_at(&joined, a, joined.len());
            assert(joined@.subrange(0, joined@.len() as int) =~= joined@);
            let text = string_of(sub_chars(&joined, a, b).as_slice());
            let title = string_of(title_chars.as_slice());
            let doc = Document::with_content_id(title, Timestamp { millis }, tags, text);
            Some(doc)
        },
    }
}

/// Reads changelog text into documents.
pub struct ChangelogLoader {}

impl ChangelogLoader {
    /// A loader.
    pub fn new() -> (r: Self) {
        ChangelogLoader {  }
    }

    /// The documents of `content`, one per entry whose date and time exist,
    /// in file order.
    pub fn load_from_string(&self, content: &str) -> (r: Vec<Document>)
        ensures
            documents_view(r@) == changelog_documents(content@),
    {
        let cs = chars_of(content);
        let ghost s = cs@;
        let n = cs.len();
        let mut docs: Vec<Document> = Vec::new();
        let mut has_open = false;
        let mut header: Vec<char> = Vec::new();
        let mut body: Vec<Vec<char>> = Vec::new();
        let mut p: usize = 0;
        while p < n
            invariant
                s == cs@,
                s == content@,
                n == s.len(),
                p <= n,
                has_open ==> is_loader_header(header@),
                documents_view(docs@) + documents_from(
                    s,
                    p as int,
                    if has_open {
                        Some(OpenEntry { header: header@, body: lines_view(body@) })
                    } else {
                        None
                    },
                ) == changelog_documents(s),
            decreases n - p,
        {
            let ghost open = if has_open {
                Some(OpenEntry { header: header@, body: lines_view(body@) })
            } else {
                None::<OpenEntry>
            };
            let ghost before = documents_view(docs@);
            let e = line_end_exec(&cs, p);
            let l = line_exec(&cs, p);
            if loader_header_exec(&l) {
                if has_open {
                    match close(&header, &body) {
                        Some(d) => {
                            docs.push(d);
                        },
                        None => {},
                    }
                }
                proof {
                    assert(documents_view(docs@) =~= before + close_entry(open));
                    assert(lines_view(Seq::<Vec<char>>::empty()) =~= Seq::<Seq<char>>::empty());
                }
                header = l;
                body = Vec::new();
                has_open = true;
                proof {
                    assert(lines_view(body@) =~= Seq::<Seq<char>>::empty());
                }
            } else {
                if has_open {
                    let ghost old_body = body@;
                    body.push(l);
                    proof {
                        assert(lines_view(body@) =~= lines_view(old_body).push(line_at(s, p as int)));
                    }
                }
                proof {
                    assert(documents_view(docs@) =~= before);
                }
            }
            let ghost next = e + 1;
            assert(documents_view(docs@) + documents_from(
                s,
                next,
                if has_open {
                    Some(OpenEntry { header: header@, body: lines_view(body@) })
                } else {
                    None
                },
            ) =~= changelog_documents(s));
            p = if e < n {
                e + 1
            } else {
                n
            };
        }
        let ghost before = documents_view(docs@);
        if has_open {
            match close(&header, &body) {
                Some(d) => {
                    docs.push(d);
                },
                None => {},
            }
        }
        proof {
            assert(documents_view(docs@) =~= changelog_documents(s));
        }
        docs
    }
}

} // verus!
