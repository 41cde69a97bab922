//! The parts of tokenization that do not need the morphological analyzer:
//! which analyzed tokens are kept and in what form, the English words of a
//! text, and how the two token lists are merged.
use vstd::prelude::*;

use crate::loader::document::strings_view;
use crate::text::{chars_of, str_eq, string_of};

verus! {

/// Parts of speech that are kept: noun, verb, adjective, adverb.
pub const TARGET_POS: [&'static str; 4] = ["名詞", "動詞", "形容詞", "副詞"];

/// Part-of-speech details that are dropped: non-independent, suffix, number.
pub const EXCLUDE_POS_DETAIL: [&'static str; 3] = ["非自立", "接尾", "数"];

/// `s` with each element's first occurrence kept, in order.
pub open spec fn dedup(s: Seq<Seq<char>>) -> Seq<Seq<char>>
    decreases s.len(),
{
    if s.len() == 0 {
        Seq::empty()
    } else if dedup(s.drop_last()).contains(s.last()) {
        dedup(s.drop_last())
    } else {
        dedup(s.drop_last()).push(s.last())
    }
}

/// Whether `c` is an ASCII letter.
pub open spec fn is_ascii_letter(c: char) -> bool {
    ('a' <= c && c <= 'z') || ('A' <= c && c <= 'Z')
}

/// `c` in upper case when it is an ASCII lower-case letter.
pub open spec fn ascii_upper(c: char) -> char {
    if 'a' <= c && c <= 'z' {
        ((c as u8) - 32) as u8 as char
    } else {
        c
    }
}

/// Where the run of ASCII letters that starts at `i` ends.
pub open spec fn run_end(s: Seq<char>, i: int) -> int
    decreases s.len() - i,
{
    if i < 0 || i >= s.len() || !is_ascii_letter(s[i]) {
        i
    } else {
        run_end(s, i + 1)
    }
}

/// The maximal runs of ASCII letters of `s` from `i` on, in upper case.
pub open spec fn letter_runs_from(s: Seq<char>, i: int) -> Seq<Seq<char>>
    decreases s.len() - i,
{
    if i < 0 || i >= s.len() {
        Seq::empty()
    } else if is_ascii_letter(s[i]) && i < run_end(s, i) <= s.len() {
        seq![s.subrange(i, run_end(s, i)).map_values(|c: char| ascii_upper(c))] + letter_runs_from(
            s,
            run_end(s, i),
        )
    } else {
        letter_runs_from(s, i + 1)
    }
}

/// The English tokens of `s`: its words of ASCII letters in upper case, each
/// once, in order of first occurrence.
pub open spec fn english_tokens(s: Seq<char>) -> Seq<Seq<char>> {
    dedup(letter_runs_from(s, 0))
}

proof fn lemma_run_end_bounds(s: Seq<char>, i: int)
    requires
        0 <= i <= s.len(),
    ensures
        i <= run_end(s, i) <= s.len(),
        i < s.len() && is_ascii_letter(s[i]) ==> run_end(s, i) > i,
    decreases s.len() - i,
{
    if i < s.len() && is_ascii_letter(s[i]) {
        lemma_run_end_bounds(s, i + 1);
    }
}

fn run_end_exec(s: &Vec<char>, i: usize) -> (e: usize)
    requires
        i <= s@.len(),
    ensures
        e == run_end(s@, i as int),
        i <= e <= s@.len(),
        i < s@.len() && is_ascii_letter(s@[i as int]) ==> e > i,
{
    proof {
        lemma_run_end_bounds(s@, i as int);
    }
    let mut e = i;
    while e < s.len() && (('a' <= s[e] && s[e] <= 'z') || ('A' <= s[e] && s[e] <= 'Z'))
        invariant
            i <= e <= s@.len(),
            run_end(s@, i as int) == run_end(s@, e as int),
        decreases s@.len() - e,
    {
        e = e + 1;
    }
    e
}

fn upper_of(s: &Vec<char>, a: usize, b: usize) -> (r: Vec<char>)
    requires
        a <= b <= s@.len(),
    ensures
        r@ == s@.subrange(a as int, b as int).map_values(|c: char| ascii_upper(c)),
{
    let mut r: Vec<char> = Vec::new();
    let mut k = a;
    while k < b
        invariant
            a <= k <= b <= s@.len(),
            r@ == s@.subrange(a as int, k as int).map_values(|c: char| ascii_upper(c)),
        decreases b - k,
    {
        let c = s[k];
        let u = if 'a' <= c && c <= 'z' {
            ((c as u8) - 32) as char
        } else {
            c
        };
        r.push(u);
        k = k + 1;
        assert(r@ =~= s@.subrange(a as int, k as int).map_values(|c: char| ascii_upper(c)));
    }
    r
}

/// Appends `t` to `out` unless it is already there.
fn push_new(out: &mut Vec<String>, t: String)
    ensures
        strings_view(final(out)@) == if strings_view(old(out)@).contains(t@) {
            strings_view(old(out)@)
        } else {
            strings_view(old(out)@).push(t@)
        },
{
    let mut i: usize = 0;
    while i < out.len()
        invariant
            i <= out@.len(),
            forall|j: int| 0 <= j < i ==> out@[j]@ != t@,
        decreases out@.len() - i,
    {
        if str_eq(out[i].as_str(), t.as_str()) {
            assert(strings_view(out@)[i as int] == t@);
            return;
        }
        i = i + 1;
    }
    proof {
        if strings_view(out@).contains(t@) {
            let j = choose|j: int| 0 <= j < strings_view(out@).len() && strings_view(out@)[j] == t@;
            assert(out@[j]@ == t@);
        }
    }
    let ghost before = out@;
    out.push(t);
    assert(strings_view(out@) =~= strings_view(before).push(t@));
}

/// The English tokens of `text`: its words of ASCII letters in upper case,
/// each once, in order of first occurrence.
pub fn extract_english_tokens(text: &str) -> (r: Vec<String>)
    ensures
        strings_view(r@) == english_tokens(text@),
{
    let s = chars_of(text);
    let mut runs: Vec<String> = Vec::new();
    let mut out: Vec<String> = Vec::new();
    let mut i: usize = 0;
    let ghost all = letter_runs_from(s@, 0);
    let ghost done: Seq<Seq<char>> = Seq::empty();
    while i < s.len()
        invariant
            i <= s@.len(),
            all == letter_runs_from(s@, 0),
            done + letter_runs_from(s@, i as int) == all,
            strings_view(out@) == dedup(done),
        decreases s@.len() - i,
    {
        let c = s[i];
        if ('a' <= c && c <= 'z') || ('A' <= c && c <= 'Z') {
            let e = run_end_exec(&s, i);
            let w = upper_of(&s, i, e);
            let ghost word = w@;
            push_new(&mut out, string_of(w.as_slice()));
            proof {
                assert(done.push(word).drop_last() =~= done);
                assert(done.push(word) + letter_runs_from(s@, e as int) =~= done + letter_runs_from(s@, i as int));
                done = done.push(word);
            }
            i = e;
        } else {
            i = i + 1;
        }
    }
    assert(done + letter_runs_from(s@, i as int) =~= done);
    out
}

/// Merges the analyzer's tokens and the English tokens: each token once, in
/// order of first occurrence, the analyzer's first.
pub fn merge_tokens(japanese: Vec<String>, english: Vec<String>) -> (r: Vec<String>)
    ensures
        strings_view(r@) == dedup(strings_view(japanese@) + strings_view(english@)),
{
    let ghost all = strings_view(japanese@) + strings_view(english@);
    let mut out: Vec<String> = Vec::new();
    let mut i: usize = 0;
    while i < japanese.len()
        invariant
            i <= japanese@.len(),
            all == strings_view(japanese@) + strings_view(english@),
            strings_view(out@) == dedup(all.take(i as int)),
        decreases japanese@.len() - i,
    {
        assert(all.take(i + 1).drop_last() =~= all.take(i as int));
        assert(all.take(i + 1).last() == japanese@[i as int]@);
        push_new(&mut out, japanese[i].clone());
        i = i + 1;
    }
    let n = japanese.len();
    let mut k: usize = 0;
    while k < english.len()
        invariant
            k <= english@.len(),
            n == japanese@.len(),
            all == strings_view(japanese@) + strings_view(english@),
            strings_view(out@) == dedup(all.take(n + k)),
        decreases english@.len() - k,
    {
        assert(all.take(n + k + 1).drop_last() =~= all.take(n + k));
        assert(all.take(n + k + 1).last() == english@[k as int]@);
        push_new(&mut out, english[k].clone());
        k = k + 1;
    }
    assert(all.take(n + english@.len()) =~= all);
    out
}

/// Whether `s` is one of `set`.
fn one_of(s: &str, set: &[&str]) -> (r: bool)
    ensures
        r == exists|i: int| 0 <= i < set@.len() && set@[i]@ == s@,
{
    let mut i: usize = 0;
    while i < set.len()
        invariant
            i <= set@.len(),
            forall|j: int| 0 <= j < i ==> set@[j]@ != s@,
        decreases set@.len() - i,
    {
        if str_eq(set[i], s) {
            return true;
        }
        i = i + 1;
    }
    false
}

/// The form under which an analyzed token is indexed, from its feature list
/// `details` (part of speech, its detail, ..., base form at 6) and its
/// surface: `None` when the part of speech is not kept or its detail is
/// dropped; otherwise the base form, or the surface when the base form is
/// missing, empty or `*`.
pub fn base_form(details: &[String], surface: &str) -> (r: Option<String>)
    ensures
        ({
            let d = strings_view(details@);
            let kept = d.len() > 0 && (exists|i: int| 0 <= i < 4 && TARGET_POS@[i]@ == d[0]) && !(
            d.len() > 1 && exists|i: int| 0 <= i < 3 && EXCLUDE_POS_DETAIL@[i]@ == d[1]);
            if !kept {
                r is None
            } else if d.len() > 6 && d[6].len() > 0 && d[6] != "*"@ {
                r is Some && r->0@ == d[6]
            } else {
                r is Some && r->0@ == surface@
            }
        }),
{
    if details.len() == 0 {
        return None;
    }
    let target: [&str; 4] = TARGET_POS;
    let exclude: [&str; 3] = EXCLUDE_POS_DETAIL;
    if !one_of(details[0].as_str(), target.as_slice()) {
        return None;
    }
    if details.len() > 1 && one_of(details[1].as_str(), exclude.as_slice()) {
        return None;
    }
    if details.len() > 6 && !details[6].as_str().is_empty() && !str_eq(details[6].as_str(), "*") {
        Some(details[6].clone())
    } else {
        Some(surface.to_owned())
    }
}

} // verus!
