//! The decisions around embedding requests: how a text is prepared for the
//! provider, and what follows each outcome of a request (deliver, retry
//! after a backoff, or fail). Sending the request is the caller's.
use vstd::prelude::*;

use crate::loader::document::{strings_view, Document};
use crate::text::{chars_of, string_of, sub_chars, trim, trim_end_at, trim_start_at};

verus! {

/// Longest text sent for embedding, in characters.
pub const MAX_TEXT_CHARS: usize = 6000;

/// Number of attempts of one request.
pub const MAX_ATTEMPTS: u32 = 3;

/// The text sent for `t`: trimmed; `(empty)` when nothing is left; cut to
/// `MAX_TEXT_CHARS - 3` characters and `...` when longer than the limit.
pub open spec fn prepared_text(t: Seq<char>) -> Seq<char> {
    let s = trim(t);
    if s.len() == 0 {
        "(empty)"@
    } else if s.len() <= MAX_TEXT_CHARS {
        s
    } else {
        s.take(MAX_TEXT_CHARS - 3) + "..."@
    }
}

/// Prepares `text` for the embedding provider.
pub fn truncate_text(text: &str) -> (r: String)
    ensures
        r@ == prepared_text(text@),
{
    let cs = chars_of(text);
    let a = trim_start_at(&cs, 0, cs.len());
    let b = trim_end_at(&cs, a, cs.len());
    assert(cs@.subrange(0, cs@.len() as int) =~= cs@);
    let body = sub_chars(&cs, a, b);
    if body.len() == 0 {
        return "(empty)".to_owned();
    }
    if body.len() <= MAX_TEXT_CHARS {
        return string_of(body.as_slice());
    }
    let head = sub_chars(&body, 0, MAX_TEXT_CHARS - 3);
    assert(head@ =~= body@.take(MAX_TEXT_CHARS - 3));
    let s = string_of(head.as_slice());
    s.concat("...")
}

/// What came of one request.
#[derive(Clone, Copy, Debug, PartialEq, Eq, Structural)]
pub enum RequestOutcome {
    /// A success response that parsed.
    Delivered,
    /// A success response whose body could not be read.
    BodyUnreadable,
    /// A success response whose body did not parse.
    Unparsable,
    /// Status 429.
    RateLimited,
    /// Another error status.
    HttpError,
    /// The request failed before any response (connection, timeout).
    TransportError,
}

/// What to do next.
#[derive(Clone, Copy, Debug, PartialEq, Eq, Structural)]
pub enum NextStep {
    /// Hand the embeddings to the caller.
    Deliver,
    /// Wait `delay_ms` milliseconds, then send attempt `attempt` (0-based).
    Retry { attempt: u32, delay_ms: u64 },
    /// Fail with this response's error; a retry would not help.
    Fail,
    /// Fail with this error: no attempt is left.
    GiveUp,
}

/// The wait before attempt `attempt` (0-based): none before the first, then
/// `1000 * 2^attempt` milliseconds.
pub open spec fn backoff_ms(attempt: u32) -> u64 {
    if attempt == 0 {
        0
    } else if attempt == 1 {
        2000
    } else if attempt == 2 {
        4000
    } else {
        8000
    }
}

/// Whether an outcome is worth another attempt: rate limits, transport
/// failures and unreadable bodies are; a parsed error or a bad response is not.
pub open spec fn transient(o: RequestOutcome) -> bool {
    o == RequestOutcome::RateLimited || o == RequestOutcome::TransportError || o
        == RequestOutcome::BodyUnreadable
}

/// The step after attempt `attempt` (0-based) ended with `outcome`.
pub fn next_step(attempt: u32, outcome: RequestOutcome) -> (r: NextStep)
    requires
        attempt < MAX_ATTEMPTS,
    ensures
        outcome == RequestOutcome::Delivered ==> r == NextStep::Deliver,
        (outcome == RequestOutcome::Unparsable || outcome == RequestOutcome::HttpError) ==> r
            == NextStep::Fail,
        transient(outcome) && attempt + 1 < MAX_ATTEMPTS ==> r == (NextStep::Retry {
            attempt: (attempt + 1) as u32,
            delay_ms: backoff_ms((attempt + 1) as u32),
        }),
        transient(outcome) && attempt + 1 >= MAX_ATTEMPTS ==> r == NextStep::GiveUp,
{
    match outcome {
        RequestOutcome::Delivered => NextStep::Deliver,
        RequestOutcome::Unparsable | RequestOutcome::HttpError => NextStep::Fail,
        _ => {
            if attempt + 1 < MAX_ATTEMPTS {
                let next = attempt + 1;
                let delay_ms: u64 = if next == 1 {
                    2000
                } else {
                    4000
                };
                NextStep::Retry { attempt: next, delay_ms }
            } else {
                NextStep::GiveUp
            }
        },
    }
}

/// Documents per embedding request when an index is built.
pub const BATCH_SIZE: usize = 10;

/// Pause between two embedding requests of a build, in milliseconds.
pub const BATCH_PAUSE_MS: u64 = 500;

/// The strings joined, with `sep` between two neighbours.
pub open spec fn joined(ss: Seq<Seq<char>>, sep: Seq<char>) -> Seq<char>
    decreases ss.len(),
{
    if ss.len() == 0 {
        Seq::empty()
    } else if ss.len() == 1 {
        ss[0]
    } else {
        joined(ss.drop_last(), sep) + sep + ss.last()
    }
}

/// The text embedded for a document: a `# title` heading, a line of its
/// tags when they are not empty, a blank line, then the body.
pub open spec fn embedding_text(title: Seq<char>, tags: Seq<Seq<char>>, text: Seq<char>) -> Seq<char> {
    let t = joined(tags, ", "@);
    if t.len() == 0 {
        "# "@ + title + "\n\n"@ + text
    } else {
        "# "@ + title + "\nタグ: "@ + t + "\n\n"@ + text
    }
}

fn join_strings(ss: &Vec<String>, sep: &str) -> (r: String)
    ensures
        r@ == joined(strings_view(ss@), sep@),
{
    let ghost v = strings_view(ss@);
    let mut r = String::new();
    let mut i: usize = 0;
    while i < ss.len()
        invariant
            i <= ss@.len(),
            v == strings_view(ss@),
            r@ == joined(v.take(i as int), sep@),
        decreases ss@.len() - i,
    {
        assert(v.take(i + 1).drop_last() =~= v.take(i as int));
        assert(v.take(i + 1).last() == ss@[i as int]@);
        if i == 0 {
            r = ss[i].clone();
            assert(v.take(1) =~= seq![ss@[0]@]);
        } else {
            r = r.concat(sep);
            r = r.concat(ss[i].as_str());
        }
        i = i + 1;
    }
    assert(v.take(ss@.len() as int) =~= v);
    r
}

/// The text embedded for `doc`.
pub fn create_embedding_text(doc: &Document) -> (r: String)
    ensures
        r@ == embedding_text(doc.metadata.title@, strings_view(doc.metadata.tags@), doc.text@),
{
    let tags = join_strings(&doc.metadata.tags, ", ");
    let head = String::from_str("# ").concat(doc.metadata.title.as_str());
    if tags.as_str().is_empty() {
        head.concat("\n\n").concat(doc.text.as_str())
    } else {
        head.concat("\nタグ: ").concat(tags.as_str()).concat("\n\n").concat(doc.text.as_str())
    }
}

/// The document ranges `[start, end)` of the requests that embed `n`
/// documents, `size` at a time: batch `i` covers `i * size` up to
/// `(i + 1) * size` or `n`; vector `j` of the answer to batch `i` belongs to
/// document `i * size + j`.
pub fn batch_ranges(n: usize, size: usize) -> (r: Vec<(usize, usize)>)
    requires
        size > 0,
    ensures
        r@.len() == (n + size - 1) / (size as int),
        forall|i: int|
            0 <= i < r@.len() ==> (#[trigger] r@[i]).0 == i * size && r@[i].1 == if (i + 1) * size
                < n {
                (i + 1) * size
            } else {
                n as int
            },
{
    let mut r: Vec<(usize, usize)> = Vec::new();
    let mut start: usize = 0;
    assert(0 * size == 0) by (nonlinear_arith);
    while start < n
        invariant
            size > 0,
            start == r@.len() * size,
            start <= n,
            r@.len() * size < n + size,
            forall|i: int|
                0 <= i < r@.len() ==> (#[trigger] r@[i]).0 == i * size && r@[i].1 == if (i + 1)
                    * size < n {
                    (i + 1) * size
                } else {
                    n as int
                },
        decreases n - start,
    {
        let end = if n - start > size {
            start + size
        } else {
            n
        };
        let ghost k = r@.len() as int;
        r.push((start, end));
        proof {
            assert((k + 1) * size == k * size + size) by (nonlinear_arith);
        }
        start = end;
        if end == n {
            proof {
                assert(((n + size - 1) / (size as int)) == k + 1) by (nonlinear_arith)
                    requires k * size < n, n <= k * size + size, size > 0;
            }
            assert(r@.len() == (n + size - 1) / (size as int));
            return r;
        }
    }
    proof {
        assert(start == n);
        assert((n + size - 1) / (size as int) == r@.len()) by (nonlinear_arith)
            requires r@.len() * size == n, size > 0;
    }
    r
}

} // verus!
