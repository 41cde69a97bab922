//! Content extraction: what part of a document's text is shown.
use vstd::prelude::*;

use crate::text::{chars_of, count_lines, line_count, str_eq, string_of, sub_chars};

pub mod cache;
pub mod changelog;
pub mod openrouter_client;
pub mod summarizer;
pub mod telemetry;

verus! {

/// How content is extracted.
#[derive(Clone, Copy, Debug, PartialEq, Eq, Structural)]
pub enum ExtractionStrategy {
    /// The first `n` characters.
    Head(usize),
    /// The current changelog entry (`* Title YYYY-MM-DD` headers).
    ChangelogEntry,
    /// The whole content.
    Full,
}

impl ExtractionStrategy {
    /// The strategy a request names: `entry` or `full`; anything else is a
    /// snippet of 150 characters.
    pub fn for_mode(name: &str) -> (r: Self)
        ensures
            name@ == "entry"@ ==> r == ExtractionStrategy::ChangelogEntry,
            name@ == "full"@ ==> r == ExtractionStrategy::Full,
            name@ != "entry"@ && name@ != "full"@ ==> r == ExtractionStrategy::Head(150),
    {
        proof {
            reveal_strlit("entry");
            reveal_strlit("full");
            assert("entry"@.len() != "full"@.len());
        }
        if str_eq(name, "entry") {
            ExtractionStrategy::ChangelogEntry
        } else if str_eq(name, "full") {
            ExtractionStrategy::Full
        } else {
            ExtractionStrategy::Head(150)
        }
    }
}

/// Limits on what is extracted.
#[derive(Clone, Copy, Debug, PartialEq, Eq, Structural)]
pub struct TruncationConfig {
    /// Maximum characters to extract.
    pub max_chars: Option<usize>,
    /// Maximum lines to extract.
    pub max_lines: Option<usize>,
    /// Maximum sections to extract.
    pub max_sections: Option<usize>,
}

impl Default for TruncationConfig {
    fn default() -> (r: Self)
        ensures
            r == (TruncationConfig { max_chars: Some(5000), max_lines: None, max_sections: None }),
    {
        TruncationConfig { max_chars: Some(5000), max_lines: None, max_sections: None }
    }
}

/// Sizes of the original and of the extracted content.
#[derive(Clone, Copy, Debug, PartialEq, Eq, Structural)]
pub struct ContentStats {
    /// Characters of the original content.
    pub total_chars: usize,
    /// Lines of the original content.
    pub total_lines: usize,
    /// Characters extracted.
    pub extracted_chars: usize,
}

/// An extract and how it relates to the original.
#[derive(Clone, Debug)]
pub struct ExtractedContent {
    /// The extracted text.
    pub text: String,
    /// Whether the extract was cut short.
    pub truncated: bool,
    /// Sizes.
    pub stats: ContentStats,
}

/// `r` is `body`, cut to `max` characters when it is longer, reported against
/// the whole original `full`.
pub open spec fn extracted_from(
    r: ExtractedContent,
    body: Seq<char>,
    full: Seq<char>,
    max: Option<usize>,
) -> bool {
    &&& r.stats.total_chars == full.len()
    &&& r.stats.total_lines == line_count(full)
    &&& if max is Some && body.len() > max->0 {
        &&& r.text@ == body.take(max->0 as int)
        &&& r.truncated
        &&& r.stats.extracted_chars == max->0
    } else {
        &&& r.text@ == body
        &&& !r.truncated
        &&& r.stats.extracted_chars == body.len()
    }
}

/// `r` holds the first `min(max, n)` characters of `full` (`n` alone when
/// there is no `max`).
pub open spec fn head_of(r: ExtractedContent, full: Seq<char>, n: usize, max: Option<usize>) -> bool {
    let m: int = match max {
        Some(x) => if x < n {
            x as int
        } else {
            n as int
        },
        None => n as int,
    };
    let k: int = if m < full.len() {
        m
    } else {
        full.len() as int
    };
    &&& r.text@ == full.take(k)
    &&& r.truncated == (k < full.len())
    &&& r.stats == (ContentStats {
        total_chars: full.len() as usize,
        total_lines: line_count(full) as usize,
        extracted_chars: k as usize,
    })
}

/// Cuts `body` to `max` characters when it is longer, reporting against an
/// original of `total_chars` characters and `total_lines` lines.
pub fn truncate_to(body: &Vec<char>, max: Option<usize>, total_chars: usize, total_lines: usize) -> (r:
    ExtractedContent)
    ensures
        r.stats.total_chars == total_chars,
        r.stats.total_lines == total_lines,
        if max is Some && body@.len() > max->0 {
            &&& r.text@ == body@.take(max->0 as int)
            &&& r.truncated
            &&& r.stats.extracted_chars == max->0
        } else {
            &&& r.text@ == body@
            &&& !r.truncated
            &&& r.stats.extracted_chars == body@.len()
        },
{
    match max {
        Some(m) => {
            if body.len() > m {
                let head = sub_chars(body, 0, m);
                let text = string_of(head.as_slice());
                assert(head@ =~= body@.take(m as int));
                return ExtractedContent {
                    text,
                    truncated: true,
                    stats: ContentStats { total_chars, total_lines, extracted_chars: m },
                };
            }
        },
        None => {},
    }
    ExtractedContent {
        text: string_of(body.as_slice()),
        truncated: false,
        stats: ContentStats { total_chars, total_lines, extracted_chars: body.len() },
    }
}

/// Extracts content with a fixed strategy and limits.
pub struct ContentExtractor {
    pub strategy: ExtractionStrategy,
    pub truncation: TruncationConfig,
}

impl ContentExtractor {
    /// An extractor with this strategy and these limits.
    pub fn new(strategy: ExtractionStrategy, truncation: TruncationConfig) -> (r: Self)
        ensures
            r.strategy == strategy,
            r.truncation == truncation,
    {
        ContentExtractor { strategy, truncation }
    }

    /// Extracts from `full_text` by the strategy: the first characters, the
    /// current changelog entry, or all of it, each cut to the character limit.
    pub fn extract(&self, full_text: &str) -> (r: ExtractedContent)
        ensures
            match self.strategy {
                ExtractionStrategy::Head(n) => head_of(r, full_text@, n, self.truncation.max_chars),
                ExtractionStrategy::ChangelogEntry => changelog::current_entry_extract(
                    r,
                    full_text@,
                    self.truncation.max_chars,
                ),
                ExtractionStrategy::Full => extracted_from(
                    r,
                    full_text@,
                    full_text@,
                    self.truncation.max_chars,
                ),
            },
    {
        let cs = chars_of(full_text);
        let total_chars = cs.len();
        let total_lines = count_lines(&cs);
        match self.strategy {
            ExtractionStrategy::Head(n) => self.extract_head(&cs, n, total_chars, total_lines),
            ExtractionStrategy::ChangelogEntry => changelog::extract_current_entry(
                full_text,
                &self.truncation,
            ),
            ExtractionStrategy::Full => self.extract_full(&cs, total_chars, total_lines),
        }
    }

    fn extract_head(&self, cs: &Vec<char>, n: usize, total_chars: usize, total_lines: usize) -> (r:
        ExtractedContent)
        requires
            total_chars == cs@.len(),
            total_lines == line_count(cs@),
        ensures
            head_of(r, cs@, n, self.truncation.max_chars),
    {
        let max_chars = match self.truncation.max_chars {
            Some(x) => if x < n {
                x
            } else {
                n
            },
            None => n,
        };
        let k = if max_chars < cs.len() {
            max_chars
        } else {
            cs.len()
        };
        let head = sub_chars(cs, 0, k);
        let text = string_of(head.as_slice());
        assert(head@ =~= cs@.take(k as int));
        ExtractedContent {
            text,
            truncated: k < total_chars,
            stats: ContentStats { total_chars, total_lines, extracted_chars: k },
        }
    }

    fn extract_full(&self, cs: &Vec<char>, total_chars: usize, total_lines: usize) -> (r:
        ExtractedContent)
        requires
            total_chars == cs@.len(),
            total_lines == line_count(cs@),
        ensures
            extracted_from(r, cs@, cs@, self.truncation.max_chars),
    {
        truncate_to(cs, self.truncation.max_chars, total_chars, total_lines)
    }
}

} // verus!
