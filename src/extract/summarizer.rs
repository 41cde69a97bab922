//! Provider routing preferences for summarization requests.
use vstd::prelude::*;

use super::{ContentStats, ExtractedContent};
use crate::text::{chars_of, decimal, decimal_string, string_of, sub_chars};

verus! {

/// Which providers a request may be routed to, and how.
#[derive(Clone, Debug)]
pub struct ProviderConfig {
    /// Provider priority order.
    pub order: Option<Vec<String>>,
    /// Allow fallback to other providers.
    pub allow_fallbacks: bool,
    /// Only use these providers.
    pub only: Option<Vec<String>>,
    /// Ignore these providers.
    pub ignore: Option<Vec<String>>,
    /// Sort by `price` or `throughput`.
    pub sort: Option<String>,
    /// Require full parameter support.
    pub require_parameters: bool,
}

impl Default for ProviderConfig {
    fn default() -> (r: Self)
        ensures
            r.order is None,
            r.allow_fallbacks,
            r.only is None,
            r.ignore is None,
            r.sort is None,
            !r.require_parameters,
    {
        ProviderConfig {
            order: None,
            allow_fallbacks: true,
            only: None,
            ignore: None,
            sort: None,
            require_parameters: false,
        }
    }
}

/// Token usage of a model summary.
#[derive(Clone, Debug)]
pub struct SummaryUsage {
    pub prompt_tokens: usize,
    pub completion_tokens: usize,
    pub total_tokens: usize,
    pub model: String,
}

/// A summary of extracted content.
#[derive(Clone, Debug)]
pub struct Summary {
    /// The summary text.
    pub text: String,
    /// How it was made: `rule-based` or `llm`.
    pub method: String,
    /// Sizes of the content summarized.
    pub stats: ContentStats,
    /// Token usage, when a model wrote it.
    pub usage: Option<SummaryUsage>,
}

/// The rule-based summary text of `text` with sizes `stats`: the first
/// `preview` characters; when the text is longer, followed by `...` and a
/// line `[C chars, L lines]` with the original's sizes.
pub open spec fn rule_based_text(text: Seq<char>, stats: ContentStats, preview: usize) -> Seq<char> {
    if text.len() > preview {
        text.take(preview as int) + "...\n["@ + decimal(stats.total_chars as nat) + " chars, "@
            + decimal(stats.total_lines as nat) + " lines]"@
    } else {
        text
    }
}

/// The rule-based summary of `content`: a preview of `preview_chars`
/// characters and, when the content is longer, its sizes.
pub fn rule_based_summary(content: &ExtractedContent, preview_chars: usize) -> (r: Summary)
    ensures
        r.text@ == rule_based_text(content.text@, content.stats, preview_chars),
        r.method@ == "rule-based"@,
        r.stats == content.stats,
        r.usage is None,
{
    let cs = chars_of(content.text.as_str());
    let text = if cs.len() > preview_chars {
        let head = sub_chars(&cs, 0, preview_chars);
        assert(head@ =~= cs@.take(preview_chars as int));
        let s = string_of(head.as_slice());
        let s = s.concat("...\n[");
        let s = s.concat(decimal_string(content.stats.total_chars).as_str());
        let s = s.concat(" chars, ");
        let s = s.concat(decimal_string(content.stats.total_lines).as_str());
        s.concat(" lines]")
    } else {
        string_of(cs.as_slice())
    };
    Summary { text, method: "rule-based".to_owned(), stats: content.stats, usage: None }
}

} // verus!
