//! Usage counters and error records of calls to the language-model
//! provider.
use vstd::prelude::*;

verus! {

/// The kind of a failed provider call.
#[derive(Clone, Copy, Debug, PartialEq, Eq, Structural, Hash)]
pub enum ErrorCategory {
    /// Network connectivity errors.
    Network,
    /// Authentication failures.
    Authentication,
    /// Rate limiting.
    RateLimit,
    /// Model not found.
    ModelNotFound,
    /// Invalid request.
    InvalidRequest,
    /// Server errors.
    ServerError,
    /// Response parsing errors.
    ParseError,
    /// Timeouts.
    Timeout,
    /// Anything else.
    Unknown,
}

impl ErrorCategory {
    /// The category's name.
    pub open spec fn name(self) -> Seq<char> {
        match self {
            ErrorCategory::Network => "Network"@,
            ErrorCategory::Authentication => "Authentication"@,
            ErrorCategory::RateLimit => "RateLimit"@,
            ErrorCategory::ModelNotFound => "ModelNotFound"@,
            ErrorCategory::InvalidRequest => "InvalidRequest"@,
            ErrorCategory::ServerError => "ServerError"@,
            ErrorCategory::ParseError => "ParseError"@,
            ErrorCategory::Timeout => "Timeout"@,
            ErrorCategory::Unknown => "Unknown"@,
        }
    }

    /// The category's name, as text.
    pub fn to_string(&self) -> (r: String)
        ensures
            r@ == self.name(),
    {
        let s: &str = match self {
            ErrorCategory::Network => "Network",
            ErrorCategory::Authentication => "Authentication",
            ErrorCategory::RateLimit => "RateLimit",
            ErrorCategory::ModelNotFound => "ModelNotFound",
            ErrorCategory::InvalidRequest => "InvalidRequest",
            ErrorCategory::ServerError => "ServerError",
            ErrorCategory::ParseError => "ParseError",
            ErrorCategory::Timeout => "Timeout",
            ErrorCategory::Unknown => "Unknown",
        };
        s.to_owned()
    }

    /// Whether a call that failed this way is worth retrying: rate limits,
    /// network trouble, timeouts and server errors are transient;
    /// authentication, invalid requests, unknown models and unparsable
    /// responses are not.
    pub fn is_retryable(&self) -> (r: bool)
        ensures
            r == (*self == ErrorCategory::RateLimit || *self == ErrorCategory::Network || *self
                == ErrorCategory::Timeout || *self == ErrorCategory::ServerError),
    {
        match self {
            ErrorCategory::RateLimit | ErrorCategory::Network | ErrorCategory::Timeout
            | ErrorCategory::ServerError => true,
            _ => false,
        }
    }
}

impl ErrorCategory {
    /// The category's position among the nine.
    pub open spec fn index(self) -> int {
        match self {
            ErrorCategory::Network => 0,
            ErrorCategory::Authentication => 1,
            ErrorCategory::RateLimit => 2,
            ErrorCategory::ModelNotFound => 3,
            ErrorCategory::InvalidRequest => 4,
            ErrorCategory::ServerError => 5,
            ErrorCategory::ParseError => 6,
            ErrorCategory::Timeout => 7,
            ErrorCategory::Unknown => 8,
        }
    }

    fn index_exec(&self) -> (r: usize)
        ensures
            r == self.index(),
    {
        match self {
            ErrorCategory::Network => 0,
            ErrorCategory::Authentication => 1,
            ErrorCategory::RateLimit => 2,
            ErrorCategory::ModelNotFound => 3,
            ErrorCategory::InvalidRequest => 4,
            ErrorCategory::ServerError => 5,
            ErrorCategory::ParseError => 6,
            ErrorCategory::Timeout => 7,
            ErrorCategory::Unknown => 8,
        }
    }
}

/// `a + b`, staying at `u64::MAX`.
pub open spec fn add_sat(a: u64, b: int) -> u64 {
    if a + b <= u64::MAX {
        (a + b) as u64
    } else {
        u64::MAX
    }
}

fn add_sat_exec(a: u64, b: u64) -> (r: u64)
    ensures
        r == add_sat(a, b as int),
{
    if b > u64::MAX - a {
        u64::MAX
    } else {
        a + b
    }
}

/// Counters of provider calls. Latencies are kept as a sum and a count, so
/// that a caller can take their mean.
#[derive(Clone, Copy, Debug, PartialEq, Eq, Structural)]
pub struct UsageCounts {
    pub total_calls: u64,
    pub successful_calls: u64,
    pub failed_calls: u64,
    pub total_tokens: u64,
    pub prompt_tokens: u64,
    pub completion_tokens: u64,
    pub max_latency_ms: u64,
    pub min_latency_ms: u64,
    pub latency_sum_ms: u64,
    pub latency_samples: u64,
}

/// All counters at zero.
pub open spec fn zero_counts() -> UsageCounts {
    UsageCounts {
        total_calls: 0,
        successful_calls: 0,
        failed_calls: 0,
        total_tokens: 0,
        prompt_tokens: 0,
        completion_tokens: 0,
        max_latency_ms: 0,
        min_latency_ms: 0,
        latency_sum_ms: 0,
        latency_samples: 0,
    }
}

/// One failed call.
pub struct ErrorRecord {
    pub category: ErrorCategory,
    pub message: String,
    pub model: Option<String>,
}

fn copy_record(e: &ErrorRecord) -> (r: ErrorRecord)
    ensures
        r == *e,
{
    let model = match &e.model {
        Some(m) => Some(m.clone()),
        None => None,
    };
    ErrorRecord { category: e.category, message: e.message.clone(), model }
}

/// The counters after a successful call that used these tokens and took
/// `latency_ms`; every counter stays at `u64::MAX` once there.
pub open spec fn after_success(c: UsageCounts, prompt: u64, completion: u64, latency_ms: u64) -> UsageCounts {
    UsageCounts {
        total_calls: add_sat(c.total_calls, 1),
        successful_calls: add_sat(c.successful_calls, 1),
        failed_calls: c.failed_calls,
        total_tokens: add_sat(c.total_tokens, prompt + completion),
        prompt_tokens: add_sat(c.prompt_tokens, prompt as int),
        completion_tokens: add_sat(c.completion_tokens, completion as int),
        max_latency_ms: if latency_ms > c.max_latency_ms {
            latency_ms
        } else {
            c.max_latency_ms
        },
        min_latency_ms: if c.min_latency_ms == 0 || latency_ms < c.min_latency_ms {
            latency_ms
        } else {
            c.min_latency_ms
        },
        latency_sum_ms: add_sat(c.latency_sum_ms, latency_ms as int),
        latency_samples: add_sat(c.latency_samples, 1),
    }
}

/// Collects usage counters, error counts per category and the latest
/// `max_errors` error records.
pub struct TelemetryCollector {
    stats: UsageCounts,
    errors: Vec<ErrorRecord>,
    error_counts: Vec<u64>,
    max_errors: usize,
}

impl TelemetryCollector {
    /// The counters.
    pub closed spec fn counts(&self) -> UsageCounts {
        self.stats
    }

    /// The kept error records, oldest first.
    pub closed spec fn records(&self) -> Seq<ErrorRecord> {
        self.errors@
    }

    /// The number of failures recorded in `c`.
    pub closed spec fn failures(&self, c: ErrorCategory) -> u64 {
        self.error_counts@[c.index()]
    }

    /// How many error records are kept.
    pub closed spec fn capacity(&self) -> usize {
        self.max_errors
    }

    /// One count per category.
    pub closed spec fn wf(&self) -> bool {
        self.error_counts@.len() == 9
    }

    /// A collector that keeps the latest `max_errors` error records.
    pub fn new(max_errors: usize) -> (r: Self)
        ensures
            r.wf(),
            r.counts() == zero_counts(),
            r.records() == Seq::<ErrorRecord>::empty(),
            forall|c: ErrorCategory| r.failures(c) == 0,
            r.capacity() == max_errors,
    {
        let r = TelemetryCollector {
            stats: UsageCounts {
                total_calls: 0,
                successful_calls: 0,
                failed_calls: 0,
                total_tokens: 0,
                prompt_tokens: 0,
                completion_tokens: 0,
                max_latency_ms: 0,
                min_latency_ms: 0,
                latency_sum_ms: 0,
                latency_samples: 0,
            },
            errors: Vec::new(),
            error_counts: vec![0u64; 9],
            max_errors,
        };
        assert forall|c: ErrorCategory| r.failures(c) == 0 by {
            assert(0 <= c.index() < 9);
        }
        r
    }

    /// Records a successful call.
    pub fn record_success(&mut self, prompt_tokens: u64, completion_tokens: u64, latency_ms: u64)
        requires
            old(self).wf(),
        ensures
            final(self).wf(),
            final(self).counts() == after_success(old(self).counts(), prompt_tokens, completion_tokens, latency_ms),
            final(self).records() == old(self).records(),
            forall|c: ErrorCategory| final(self).failures(c) == old(self).failures(c),
            final(self).capacity() == old(self).capacity(),
    {
        let c = self.stats;
        let tokens = add_sat_exec(prompt_tokens, completion_tokens);
        let total_tokens = if (prompt_tokens as u128) + (completion_tokens as u128) > u64::MAX as u128 {
            u64::MAX
        } else {
            add_sat_exec(c.total_tokens, tokens)
        };
        self.stats = UsageCounts {
            total_calls: add_sat_exec(c.total_calls, 1),
            successful_calls: add_sat_exec(c.successful_calls, 1),
            failed_calls: c.failed_calls,
            total_tokens,
            prompt_tokens: add_sat_exec(c.prompt_tokens, prompt_tokens),
            completion_tokens: add_sat_exec(c.completion_tokens, completion_tokens),
            max_latency_ms: if latency_ms > c.max_latency_ms {
                latency_ms
            } else {
                c.max_latency_ms
            },
            min_latency_ms: if c.min_latency_ms == 0 || latency_ms < c.min_latency_ms {
                latency_ms
            } else {
                c.min_latency_ms
            },
            latency_sum_ms: add_sat_exec(c.latency_sum_ms, latency_ms),
            latency_samples: add_sat_exec(c.latency_samples, 1),
        };
    }

    /// Records a failed call: one more call and failure, one more of its
    /// category, and its record, dropping the oldest beyond the capacity.
    pub fn record_failure(&mut self, category: ErrorCategory, message: String, model: Option<String>)
        requires
            old(self).wf(),
        ensures
            final(self).wf(),
            final(self).counts() == (UsageCounts {
                total_calls: add_sat(old(self).counts().total_calls, 1),
                failed_calls: add_sat(old(self).counts().failed_calls, 1),
                ..old(self).counts()
            }),
            ({
                let pushed = old(self).records().push(ErrorRecord { category, message, model });
                final(self).records() == if pushed.len() > old(self).capacity() {
                    pushed.skip(1)
                } else {
                    pushed
                }
            }),
            final(self).failures(category) == add_sat(old(self).failures(category), 1),
            forall|c: ErrorCategory| c != category ==> final(self).failures(c) == old(self).failures(c),
            final(self).capacity() == old(self).capacity(),
    {
        let c = self.stats;
        self.stats = UsageCounts {
            total_calls: add_sat_exec(c.total_calls, 1),
            failed_calls: add_sat_exec(c.failed_calls, 1),
            ..c
        };
        let k = category.index_exec();
        let n = add_sat_exec(self.error_counts[k], 1);
        self.error_counts.set(k, n);
        let ghost pushed = self.errors@.push(ErrorRecord { category, message, model });
        self.errors.push(ErrorRecord { category, message, model });
        if self.errors.len() > self.max_errors {
            self.errors.remove(0);
            assert(self.errors@ =~= pushed.skip(1));
        }
        proof {
            assert forall|c2: ErrorCategory| c2 != category implies self.failures(c2) == old(self).failures(c2) by {
                assert(c2.index() != category.index());
            }
        }
    }

    /// The counters.
    pub fn get_stats(&self) -> (r: UsageCounts)
        ensures
            r == self.counts(),
    {
        self.stats
    }

    /// The failures recorded in `category`.
    pub fn get_error_count(&self, category: ErrorCategory) -> (r: u64)
        requires
            self.wf(),
        ensures
            r == self.failures(category),
    {
        self.error_counts[category.index_exec()]
    }

    /// The latest `limit` error records (all when there are fewer), latest
    /// first.
    pub fn get_recent_errors(&self, limit: usize) -> (r: Vec<ErrorRecord>)
        ensures
            r@.len() == if limit < self.records().len() {
                limit as int
            } else {
                self.records().len() as int
            },
            forall|i: int| 0 <= i < r@.len() ==> #[trigger] r@[i] == self.records()[self.records().len() - 1 - i],
    {
        let n = self.errors.len();
        let k = if limit < n {
            limit
        } else {
            n
        };
        let mut r: Vec<ErrorRecord> = Vec::new();
        let mut i: usize = 0;
        while i < k
            invariant
                k <= n,
                n == self.errors@.len(),
                i <= k,
                r@.len() == i,
                forall|j: int| 0 <= j < i ==> #[trigger] r@[j] == self.errors@[n - 1 - j],
            decreases k - i,
        {
            r.push(copy_record(&self.errors[n - 1 - i]));
            i = i + 1;
        }
        r
    }

    /// Clears counters, counts and records.
    pub fn reset(&mut self)
        ensures
            final(self).wf(),
            final(self).counts() == zero_counts(),
            final(self).records() == Seq::<ErrorRecord>::empty(),
            forall|c: ErrorCategory| final(self).failures(c) == 0,
            final(self).capacity() == old(self).capacity(),
    {
        *self = Self::new(self.max_errors);
    }
}

} // verus!
