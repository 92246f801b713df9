//! Token usage records and limits.
use vstd::prelude::*;

use crate::text::{lowercase_of, same_text, to_lowercase};

verus! {

/// The period a usage record covers.
#[derive(PartialEq, Eq, Structural, Clone, Copy, Debug)]
pub enum UsagePeriod {
    Daily,
    Weekly,
    Monthly,
}

/// The lower-case name of a value of `UsagePeriod`.
pub open spec fn period_name(x: UsagePeriod) -> Seq<char> {
    match x {
        UsagePeriod::Daily => "daily"@,
        UsagePeriod::Weekly => "weekly"@,
        UsagePeriod::Monthly => "monthly"@,
    }
}

/// The value a lower-case name stands for; any other name reads as `Daily`.
pub open spec fn period_from_lower(t: Seq<char>) -> UsagePeriod {
    if t == "weekly"@ {
        UsagePeriod::Weekly
    } else if t == "monthly"@ {
        UsagePeriod::Monthly
    } else {
        UsagePeriod::Daily
    }
}

impl UsagePeriod {
    /// The lower-case name of this value.
    pub fn as_str(&self) -> (r: &'static str)
        ensures
            r@ == period_name(*self),
    {
        match self {
            UsagePeriod::Daily => "daily",
            UsagePeriod::Weekly => "weekly",
            UsagePeriod::Monthly => "monthly",
        }
    }

    /// The value named by `s`, which is already in lower case.
    pub fn from_lowercase(s: &str) -> (r: UsagePeriod)
        ensures
            r == period_from_lower(s@),
    {
        if same_text(s, "weekly") {
            UsagePeriod::Weekly
        } else if same_text(s, "monthly") {
            UsagePeriod::Monthly
        } else {
            UsagePeriod::Daily
        }
    }

    /// The value named by `s`, in any case.
    pub fn from_str(s: &str) -> (r: UsagePeriod)
        ensures
            r == period_from_lower(lowercase_of(s@)),
    {
        let lower = to_lowercase(s);
        UsagePeriod::from_lowercase(lower.as_str())
    }
}

/// A usage record as the store holds it.
#[derive(Debug, Clone)]
pub struct UsageStatsRow {
    pub id: i64,
    pub date: String,
    pub period: String,
    pub input_tokens: i64,
    pub output_tokens: i64,
    pub total_tokens: i64,
    pub request_count: i64,
    pub error_count: i64,
    pub model_usage: Option<String>,
    pub created_at: String,
    pub updated_at: String,
}

/// Configured usage limits.
#[derive(Debug, Clone)]
pub struct UsageLimits {
    pub daily_token_limit: Option<i64>,
    pub weekly_token_limit: Option<i64>,
    pub monthly_token_limit: Option<i64>,
    pub daily_request_limit: Option<i64>,
}

/// Why a usage operation failed.
#[derive(Debug, Clone)]
pub enum UsageError {
    Database(String),
}

} // verus!
