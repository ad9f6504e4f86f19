//! Call-detail records and the criteria that select among them.

use vstd::prelude::*;
use crate::duration::{duration_seconds, parse_duration};

verus! {

/// One row of call data.  A field is `None` where the row has no such column.
#[derive(Clone, Debug, PartialEq, Eq)]
pub struct CallRecord {
    /// How long the call lasted, as `hours:minutes:seconds` text.
    pub duration: Option<String>,
    /// The phone number of the user who made the call.
    pub user_phone_number: Option<String>,
    /// Whether the call completed successfully.
    pub call_successfully_completed: Option<bool>,
}

/// A call-detail record as plain values.
pub struct CallRecordView {
    pub duration: Option<Seq<char>>,
    pub user_phone_number: Option<Seq<char>>,
    pub call_successfully_completed: Option<bool>,
}

/// Which records count: an optional phone number that a record has to carry, and the inclusive
/// range of seconds that its duration has to lie in.  A range whose lower bound lies above its
/// upper bound holds no duration.
#[derive(Clone, Debug, PartialEq, Eq)]
pub struct FilterCriteria {
    /// The only phone number that counts, if any.
    pub user_phone_number: Option<String>,
    /// The shortest duration that counts, in seconds.
    pub duration_min: u64,
    /// The longest duration that counts, in seconds.
    pub duration_max: u64,
}

/// Filter criteria as plain values.
pub struct FilterCriteriaView {
    pub user_phone_number: Option<Seq<char>>,
    pub duration_min: u64,
    pub duration_max: u64,
}

/// Why filter criteria could not be made from their textual form.
#[derive(Clone, Copy, Debug, PartialEq, Eq, Structural)]
pub enum FilterError {
    /// The text of the lower bound denotes no duration.
    MalformedDurationMin,
    /// The text of the upper bound denotes no duration.
    MalformedDurationMax,
}

/// The characters of an optional text.
pub open spec fn text_of(text: Option<String>) -> Option<Seq<char>> {
    match text {
        Some(text) => Some(text@),
        None => None,
    }
}

impl View for CallRecord {
    type V = CallRecordView;

    open spec fn view(&self) -> CallRecordView {
        CallRecordView {
            duration: text_of(self.duration),
            user_phone_number: text_of(self.user_phone_number),
            call_successfully_completed: self.call_successfully_completed,
        }
    }
}

impl View for FilterCriteria {
    type V = FilterCriteriaView;

    open spec fn view(&self) -> FilterCriteriaView {
        FilterCriteriaView {
            user_phone_number: text_of(self.user_phone_number),
            duration_min: self.duration_min,
            duration_max: self.duration_max,
        }
    }
}

/// The plain values of a sequence of records, in the same order.
pub open spec fn views(records: Seq<CallRecord>) -> Seq<CallRecordView> {
    records.map_values(|record: CallRecord| record@)
}

/// The bound that an optional duration text stands for: `default` where there is no text,
/// nothing where the text denotes no duration.
pub open spec fn bound_of(text: Option<Seq<char>>, default: u64) -> Option<u64> {
    match text {
        Some(text) => duration_seconds(text),
        None => Some(default),
    }
}

/// The criteria that the three optional texts stand for, or the first bound that is malformed.
///
/// Without a lower bound the range begins at zero; without an upper bound it ends at the
/// largest count of seconds that 64 bits hold.
pub open spec fn criteria_of(
    user_phone_number: Option<Seq<char>>,
    duration_min: Option<Seq<char>>,
    duration_max: Option<Seq<char>>,
) -> Result<FilterCriteriaView, FilterError> {
    match (bound_of(duration_min, 0), bound_of(duration_max, u64::MAX)) {
        (None, _) => Err(FilterError::MalformedDurationMin),
        (Some(_), None) => Err(FilterError::MalformedDurationMax),
        (Some(min), Some(max)) => Ok(
            FilterCriteriaView { user_phone_number, duration_min: min, duration_max: max },
        ),
    }
}

/// What to tell the user about `error`.
pub open spec fn filter_error_message(error: FilterError) -> Seq<char> {
    match error {
        FilterError::MalformedDurationMin => "Failed to parse duration from the input `duration_min`"@,
        FilterError::MalformedDurationMax => "Failed to parse duration from the input `duration_max`"@,
    }
}

impl CallRecord {
    /// A record of a row that has all three columns.
    pub fn new(
        duration: String,
        user_phone_number: String,
        call_successfully_completed: bool,
    ) -> (record: CallRecord)
        ensures
            record@ == (CallRecordView {
                duration: Some(duration@),
                user_phone_number: Some(user_phone_number@),
                call_successfully_completed: Some(call_successfully_completed),
            }),
    {
        CallRecord {
            duration: Some(duration),
            user_phone_number: Some(user_phone_number),
            call_successfully_completed: Some(call_successfully_completed),
        }
    }
}

impl FilterCriteria {
    /// Criteria from their textual form.
    ///
    /// Each bound is duration text of the form `hours:minutes:seconds`.  Without a lower bound
    /// the range begins at zero; without an upper bound it ends at the largest count of seconds
    /// that 64 bits hold.  The phone number is kept as it is.  Where both bounds are malformed,
    /// the error names the lower one.
    pub fn from_args(
        user_phone_number: Option<String>,
        duration_min: Option<String>,
        duration_max: Option<String>,
    ) -> (criteria: Result<FilterCriteria, FilterError>)
        ensures
            criteria matches Ok(made) ==> criteria_of(
                text_of(user_phone_number),
                text_of(duration_min),
                text_of(duration_max),
            ) == Ok::<FilterCriteriaView, FilterError>(made@),
            criteria matches Err(error) ==> criteria_of(
                text_of(user_phone_number),
                text_of(duration_min),
                text_of(duration_max),
            ) == Err::<FilterCriteriaView, FilterError>(error),
    {
        let min = match read_bound(&duration_min, 0) {
            Some(min) => min,
            None => { return Err(FilterError::MalformedDurationMin); },
        };
        let max = match read_bound(&duration_max, u64::MAX) {
            Some(max) => max,
            None => { return Err(FilterError::MalformedDurationMax); },
        };
        Ok(FilterCriteria { user_phone_number, duration_min: min, duration_max: max })
    }
}

impl FilterError {
    /// A sentence that names the bound that is malformed.
    pub fn message(&self) -> (text: String)
        ensures
            text@ == filter_error_message(*self),
    {
        match self {
            FilterError::MalformedDurationMin => "Failed to parse duration from the input `duration_min`".to_owned(),
            FilterError::MalformedDurationMax => "Failed to parse duration from the input `duration_max`".to_owned(),
        }
    }
}

/// Reads one optional bound.
fn read_bound(text: &Option<String>, default: u64) -> (bound: Option<u64>)
    ensures
        bound == bound_of(text_of(*text), default),
{
    match text {
        Some(text) => parse_duration(text.as_str()),
        None => Some(default),
    }
}

} // verus!
