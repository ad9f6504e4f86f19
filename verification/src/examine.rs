//! What one record comes to under the criteria: skipped, matched, or not fit to be examined.

use vstd::prelude::*;
use vstd::string::StringExecFns;
use crate::duration::{duration_seconds, parse_duration};
use crate::record::{CallRecord, CallRecordView, FilterCriteria, FilterCriteriaView};

verus! {

/// A column of the call-data table.
#[derive(Clone, Copy, Debug, PartialEq, Eq, Structural)]
pub enum Column {
    Duration,
    UserPhoneNumber,
    CallSuccessfullyCompleted,
}

/// Why a record could not be examined.
#[derive(Clone, Copy, Debug, PartialEq, Eq, Structural)]
pub enum RecordError {
    /// The record lacks a column that had to be read.
    MissingColumn(Column),
    /// The record's duration text denotes no duration.
    MalformedDuration,
}

/// What examining one record comes to.
#[derive(Clone, Copy, Debug, PartialEq, Eq, Structural)]
pub enum Outcome {
    /// The record does not pass the criteria and counts for nothing.
    Skipped,
    /// The record passes the criteria; `successful` tells whether its call completed.
    Matched { successful: bool },
}

/// What examining `record` under `filter` comes to.
///
/// The duration is read first, and a record whose duration lies outside the range is skipped
/// whatever else it holds.  The phone number is read only where the criteria name one, and has
/// to equal it character for character.  The completion flag is read only for a record that
/// passes.  A column that is not read may be missing.
pub open spec fn examine_spec(record: CallRecordView, filter: FilterCriteriaView) -> Result<
    Outcome,
    RecordError,
> {
    match record.duration {
        None => Err(RecordError::MissingColumn(Column::Duration)),
        Some(text) => match duration_seconds(text) {
            None => Err(RecordError::MalformedDuration),
            Some(seconds) => if seconds < filter.duration_min || seconds > filter.duration_max {
                Ok(Outcome::Skipped)
            } else if filter.user_phone_number is Some && record.user_phone_number is None {
                Err(RecordError::MissingColumn(Column::UserPhoneNumber))
            } else if filter.user_phone_number is Some && record.user_phone_number
                != filter.user_phone_number {
                Ok(Outcome::Skipped)
            } else {
                match record.call_successfully_completed {
                    None => Err(RecordError::MissingColumn(Column::CallSuccessfullyCompleted)),
                    Some(successful) => Ok(Outcome::Matched { successful }),
                }
            },
        },
    }
}

/// The name of `column` in the table.
pub open spec fn column_name(column: Column) -> Seq<char> {
    match column {
        Column::Duration => "duration"@,
        Column::UserPhoneNumber => "user_phone_number"@,
        Column::CallSuccessfullyCompleted => "call_successfully_completed"@,
    }
}

/// What to tell the user about `error`.
pub open spec fn record_error_message(error: RecordError) -> Seq<char> {
    match error {
        RecordError::MissingColumn(column) => "Column `"@ + column_name(column)
            + "` not found in the table"@,
        RecordError::MalformedDuration => "Failed to parse duration from table"@,
    }
}

/// Examines one record under `filter`.
///
/// A record whose duration text denotes no duration, or that lacks a column that had to be
/// read, is an error and not a record to skip.
pub fn examine(record: &CallRecord, filter: &FilterCriteria) -> (outcome: Result<
    Outcome,
    RecordError,
>)
    ensures
        outcome == examine_spec(record@, filter@),
{
    let seconds = match &record.duration {
        None => { return Err(RecordError::MissingColumn(Column::Duration)); },
        Some(text) => match parse_duration(text.as_str()) {
            None => { return Err(RecordError::MalformedDuration); },
            Some(seconds) => seconds,
        },
    };
    if seconds < filter.duration_min || seconds > filter.duration_max {
        return Ok(Outcome::Skipped);
    }
    if let Some(wanted) = &filter.user_phone_number {
        match &record.user_phone_number {
            None => { return Err(RecordError::MissingColumn(Column::UserPhoneNumber)); },
            Some(number) => {
                if *wanted != *number {
                    return Ok(Outcome::Skipped);
                }
            },
        }
    }
    match record.call_successfully_completed {
        None => Err(RecordError::MissingColumn(Column::CallSuccessfullyCompleted)),
        Some(successful) => Ok(Outcome::Matched { successful }),
    }
}

impl Column {
    /// The name of the column in the table.
    pub fn name(&self) -> (name: &'static str)
        ensures
            name@ == column_name(*self),
    {
        match self {
            Column::Duration => "duration",
            Column::UserPhoneNumber => "user_phone_number",
            Column::CallSuccessfullyCompleted => "call_successfully_completed",
        }
    }
}

impl RecordError {
    /// A sentence that says what is wrong with the record.
    pub fn message(&self) -> (text: String)
        ensures
            text@ == record_error_message(*self),
    {
        match self {
            RecordError::MissingColumn(column) => {
                let mut text = "Column `".to_owned();
                text.append(column.name());
                text.append("` not found in the table");
                text
            },
            RecordError::MalformedDuration => "Failed to parse duration from table".to_owned(),
        }
    }
}

} // verus!
