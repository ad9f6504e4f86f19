//! Success statistics over call-detail records.
//!
//! A call-detail record names the duration of a call as `hours:minutes:seconds` text, the
//! phone number of the user and whether the call completed.  The crate reads that duration text
//! ([`duration`]), holds the records and the criteria that select among them ([`record`]),
//! decides what one record comes to under the criteria ([`examine`]), and counts over a sequence
//! of records those that match and the completed calls among them ([`aggregate`]).

pub mod aggregate;
pub mod duration;
pub mod examine;
pub mod record;
