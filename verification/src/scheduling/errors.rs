use vstd::prelude::*;
use vstd::string::StringExecFns;
use std::fmt::Debug;

verus! {

#[derive(Debug, Clone, Copy)]
pub enum ConversionError<T> where T: Debug {
    /// The value to be converted is out of the defined range.
    /// `RangeError(value, lower, upper)`
    RangeError(T, T, T),
}

/// A failure to read an input. Where a parser outside this library has refused the input,
/// the variant carries the words in which it said so.
#[derive(Debug, PartialEq, Eq)]
pub enum ParseError {
    /// There was an error parsing a timezone string
    Timezone(String),
    /// There was an error parsing a datetime
    DateTime(String),
    /// There was an error parsing a cron expression
    CronExpr(String),
    /// The parsed input could not be resolved into a useful output
    ResolutionFailed,
}

#[derive(Debug, PartialEq, Eq)]
pub enum TimingError {
    /// A parse error occurred while trying to parse one or more of the parameters
    /// needed to generate a `Timing`.
    ParseError(ParseError),
    /// The frequency expression has a validity date after which the timing should stop
    /// repeating, and that validity date is now passed.
    FrequencyExpired,
    /// Some of the required frequency expressions are missing, for example when supplied
    /// an empty cron expression vector or two mutually exclusive parameters are missing as
    /// in monthly frequency expressions.
    MissingExpression,
    /// The timing for the frequency expression cannot be determined at the time after several
    /// attempts at a resolution.
    NonDeterministic,
    /// A conflict is reached when evaluating the timing for a frequency probably because the
    /// previous timing hasn't elapsed or been due yet.
    Conflict,
}

impl ConversionError<u32> {
    /// The words of `message`.
    pub open spec fn message_view(&self) -> Seq<char> {
        match self {
            ConversionError::RangeError(value, lower, upper) => "Value '"@ + crate::utils::decimal(
                *value as int,
            ) + "' is out of range "@ + crate::utils::decimal(*lower as int) + " to "@
                + crate::utils::decimal(*upper as int),
        }
    }

    /// What went wrong, in words.
    pub fn message(&self) -> (text: String)
        ensures
            text@ == self.message_view(),
    {
        match self {
            ConversionError::RangeError(value, lower, upper) => {
                let text = "Value '".to_string();
                let text = text.concat(crate::utils::decimal_string(*value as i64).as_str());
                let text = text.concat("' is out of range ");
                let text = text.concat(crate::utils::decimal_string(*lower as i64).as_str());
                let text = text.concat(" to ");
                text.concat(crate::utils::decimal_string(*upper as i64).as_str())
            },
        }
    }
}

/// The kind of a timing error, without the words of a parser.
#[derive(Debug, Clone, Copy, PartialEq, Eq, Structural)]
pub enum TimingFailure {
    /// A timezone, an anchor or a cron expression could not be read.
    Parse,
    FrequencyExpired,
    MissingExpression,
    NonDeterministic,
    Conflict,
}

impl ParseError {
    /// The words of `message`.
    pub open spec fn message_view(&self) -> Seq<char> {
        match self {
            ParseError::Timezone(err) => err@,
            ParseError::DateTime(err) => err@,
            ParseError::CronExpr(err) => err@,
            ParseError::ResolutionFailed => "The parsed input could not resolve to a useful output"@,
        }
    }

    /// What went wrong, in words.
    pub fn message(&self) -> (text: String)
        ensures
            text@ == self.message_view(),
    {
        match self {
            ParseError::Timezone(err) => err.clone(),
            ParseError::DateTime(err) => err.clone(),
            ParseError::CronExpr(err) => err.clone(),
            ParseError::ResolutionFailed => {
                "The parsed input could not resolve to a useful output".to_string()
            },
        }
    }
}

impl TimingError {
    /// The kind of the error.
    pub open spec fn kind(&self) -> TimingFailure {
        match self {
            TimingError::ParseError(_) => TimingFailure::Parse,
            TimingError::FrequencyExpired => TimingFailure::FrequencyExpired,
            TimingError::MissingExpression => TimingFailure::MissingExpression,
            TimingError::NonDeterministic => TimingFailure::NonDeterministic,
            TimingError::Conflict => TimingFailure::Conflict,
        }
    }

    /// The kind of the error.
    pub fn failure(&self) -> (kind: TimingFailure)
        ensures
            kind == self.kind(),
    {
        match self {
            TimingError::ParseError(_) => TimingFailure::Parse,
            TimingError::FrequencyExpired => TimingFailure::FrequencyExpired,
            TimingError::MissingExpression => TimingFailure::MissingExpression,
            TimingError::NonDeterministic => TimingFailure::NonDeterministic,
            TimingError::Conflict => TimingFailure::Conflict,
        }
    }

    /// What went wrong, in words.
    pub fn message(&self) -> (text: String)
        ensures
            text@ == match self {
                TimingError::ParseError(err) => err.message_view(),
                TimingError::FrequencyExpired => "The timing frequency has expired since its given 'until' is passed "@,
                TimingError::MissingExpression => "The frequency expressions list is either empty or parameters omitted"@,
                TimingError::NonDeterministic => "The correct timing could not be determined at the time"@,
                TimingError::Conflict => "There seem to be ongoing timing that is yet due"@,
            },
    {
        match self {
            TimingError::ParseError(err) => err.message(),
            TimingError::FrequencyExpired => {
                "The timing frequency has expired since its given 'until' is passed ".to_string()
            },
            TimingError::MissingExpression => {
                "The frequency expressions list is either empty or parameters omitted".to_string()
            },
            TimingError::NonDeterministic => {
                "The correct timing could not be determined at the time".to_string()
            },
            TimingError::Conflict => "There seem to be ongoing timing that is yet due".to_string(),
        }
    }
}

} // verus!
