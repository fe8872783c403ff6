use vstd::prelude::*;
use vstd::std_specs::convert::{FromSpecImpl, TryFromSpecImpl};

use crate::scheduling::errors::ConversionError;
use crate::scheduling::time::{Timestamp, INDEXED_MONTH_DAYS};
use crate::traits::Repeating;
use crate::utils::{
    accepted_by, filter_unique, first_occurrences, images, lemma_distinct_below,
    lemma_filter_agrees, lemma_first_occurrences, lemma_first_occurrences_mapped, map_unique,
};

verus! {

#[derive(Debug, PartialEq, Eq)]
pub enum StFrequency {
    Regular(StRegularFrequency),
    Custom(StCustomFrequency),
}

#[derive(Debug, Clone, Copy, PartialEq, Eq, Structural)]
pub enum StFrequencyType {
    Hour,
    Day,
    Week,
    Month,
    Year,
    Custom,
}

/// The place of a weekday among those of its name in a month. The order of the ordinals
/// is that of their values: `First` comes before `Second`, and `Last` after `Fifth`.
#[derive(Debug, Clone, Copy, PartialEq, Eq, PartialOrd, Ord, Hash, Structural)]
pub enum StOrdinals {
    First,
    Second,
    Third,
    Fourth,
    Fifth,
    Last,
}

#[derive(Debug, Clone, Copy, PartialEq, Eq, PartialOrd, Ord, Hash, Structural)]
pub enum StMonth {
    Jan,
    Feb,
    Mar,
    Apr,
    May,
    Jun,
    Jul,
    Aug,
    Sep,
    Oct,
    Nov,
    Dec,
}

/// Constant weekdays that are statically known and require no computation
#[derive(Debug, Clone, Copy, PartialEq, Eq, PartialOrd, Ord, Structural)]
pub enum StConstWeekday {
    Sun,
    Mon,
    Tue,
    Wed,
    Thu,
    Fri,
    Sat,
}

/// Variable weekdays that require dynamic computation when combined with ordinals
#[derive(Debug, Clone, Copy, PartialEq, Eq, Structural)]
pub enum StVarWeekday {
    /// Any weekday
    Day,
    /// Any day between Mon-Fri
    Weekday,
    /// Any day between Sat-Sun
    Weekend,
}

#[derive(Debug, Clone, Copy, PartialEq, Eq, Structural)]
pub enum StWeekday {
    Const(StConstWeekday),
    Var(StVarWeekday),
}

#[derive(Debug, PartialEq, Eq)]
pub enum StFrequencyExpression {
    Hourly(StHourlyExpression),
    Daily(StDailyExpression),
    Weekly(StWeeklyExpression),
    Monthly(StMonthlyExpression),
    Yearly(StYearlyExpression),
}

#[derive(Debug, PartialEq, Eq)]
pub enum StMonthlySubExpression {
    OnDays(StMonthlyOnDaysSubExpression),
    OnThe(StMonthlyOnTheSubExpression),
}

#[derive(Debug, Clone, Copy, PartialEq, Eq, Structural)]
pub struct StHourlyExpression {
    pub every: u32,
}

#[derive(Debug, Clone, Copy, PartialEq, Eq, Structural)]
pub struct StDailyExpression {
    pub every: u32,
}

#[derive(Debug, PartialEq, Eq)]
pub struct StWeeklySubExpression {
    pub weekdays: Vec<StConstWeekday>,
}

#[derive(Debug, PartialEq, Eq)]
pub struct StWeeklyExpression {
    pub every: u32,
    pub subexpr: StWeeklySubExpression,
}

#[derive(Debug, PartialEq, Eq)]
pub struct StMonthlyOnDaysSubExpression {
    pub days: Vec<u32>,
}

#[derive(Debug, Clone, Copy, PartialEq, Eq, Structural)]
pub struct StMonthlyOnTheSubExpression {
    pub ordinal: StOrdinals,
    pub weekday: StConstWeekday,
}

#[derive(Debug, PartialEq, Eq)]
pub struct StMonthlyExpression {
    pub every: u32,
    pub subexpr: StMonthlySubExpression,
}

#[derive(Debug, PartialEq, Eq)]
pub struct StYearlyInSubExpression {
    pub months: Vec<StMonth>,
}

#[derive(Debug, Clone, Copy, PartialEq, Eq, Structural)]
pub struct StYearlyOnTheSubExpression {
    pub ordinal: StOrdinals,
    pub weekday: StWeekday,
}

#[derive(Debug, PartialEq, Eq)]
pub struct StYearlySubExpression {
    pub months: Vec<StMonth>,
    pub on: Option<StYearlyOnTheSubExpression>,
}

#[derive(Debug, PartialEq, Eq)]
pub struct StYearlyExpression {
    pub every: u32,
    pub subexpr: StYearlySubExpression,
}

#[derive(Debug, PartialEq, Eq)]
pub struct StRegularFrequency {
    pub ftype: StFrequencyType,
    pub until: Option<Timestamp>,
    pub expr: StFrequencyExpression,
}

#[derive(Debug, PartialEq, Eq)]
pub struct StCustomFrequency {
    pub ftype: StFrequencyType,
    pub until: Option<Timestamp>,
    pub cron_expressions: Vec<String>,
}

/// The ordinal with the given value, which is at most 5.
pub open spec fn ordinal_of_value(value: int) -> StOrdinals {
    if value == 0 {
        StOrdinals::First
    } else if value == 1 {
        StOrdinals::Second
    } else if value == 2 {
        StOrdinals::Third
    } else if value == 3 {
        StOrdinals::Fourth
    } else if value == 4 {
        StOrdinals::Fifth
    } else {
        StOrdinals::Last
    }
}

/// The weekday with the given value modulo 7, where 0 is Sunday.
pub open spec fn weekday_of_value(value: int) -> StConstWeekday {
    let v = value % 7;
    if v == 0 {
        StConstWeekday::Sun
    } else if v == 1 {
        StConstWeekday::Mon
    } else if v == 2 {
        StConstWeekday::Tue
    } else if v == 3 {
        StConstWeekday::Wed
    } else if v == 4 {
        StConstWeekday::Thu
    } else if v == 5 {
        StConstWeekday::Fri
    } else {
        StConstWeekday::Sat
    }
}

/// The month with the given value modulo 12, where 0 is January.
pub open spec fn month_of_value(value: int) -> StMonth {
    let v = value % 12;
    if v == 0 {
        StMonth::Jan
    } else if v == 1 {
        StMonth::Feb
    } else if v == 2 {
        StMonth::Mar
    } else if v == 3 {
        StMonth::Apr
    } else if v == 4 {
        StMonth::May
    } else if v == 5 {
        StMonth::Jun
    } else if v == 6 {
        StMonth::Jul
    } else if v == 7 {
        StMonth::Aug
    } else if v == 8 {
        StMonth::Sep
    } else if v == 9 {
        StMonth::Oct
    } else if v == 10 {
        StMonth::Nov
    } else {
        StMonth::Dec
    }
}

impl StOrdinals {
    /// The value of the ordinal, from 0 (`First`) to 5 (`Last`).
    pub open spec fn value(self) -> int {
        match self {
            StOrdinals::First => 0,
            StOrdinals::Second => 1,
            StOrdinals::Third => 2,
            StOrdinals::Fourth => 3,
            StOrdinals::Fifth => 4,
            StOrdinals::Last => 5,
        }
    }

    /// Gets the value, from 0-5, of the given enum variant
    pub fn to_value(&self) -> (v: u32)
        ensures
            v == self.value(),
    {
        match self {
            StOrdinals::First => 0,
            StOrdinals::Second => 1,
            StOrdinals::Third => 2,
            StOrdinals::Fourth => 3,
            StOrdinals::Fifth => 4,
            StOrdinals::Last => 5,
        }
    }

    /// Gets the enum variant from a value between 0-5
    pub fn from_value(value: &u32) -> (ordinal: Self)
        requires
            *value <= 5,
        ensures
            ordinal == ordinal_of_value(*value as int),
            ordinal.value() == *value,
    {
        match *value {
            0 => StOrdinals::First,
            1 => StOrdinals::Second,
            2 => StOrdinals::Third,
            3 => StOrdinals::Fourth,
            4 => StOrdinals::Fifth,
            _ => StOrdinals::Last,
        }
    }

    /// The name of the ordinal.
    pub fn name(&self) -> (text: &'static str)
        ensures
            text@ == match self {
                StOrdinals::First => "First"@,
                StOrdinals::Second => "Second"@,
                StOrdinals::Third => "Third"@,
                StOrdinals::Fourth => "Fourth"@,
                StOrdinals::Fifth => "Fifth"@,
                StOrdinals::Last => "Last"@,
            },
    {
        match self {
            StOrdinals::First => "First",
            StOrdinals::Second => "Second",
            StOrdinals::Third => "Third",
            StOrdinals::Fourth => "Fourth",
            StOrdinals::Fifth => "Fifth",
            StOrdinals::Last => "Last",
        }
    }
}

impl TryFrom<u32> for StOrdinals {
    type Error = ConversionError<u32>;

    fn try_from(value: u32) -> (r: Result<Self, Self::Error>) {
        if value <= 5 {
            Ok(StOrdinals::from_value(&value))
        } else {
            Err(ConversionError::RangeError(value, 0, 5))
        }
    }
}

impl TryFromSpecImpl<u32> for StOrdinals {
    open spec fn obeys_try_from_spec() -> bool {
        true
    }

    open spec fn try_from_spec(value: u32) -> Result<Self, Self::Error> {
        if value <= 5 {
            Ok(ordinal_of_value(value as int))
        } else {
            Err(ConversionError::RangeError(value, 0, 5))
        }
    }
}

impl From<StOrdinals> for u32 {
    fn from(value: StOrdinals) -> (v: u32) {
        value.to_value()
    }
}

impl FromSpecImpl<StOrdinals> for u32 {
    open spec fn obeys_from_spec() -> bool {
        true
    }

    open spec fn from_spec(value: StOrdinals) -> u32 {
        value.value() as u32
    }
}

impl StConstWeekday {
    /// The value of the weekday, from 0 (Sunday) to 6 (Saturday).
    pub open spec fn value(self) -> int {
        match self {
            StConstWeekday::Sun => 0,
            StConstWeekday::Mon => 1,
            StConstWeekday::Tue => 2,
            StConstWeekday::Wed => 3,
            StConstWeekday::Thu => 4,
            StConstWeekday::Fri => 5,
            StConstWeekday::Sat => 6,
        }
    }

    /// Gets the value, from 0-6, of the given weekday
    pub fn to_value(&self) -> (v: u32)
        ensures
            v == self.value(),
    {
        match self {
            StConstWeekday::Sun => 0,
            StConstWeekday::Mon => 1,
            StConstWeekday::Tue => 2,
            StConstWeekday::Wed => 3,
            StConstWeekday::Thu => 4,
            StConstWeekday::Fri => 5,
            StConstWeekday::Sat => 6,
        }
    }

    /// The short name of the weekday.
    pub fn name(&self) -> (text: &'static str)
        ensures
            text@ == match self {
                StConstWeekday::Sun => "Sun"@,
                StConstWeekday::Mon => "Mon"@,
                StConstWeekday::Tue => "Tue"@,
                StConstWeekday::Wed => "Wed"@,
                StConstWeekday::Thu => "Thu"@,
                StConstWeekday::Fri => "Fri"@,
                StConstWeekday::Sat => "Sat"@,
            },
    {
        match self {
            StConstWeekday::Sun => "Sun",
            StConstWeekday::Mon => "Mon",
            StConstWeekday::Tue => "Tue",
            StConstWeekday::Wed => "Wed",
            StConstWeekday::Thu => "Thu",
            StConstWeekday::Fri => "Fri",
            StConstWeekday::Sat => "Sat",
        }
    }
}

impl From<u32> for StConstWeekday {
    fn from(value: u32) -> (weekday: Self) {
        match value % 7 {
            0 => StConstWeekday::Sun,
            1 => StConstWeekday::Mon,
            2 => StConstWeekday::Tue,
            3 => StConstWeekday::Wed,
            4 => StConstWeekday::Thu,
            5 => StConstWeekday::Fri,
            _ => StConstWeekday::Sat,
        }
    }
}

impl FromSpecImpl<u32> for StConstWeekday {
    open spec fn obeys_from_spec() -> bool {
        true
    }

    open spec fn from_spec(value: u32) -> Self {
        weekday_of_value(value as int)
    }
}

impl From<StConstWeekday> for u32 {
    fn from(value: StConstWeekday) -> (v: u32) {
        value.to_value()
    }
}

impl FromSpecImpl<StConstWeekday> for u32 {
    open spec fn obeys_from_spec() -> bool {
        true
    }

    open spec fn from_spec(value: StConstWeekday) -> u32 {
        value.value() as u32
    }
}

impl StMonth {
    /// The value of the month, from 0 (January) to 11 (December).
    pub open spec fn value(self) -> int {
        match self {
            StMonth::Jan => 0,
            StMonth::Feb => 1,
            StMonth::Mar => 2,
            StMonth::Apr => 3,
            StMonth::May => 4,
            StMonth::Jun => 5,
            StMonth::Jul => 6,
            StMonth::Aug => 7,
            StMonth::Sep => 8,
            StMonth::Oct => 9,
            StMonth::Nov => 10,
            StMonth::Dec => 11,
        }
    }

    /// Gets the value, from 0-11, for the given month
    pub fn to_value(&self) -> (v: u32)
        ensures
            v == self.value(),
    {
        match self {
            StMonth::Jan => 0,
            StMonth::Feb => 1,
            StMonth::Mar => 2,
            StMonth::Apr => 3,
            StMonth::May => 4,
            StMonth::Jun => 5,
            StMonth::Jul => 6,
            StMonth::Aug => 7,
            StMonth::Sep => 8,
            StMonth::Oct => 9,
            StMonth::Nov => 10,
            StMonth::Dec => 11,
        }
    }

    /// Gets the month from a value between 0-11
    ///
    /// # NOTE
    ///
    /// Out-of-bounds values are cycled between 0-11 with modular arithmetic
    pub fn from_value(value: u32) -> (month: Self)
        ensures
            month == month_of_value(value as int),
            month.value() == value % 12,
    {
        match value % 12 {
            0 => StMonth::Jan,
            1 => StMonth::Feb,
            2 => StMonth::Mar,
            3 => StMonth::Apr,
            4 => StMonth::May,
            5 => StMonth::Jun,
            6 => StMonth::Jul,
            7 => StMonth::Aug,
            8 => StMonth::Sep,
            9 => StMonth::Oct,
            10 => StMonth::Nov,
            _ => StMonth::Dec,
        }
    }

    /// The number of days of the month in a year that is no leap year.
    pub fn last_day_of_month(&self) -> (days: u32)
        ensures
            days == crate::scheduling::calendar::month_length(1, self.value()),
    {
        let index = self.to_value();
        INDEXED_MONTH_DAYS[index as usize]
    }

    /// The number of days of the month in a leap year.
    pub fn last_day_of_leap_month(&self) -> (days: u32)
        ensures
            days == crate::scheduling::calendar::month_length(4, self.value()),
    {
        match self {
            StMonth::Feb => self.last_day_of_month() + 1,
            _ => self.last_day_of_month(),
        }
    }

    /// The short name of the month.
    pub fn name(&self) -> (text: &'static str)
        ensures
            text@ == match self {
                StMonth::Jan => "Jan"@,
                StMonth::Feb => "Feb"@,
                StMonth::Mar => "Mar"@,
                StMonth::Apr => "Apr"@,
                StMonth::May => "May"@,
                StMonth::Jun => "Jun"@,
                StMonth::Jul => "Jul"@,
                StMonth::Aug => "Aug"@,
                StMonth::Sep => "Sep"@,
                StMonth::Oct => "Oct"@,
                StMonth::Nov => "Nov"@,
                StMonth::Dec => "Dec"@,
            },
    {
        match self {
            StMonth::Jan => "Jan",
            StMonth::Feb => "Feb",
            StMonth::Mar => "Mar",
            StMonth::Apr => "Apr",
            StMonth::May => "May",
            StMonth::Jun => "Jun",
            StMonth::Jul => "Jul",
            StMonth::Aug => "Aug",
            StMonth::Sep => "Sep",
            StMonth::Oct => "Oct",
            StMonth::Nov => "Nov",
            StMonth::Dec => "Dec",
        }
    }
}

impl From<u32> for StMonth {
    fn from(value: u32) -> (month: Self) {
        StMonth::from_value(value)
    }
}

impl FromSpecImpl<u32> for StMonth {
    open spec fn obeys_from_spec() -> bool {
        true
    }

    open spec fn from_spec(value: u32) -> Self {
        month_of_value(value as int)
    }
}

impl From<StMonth> for u32 {
    fn from(value: StMonth) -> (v: u32) {
        value.to_value()
    }
}

impl FromSpecImpl<StMonth> for u32 {
    open spec fn obeys_from_spec() -> bool {
        true
    }

    open spec fn from_spec(value: StMonth) -> u32 {
        value.value() as u32
    }
}

impl Repeating for StFrequencyExpression {
    open spec fn every_view(&self) -> u32 {
        match self {
            StFrequencyExpression::Daily(v) => v.every,
            StFrequencyExpression::Hourly(v) => v.every,
            StFrequencyExpression::Monthly(v) => v.every,
            StFrequencyExpression::Weekly(v) => v.every,
            StFrequencyExpression::Yearly(v) => v.every,
        }
    }

    fn every(&self) -> (n: u32) {
        match self {
            StFrequencyExpression::Daily(v) => v.every,
            StFrequencyExpression::Hourly(v) => v.every,
            StFrequencyExpression::Monthly(v) => v.every,
            StFrequencyExpression::Weekly(v) => v.every,
            StFrequencyExpression::Yearly(v) => v.every,
        }
    }
}

impl StHourlyExpression {
    pub fn new(every: u32) -> (expr: Self)
        ensures
            expr.every == every,
    {
        StHourlyExpression { every }
    }
}

impl StDailyExpression {
    pub fn new(every: u32) -> (expr: Self)
        ensures
            expr.every == every,
    {
        StDailyExpression { every }
    }
}

/// The weekdays of the values, each of them once, in the order in which they first occur.
pub open spec fn weekdays_of_values(values: Seq<u32>) -> Seq<StConstWeekday> {
    first_occurrences(values.map_values(|v: u32| weekday_of_value(v as int)))
}

/// The months of the values, each of them once, in the order in which they first occur.
pub open spec fn months_of_values(values: Seq<u32>) -> Seq<StMonth> {
    first_occurrences(values.map_values(|v: u32| month_of_value(v as int)))
}

/// The values that a month can have as a day, each of them once, in the order in which they
/// first occur.
pub open spec fn days_of_values(values: Seq<u32>) -> Seq<u32> {
    first_occurrences(values.filter(|d: u32| 1 <= d <= 31))
}

/// The different residues of numbers modulo a positive number are no more than that number
/// says.
proof fn lemma_few_residues(values: Seq<u32>, modulus: u32)
    requires
        modulus > 0,
    ensures
        first_occurrences(values.map_values(|v: u32| (v % modulus) as u32)).len() <= modulus,
{
    let reduced = values.map_values(|v: u32| (v % modulus) as u32);
    let once = first_occurrences(reduced);
    lemma_first_occurrences(reduced);
    let numbers = once.map_values(|r: u32| r as int);
    assert forall|i: int| 0 <= i < numbers.len() implies 0 <= #[trigger] numbers[i] < modulus by {
        assert(once.contains(once[i]));
        assert(reduced.contains(once[i]));
        let k = reduced.index_of(once[i]);
        assert(reduced[k] == once[i]);
    }
    assert forall|i: int, j: int|
        0 <= i < numbers.len() && 0 <= j < numbers.len() && i != j implies numbers[i]
        != numbers[j] by {
        assert(once[i] != once[j]);
    }
    lemma_distinct_below(numbers, modulus as int);
}

/// The values, each of them taken modulo a positive number, then each result once, in the
/// order in which the results first occur.
fn unique_residues(values: &Vec<u32>, modulus: u32) -> (residues: Vec<u32>)
    requires
        modulus > 0,
    ensures
        residues@ == first_occurrences(values@.map_values(|v: u32| (v % modulus) as u32)),
{
    let residue = |v: &u32| -> (r: u32)
        requires
            modulus > 0,
        ensures
            r == *v % modulus,
        { *v % modulus };
    let residues = map_unique(values, residue);
    proof {
        assert(images(residue, values@) =~= values@.map_values(|v: u32| (v % modulus) as u32));
    }
    residues
}

impl StWeeklySubExpression {
    /// Initializes a sub expression for a weekly frequency strategy
    pub fn new(weekdays: Vec<u32>) -> (sub: Self)
        ensures
            sub.weekdays@ == weekdays_of_values(weekdays@),
            sub.weekdays@.len() <= 7,
    {
        let residues = unique_residues(&weekdays, 7);
        proof {
            lemma_few_residues(weekdays@, 7);
        }
        let mut days: Vec<StConstWeekday> = Vec::new();
        let mut i: usize = 0;
        while i < residues.len()
            invariant
                i <= residues.len(),
                days@.len() == i,
                forall|j: int|
                    0 <= j < i ==> #[trigger] days@[j] == weekday_of_value(residues@[j] as int),
            decreases residues.len() - i,
        {
            days.push(StConstWeekday::from(residues[i]));
            i += 1;
        }
        proof {
            let reduced = weekdays@.map_values(|v: u32| (v % 7) as u32);
            let named = |r: u32| weekday_of_value(r as int);
            lemma_first_occurrences_mapped(reduced, named);
            assert(days@ =~= residues@.map_values(named));
            assert(reduced.map_values(named) =~= weekdays@.map_values(
                |v: u32| weekday_of_value(v as int),
            ));
        }
        StWeeklySubExpression { weekdays: days }
    }

    pub fn get_weekdays(&self) -> (weekdays: &Vec<StConstWeekday>)
        ensures
            weekdays@ == self.weekdays@,
    {
        &self.weekdays
    }
}

impl StWeeklyExpression {
    /// Initializes an expression for a weekly frequency strategy
    pub fn new(every: u32, subexpr: StWeeklySubExpression) -> (expr: Self)
        ensures
            expr.every == every,
            expr.subexpr == subexpr,
    {
        StWeeklyExpression { every, subexpr }
    }

    /// Initializes an expression for a weekly frequency strategy
    pub fn with_weekdays(every: u32, weekdays: Vec<u32>) -> (expr: Self)
        ensures
            expr.every == every,
            expr.subexpr.weekdays@ == weekdays_of_values(weekdays@),
            expr.subexpr.weekdays@.len() <= 7,
    {
        StWeeklyExpression { every, subexpr: StWeeklySubExpression::new(weekdays) }
    }

    #[inline]
    pub fn get_subexpr(&self) -> (subexpr: &StWeeklySubExpression)
        ensures
            *subexpr == self.subexpr,
    {
        &self.subexpr
    }
}

/// The different days that a month can have are no more than 31.
proof fn lemma_few_days(values: Seq<u32>)
    ensures
        days_of_values(values).len() <= 31,
{
    let valid = values.filter(|d: u32| 1 <= d <= 31);
    let once = first_occurrences(valid);
    lemma_first_occurrences(valid);
    let numbers = once.map_values(|d: u32| d as int - 1);
    assert forall|i: int| 0 <= i < numbers.len() implies 0 <= #[trigger] numbers[i] < 31 by {
        assert(once.contains(once[i]));
        assert(valid.contains(once[i]));
        let k = valid.index_of(once[i]);
        values.lemma_filter_pred(|d: u32| 1 <= d <= 31, k);
    }
    assert forall|i: int, j: int|
        0 <= i < numbers.len() && 0 <= j < numbers.len() && i != j implies numbers[i]
        != numbers[j] by {
        assert(once[i] != once[j]);
    }
    lemma_distinct_below(numbers, 31);
}

impl StMonthlyOnDaysSubExpression {
    /// Initializes a sub expression for a monthly,
    /// "every \[month\] on \[days\]" relationship, frequency strategy.
    ///
    /// # NOTE
    ///
    /// Duplicate days are removed, and so are the values that no month has as a day.
    pub fn new(days: Vec<u32>) -> (sub: Self)
        ensures
            sub.days@ == days_of_values(days@),
            sub.days@.len() <= 31,
    {
        let in_month = |d: &u32| -> (r: bool)
            ensures
                r == (*d > 0 && *d < 32),
            { *d > 0 && *d < 32 };
        let unique = filter_unique(&days, in_month);
        proof {
            lemma_filter_agrees(days@, accepted_by(in_month), |d: u32| 1 <= d <= 31);
            lemma_few_days(days@);
        }
        StMonthlyOnDaysSubExpression { days: unique }
    }
}

impl StMonthlyOnTheSubExpression {
    /// Initializes a sub expression for a monthly,
    /// "every \[month\] on the \[ordinal (e.g first)\] \[weekday (e.g Sun)\]"
    /// relationship, frequency strategy.
    pub fn new(ordinal: StOrdinals, weekday: StConstWeekday) -> (sub: Self)
        ensures
            sub.ordinal == ordinal,
            sub.weekday == weekday,
    {
        StMonthlyOnTheSubExpression { ordinal, weekday }
    }
}

impl StMonthlyExpression {
    /// Initializes an expression for a monthly,
    /// "every \[month\] on \[days\]" relationship, frequency strategy.
    pub fn with_ondays_expr(every: u32, subexpr: StMonthlyOnDaysSubExpression) -> (expr: Self)
        ensures
            expr.every == every,
            expr.subexpr == StMonthlySubExpression::OnDays(subexpr),
    {
        StMonthlyExpression { every, subexpr: StMonthlySubExpression::OnDays(subexpr) }
    }

    /// Initializes an expression for a monthly,
    /// "every \[month\] on the \[ordinal (e.g first)\] \[weekday (e.g Sun)\]"
    /// relationship, frequency strategy.
    pub fn with_onthe_expr(every: u32, subexpr: StMonthlyOnTheSubExpression) -> (expr: Self)
        ensures
            expr.every == every,
            expr.subexpr == StMonthlySubExpression::OnThe(subexpr),
    {
        StMonthlyExpression { every, subexpr: StMonthlySubExpression::OnThe(subexpr) }
    }

    /// Initializes an `StMonthlyExpression` equivalent to [with_ondays_expr][StMonthlyExpression::with_ondays_expr]
    pub fn with_days(every: u32, days: Vec<u32>) -> (expr: Self)
        ensures
            expr.every == every,
            expr.subexpr matches StMonthlySubExpression::OnDays(sub) && sub.days@
                == days_of_values(days@),
    {
        StMonthlyExpression {
            every,
            subexpr: StMonthlySubExpression::OnDays(StMonthlyOnDaysSubExpression::new(days)),
        }
    }

    /// Initializes an `StMonthlyExpression` equivalent to [with_onthe_expr][StMonthlyExpression::with_onthe_expr]
    pub fn with_ordinal_weekday(every: u32, ordinal: StOrdinals, weekday: StConstWeekday) -> (expr:
        Self)
        ensures
            expr.every == every,
            expr.subexpr == StMonthlySubExpression::OnThe(
                (StMonthlyOnTheSubExpression { ordinal, weekday }),
            ),
    {
        StMonthlyExpression {
            every,
            subexpr: StMonthlySubExpression::OnThe(
                StMonthlyOnTheSubExpression::new(ordinal, weekday),
            ),
        }
    }

    /// A getter for the ordinal-weekday sub-expression
    pub fn get_onthe_subexpr(&self) -> (sub: Option<StMonthlyOnTheSubExpression>)
        ensures
            sub == match self.subexpr {
                StMonthlySubExpression::OnThe(subexpr) => Some(subexpr),
                _ => None,
            },
    {
        match &self.subexpr {
            StMonthlySubExpression::OnThe(subexpr) => Some(*subexpr),
            _ => None,
        }
    }

    /// A getter for the days sub-expression
    pub fn get_ondays_subexpr(&self) -> (sub: Option<StMonthlyOnDaysSubExpression>)
        ensures
            match self.subexpr {
                StMonthlySubExpression::OnDays(subexpr) => sub matches Some(s) && s@ == subexpr@,
                _ => sub is None,
            },
    {
        match &self.subexpr {
            StMonthlySubExpression::OnDays(subexpr) => Some(subexpr.clone()),
            _ => None,
        }
    }
}

/// The months of the values, each of them once, in the order in which they first occur.
fn unique_months(months: &Vec<u32>) -> (unique: Vec<StMonth>)
    ensures
        unique@ == months_of_values(months@),
        unique@.len() <= 12,
{
    let residues = unique_residues(months, 12);
    proof {
        lemma_few_residues(months@, 12);
    }
    let mut unique: Vec<StMonth> = Vec::new();
    let mut i: usize = 0;
    while i < residues.len()
        invariant
            i <= residues.len(),
            unique@.len() == i,
            forall|j: int|
                0 <= j < i ==> #[trigger] unique@[j] == month_of_value(residues@[j] as int),
        decreases residues.len() - i,
    {
        unique.push(StMonth::from_value(residues[i]));
        i += 1;
    }
    proof {
        let reduced = months@.map_values(|v: u32| (v % 12) as u32);
        let named = |r: u32| month_of_value(r as int);
        lemma_first_occurrences_mapped(reduced, named);
        assert(unique@ =~= residues@.map_values(named));
        assert(reduced.map_values(named) =~= months@.map_values(
            |v: u32| month_of_value(v as int),
        ));
    }
    unique
}

impl StYearlyInSubExpression {
    /// Initializes a sub expression for a yearly,
    /// "in \[...months\] relationship, frequency strategy.
    pub fn new(months: Vec<u32>) -> (sub: Self)
        ensures
            sub.months@ == months_of_values(months@),
    {
        StYearlyInSubExpression { months: unique_months(&months) }
    }

    #[inline]
    pub fn get_months(&self) -> (months: Vec<StMonth>)
        ensures
            months@ == self.months@,
    {
        self.months.clone()
    }
}

impl StYearlyOnTheSubExpression {
    /// Initializes a sub expression for a yearly,
    /// "on the \[ordinal (e.g first)\] \[weekday (e.g Sun)\]" relationship, frequency strategy.
    pub fn new(ordinal: StOrdinals, weekday: StConstWeekday) -> (sub: Self)
        ensures
            sub.ordinal == ordinal,
            sub.weekday == StWeekday::Const(weekday),
    {
        StYearlyOnTheSubExpression { ordinal, weekday: StWeekday::Const(weekday) }
    }

    /// Initializes a sub expression for a yearly,
    /// "on the \[ordinal (e.g first)\] \[weekday (e.g Weekend)\]" relationship, frequency strategy.
    pub fn with_var_weekday(ordinal: StOrdinals, weekday: StVarWeekday) -> (sub: Self)
        ensures
            sub.ordinal == ordinal,
            sub.weekday == StWeekday::Var(weekday),
    {
        StYearlyOnTheSubExpression { ordinal, weekday: StWeekday::Var(weekday) }
    }

    #[inline]
    pub fn get_ordinal(&self) -> (ordinal: StOrdinals)
        ensures
            ordinal == self.ordinal,
    {
        self.ordinal
    }

    pub fn get_const_weekday(&self) -> (weekday: Option<StConstWeekday>)
        ensures
            weekday == match self.weekday {
                StWeekday::Const(const_weekday) => Some(const_weekday),
                _ => None,
            },
    {
        match &self.weekday {
            StWeekday::Const(const_weekday) => Some(*const_weekday),
            _ => None,
        }
    }

    pub fn get_var_weekday(&self) -> (weekday: Option<StVarWeekday>)
        ensures
            weekday == match self.weekday {
                StWeekday::Var(var_weekday) => Some(var_weekday),
                _ => None,
            },
    {
        match &self.weekday {
            StWeekday::Var(var_weekday) => Some(*var_weekday),
            _ => None,
        }
    }
}

impl StYearlySubExpression {
    /// Initializes an expression for a yearly,
    /// "`in` \[months (e.g Jan)\] `on` \[ordinal (e.g first)\] \[weekday (e.g Sun)\]"
    /// relationship, frequency strategy.
    pub fn new(months: Vec<u32>, on: Option<StYearlyOnTheSubExpression>) -> (sub: Self)
        ensures
            sub.months@ == months_of_values(months@),
            sub.on == on,
    {
        StYearlySubExpression { months: unique_months(&months), on }
    }

    /// Initializes an expression for a yearly, "`in` \[months (e.g Jan)\]" relationship, frequency strategy.
    pub fn with_months(months: Vec<u32>) -> (sub: Self)
        ensures
            sub.months@ == months_of_values(months@),
            sub.on is None,
    {
        StYearlySubExpression { months: unique_months(&months), on: None }
    }

    /// Initializes an `StYearlySubExpression` with a constant weekday (Sun-Sat) equivalent to
    /// [new][StYearlySubExpression::new] when the `on` argument is not `None`
    pub fn with_months_ordinal_const_weekday(
        months: Vec<u32>,
        ordinal: StOrdinals,
        weekday: StConstWeekday,
    ) -> (sub: Self)
        ensures
            sub.months@ == months_of_values(months@),
            sub.on == Some(
                (StYearlyOnTheSubExpression { ordinal, weekday: StWeekday::Const(weekday) }),
            ),
    {
        StYearlySubExpression {
            months: unique_months(&months),
            on: Some(StYearlyOnTheSubExpression::new(ordinal, weekday)),
        }
    }

    /// Initializes an `StYearlySubExpression` with a variable weekday (Day, Weekday, Weekend)
    /// equivalent to [new][StYearlySubExpression::new] when the `on` argument is not `None`
    pub fn with_months_ordinal_var_weekday(
        months: Vec<u32>,
        ordinal: StOrdinals,
        weekday: StVarWeekday,
    ) -> (sub: Self)
        ensures
            sub.months@ == months_of_values(months@),
            sub.on == Some(
                (StYearlyOnTheSubExpression { ordinal, weekday: StWeekday::Var(weekday) }),
            ),
    {
        StYearlySubExpression {
            months: unique_months(&months),
            on: Some(StYearlyOnTheSubExpression::with_var_weekday(ordinal, weekday)),
        }
    }

    #[inline]
    pub fn get_in_expr(&self) -> (months: Vec<StMonth>)
        ensures
            months@ == self.months@,
    {
        self.months.clone()
    }

    #[inline]
    pub fn get_on_expr(&self) -> (on: Option<StYearlyOnTheSubExpression>)
        ensures
            on == self.on,
    {
        self.on
    }
}

impl StYearlyExpression {
    pub fn new(every: u32, subexpr: StYearlySubExpression) -> (expr: Self)
        ensures
            expr.every == every,
            expr.subexpr == subexpr,
    {
        StYearlyExpression { every, subexpr }
    }

    pub fn with_months(every: u32, months: Vec<u32>) -> (expr: Self)
        ensures
            expr.every == every,
            expr.subexpr.months@ == months_of_values(months@),
            expr.subexpr.on is None,
    {
        StYearlyExpression { every, subexpr: StYearlySubExpression::with_months(months) }
    }

    pub fn with_months_ordinal_const_weekday(
        every: u32,
        months: Vec<u32>,
        ordinal: StOrdinals,
        weekday: StConstWeekday,
    ) -> (expr: Self)
        ensures
            expr.every == every,
            expr.subexpr.months@ == months_of_values(months@),
            expr.subexpr.on == Some(
                (StYearlyOnTheSubExpression { ordinal, weekday: StWeekday::Const(weekday) }),
            ),
    {
        StYearlyExpression {
            every,
            subexpr: StYearlySubExpression::with_months_ordinal_const_weekday(
                months,
                ordinal,
                weekday,
            ),
        }
    }

    pub fn with_months_ordinal_var_weekday(
        every: u32,
        months: Vec<u32>,
        ordinal: StOrdinals,
        weekday: StVarWeekday,
    ) -> (expr: Self)
        ensures
            expr.every == every,
            expr.subexpr.months@ == months_of_values(months@),
            expr.subexpr.on == Some(
                (StYearlyOnTheSubExpression { ordinal, weekday: StWeekday::Var(weekday) }),
            ),
    {
        StYearlyExpression {
            every,
            subexpr: StYearlySubExpression::with_months_ordinal_var_weekday(
                months,
                ordinal,
                weekday,
            ),
        }
    }
}

/// The end of validity that a number of milliseconds since the epoch stands for. A number
/// above what a timestamp holds is read as the timestamp holds it, wrapped round.
pub open spec fn until_of(until: Option<u64>) -> Option<Timestamp> {
    match until {
        Some(ms) => Some(Timestamp::Millis(ms as i64)),
        None => None,
    }
}

fn until_timestamp(until: Option<u64>) -> (r: Option<Timestamp>)
    ensures
        r == until_of(until),
{
    match until {
        Some(ms) => Some(Timestamp::Millis(#[verifier::truncate] (ms as i64))),
        None => None,
    }
}

impl StRegularFrequency {
    pub fn new(ftype: StFrequencyType, expr: StHourlyExpression, until: Option<u64>) -> (f: Self)
        ensures
            f.ftype == ftype,
            f.until == until_of(until),
            f.expr == StFrequencyExpression::Hourly(expr),
    {
        StRegularFrequency {
            ftype,
            until: until_timestamp(until),
            expr: StFrequencyExpression::Hourly(expr),
        }
    }

    pub fn with_daily_expr(ftype: StFrequencyType, expr: StDailyExpression, until: Option<u64>) -> (f:
        Self)
        ensures
            f.ftype == ftype,
            f.until == until_of(until),
            f.expr == StFrequencyExpression::Daily(expr),
    {
        StRegularFrequency {
            ftype,
            until: until_timestamp(until),
            expr: StFrequencyExpression::Daily(expr),
        }
    }

    pub fn with_weekly_expr(
        ftype: StFrequencyType,
        expr: StWeeklyExpression,
        until: Option<u64>,
    ) -> (f: Self)
        ensures
            f.ftype == ftype,
            f.until == until_of(until),
            f.expr == StFrequencyExpression::Weekly(expr),
    {
        StRegularFrequency {
            ftype,
            until: until_timestamp(until),
            expr: StFrequencyExpression::Weekly(expr),
        }
    }

    pub fn with_monthly_expr(
        ftype: StFrequencyType,
        expr: StMonthlyExpression,
        until: Option<u64>,
    ) -> (f: Self)
        ensures
            f.ftype == ftype,
            f.until == until_of(until),
            f.expr == StFrequencyExpression::Monthly(expr),
    {
        StRegularFrequency {
            ftype,
            until: until_timestamp(until),
            expr: StFrequencyExpression::Monthly(expr),
        }
    }

    pub fn with_yearly_expr(
        ftype: StFrequencyType,
        expr: StYearlyExpression,
        until: Option<u64>,
    ) -> (f: Self)
        ensures
            f.ftype == ftype,
            f.until == until_of(until),
            f.expr == StFrequencyExpression::Yearly(expr),
    {
        StRegularFrequency {
            ftype,
            until: until_timestamp(until),
            expr: StFrequencyExpression::Yearly(expr),
        }
    }

    #[inline]
    pub fn get_expr(&self) -> (expr: &StFrequencyExpression)
        ensures
            *expr == self.expr,
    {
        &self.expr
    }

    pub fn get_hourly_expr(&self) -> (expr: Option<StHourlyExpression>)
        ensures
            expr == match self.expr {
                StFrequencyExpression::Hourly(e) => Some(e),
                _ => None,
            },
    {
        match &self.expr {
            StFrequencyExpression::Hourly(expr) => Some(*expr),
            _ => None,
        }
    }

    pub fn get_daily_expr(&self) -> (expr: Option<StDailyExpression>)
        ensures
            expr == match self.expr {
                StFrequencyExpression::Daily(e) => Some(e),
                _ => None,
            },
    {
        match &self.expr {
            StFrequencyExpression::Daily(expr) => Some(*expr),
            _ => None,
        }
    }

    pub fn get_weekly_expr(&self) -> (expr: Option<StWeeklyExpression>)
        ensures
            match self.expr {
                StFrequencyExpression::Weekly(e) => expr matches Some(copy) && copy@ == e@,
                _ => expr is None,
            },
    {
        match &self.expr {
            StFrequencyExpression::Weekly(expr) => Some(expr.clone()),
            _ => None,
        }
    }

    pub fn get_monthly_expr(&self) -> (expr: Option<StMonthlyExpression>)
        ensures
            match self.expr {
                StFrequencyExpression::Monthly(e) => expr matches Some(copy) && copy@ == e@,
                _ => expr is None,
            },
    {
        match &self.expr {
            StFrequencyExpression::Monthly(expr) => Some(expr.clone()),
            _ => None,
        }
    }

    pub fn get_yearly_expr(&self) -> (expr: Option<StYearlyExpression>)
        ensures
            match self.expr {
                StFrequencyExpression::Yearly(e) => expr matches Some(copy) && copy@ == e@,
                _ => expr is None,
            },
    {
        match &self.expr {
            StFrequencyExpression::Yearly(expr) => Some(expr.clone()),
            _ => None,
        }
    }
}

impl StCustomFrequency {
    pub fn new(cron_expressions: Vec<String>, until: Option<u64>) -> (f: Self)
        ensures
            f.ftype == StFrequencyType::Custom,
            f.until == until_of(until),
            f.cron_expressions == cron_expressions,
    {
        StCustomFrequency {
            ftype: StFrequencyType::Custom,
            until: until_timestamp(until),
            cron_expressions,
        }
    }

    pub fn get_cron_expressions(&self) -> (crons: Vec<String>)
        ensures
            crons@ == self.cron_expressions@,
    {
        copy_strings(&self.cron_expressions)
    }
}

/// How a monthly rule picks its days, as a mathematical value.
pub enum MonthlyPick {
    /// On the days of the month with these numbers.
    OnDays(Seq<u32>),
    /// On the weekday with this ordinal.
    OnThe(StOrdinals, StConstWeekday),
}

/// A rule of repetition as a mathematical value.
pub enum Rule {
    /// Every so many hours.
    Hourly(u32),
    /// Every so many days.
    Daily(u32),
    /// Every so many weeks, on these weekdays.
    Weekly(u32, Seq<StConstWeekday>),
    /// Every so many months, on the days that the pick names.
    Monthly(u32, MonthlyPick),
    /// Every so many years, in these months, on the weekday with an ordinal if one is given.
    Yearly(u32, Seq<StMonth>, Option<(StOrdinals, StWeekday)>),
}

/// A regular frequency as a mathematical value.
pub struct RegularRule {
    pub ftype: StFrequencyType,
    /// The end of validity, in milliseconds since the epoch.
    pub until: Option<int>,
    pub rule: Rule,
}

/// A custom frequency as a mathematical value.
pub struct CustomRule {
    pub ftype: StFrequencyType,
    /// The end of validity, in milliseconds since the epoch.
    pub until: Option<int>,
    /// The cron expressions, each as a sequence of characters.
    pub crons: Seq<Seq<char>>,
}

/// A frequency as a mathematical value.
pub enum FrequencyRule {
    Regular(RegularRule),
    Custom(CustomRule),
}

/// The end of validity in milliseconds since the epoch.
pub open spec fn until_view(until: Option<Timestamp>) -> Option<int> {
    match until {
        Some(t) => Some(t@),
        None => None,
    }
}

/// The texts of a list of strings.
pub open spec fn texts(strings: Seq<String>) -> Seq<Seq<char>> {
    strings.map_values(|s: String| s@)
}

/// What a yearly rule fires on, as a pair.
pub open spec fn on_view(on: Option<StYearlyOnTheSubExpression>) -> Option<(StOrdinals, StWeekday)> {
    match on {
        Some(sub) => Some((sub.ordinal, sub.weekday)),
        None => None,
    }
}

impl View for StWeeklySubExpression {
    type V = Seq<StConstWeekday>;

    open spec fn view(&self) -> Seq<StConstWeekday> {
        self.weekdays@
    }
}

impl View for StWeeklyExpression {
    type V = Rule;

    open spec fn view(&self) -> Rule {
        Rule::Weekly(self.every, self.subexpr@)
    }
}

impl View for StMonthlyOnDaysSubExpression {
    type V = Seq<u32>;

    open spec fn view(&self) -> Seq<u32> {
        self.days@
    }
}

impl View for StMonthlySubExpression {
    type V = MonthlyPick;

    open spec fn view(&self) -> MonthlyPick {
        match self {
            StMonthlySubExpression::OnDays(sub) => MonthlyPick::OnDays(sub@),
            StMonthlySubExpression::OnThe(sub) => MonthlyPick::OnThe(sub.ordinal, sub.weekday),
        }
    }
}

impl View for StMonthlyExpression {
    type V = Rule;

    open spec fn view(&self) -> Rule {
        Rule::Monthly(self.every, self.subexpr@)
    }
}

impl View for StYearlyInSubExpression {
    type V = Seq<StMonth>;

    open spec fn view(&self) -> Seq<StMonth> {
        self.months@
    }
}

impl View for StYearlySubExpression {
    type V = (Seq<StMonth>, Option<(StOrdinals, StWeekday)>);

    open spec fn view(&self) -> (Seq<StMonth>, Option<(StOrdinals, StWeekday)>) {
        (self.months@, on_view(self.on))
    }
}

impl View for StYearlyExpression {
    type V = Rule;

    open spec fn view(&self) -> Rule {
        Rule::Yearly(self.every, self.subexpr@.0, self.subexpr@.1)
    }
}

impl View for StFrequencyExpression {
    type V = Rule;

    open spec fn view(&self) -> Rule {
        match self {
            StFrequencyExpression::Hourly(e) => Rule::Hourly(e.every),
            StFrequencyExpression::Daily(e) => Rule::Daily(e.every),
            StFrequencyExpression::Weekly(e) => e@,
            StFrequencyExpression::Monthly(e) => e@,
            StFrequencyExpression::Yearly(e) => e@,
        }
    }
}

impl View for StRegularFrequency {
    type V = RegularRule;

    open spec fn view(&self) -> RegularRule {
        RegularRule { ftype: self.ftype, until: until_view(self.until), rule: self.expr@ }
    }
}

impl View for StCustomFrequency {
    type V = CustomRule;

    open spec fn view(&self) -> CustomRule {
        CustomRule {
            ftype: self.ftype,
            until: until_view(self.until),
            crons: texts(self.cron_expressions@),
        }
    }
}

impl View for StFrequency {
    type V = FrequencyRule;

    open spec fn view(&self) -> FrequencyRule {
        match self {
            StFrequency::Regular(f) => FrequencyRule::Regular(f@),
            StFrequency::Custom(f) => FrequencyRule::Custom(f@),
        }
    }
}

/// A copy of a list of strings.
fn copy_strings(strings: &Vec<String>) -> (copy: Vec<String>)
    ensures
        copy@ == strings@,
{
    let mut copy: Vec<String> = Vec::new();
    let mut i: usize = 0;
    while i < strings.len()
        invariant
            i <= strings.len(),
            copy@ == strings@.take(i as int),
        decreases strings.len() - i,
    {
        copy.push(strings[i].clone());
        proof {
            assert(copy@ =~= strings@.take(i as int + 1));
        }
        i += 1;
    }
    proof {
        assert(strings@.take(strings@.len() as int) =~= strings@);
    }
    copy
}

impl Clone for StWeeklySubExpression {
    fn clone(&self) -> (copy: Self)
        ensures
            copy@ == self@,
    {
        StWeeklySubExpression { weekdays: self.weekdays.clone() }
    }
}

impl Clone for StWeeklyExpression {
    fn clone(&self) -> (copy: Self)
        ensures
            copy@ == self@,
    {
        StWeeklyExpression { every: self.every, subexpr: self.subexpr.clone() }
    }
}

impl Clone for StMonthlyOnDaysSubExpression {
    fn clone(&self) -> (copy: Self)
        ensures
            copy@ == self@,
    {
        StMonthlyOnDaysSubExpression { days: self.days.clone() }
    }
}

impl Clone for StMonthlySubExpression {
    fn clone(&self) -> (copy: Self)
        ensures
            copy@ == self@,
    {
        match self {
            StMonthlySubExpression::OnDays(sub) => StMonthlySubExpression::OnDays(sub.clone()),
            StMonthlySubExpression::OnThe(sub) => StMonthlySubExpression::OnThe(*sub),
        }
    }
}

impl Clone for StMonthlyExpression {
    fn clone(&self) -> (copy: Self)
        ensures
            copy@ == self@,
    {
        StMonthlyExpression { every: self.every, subexpr: self.subexpr.clone() }
    }
}

impl Clone for StYearlyInSubExpression {
    fn clone(&self) -> (copy: Self)
        ensures
            copy@ == self@,
    {
        StYearlyInSubExpression { months: self.months.clone() }
    }
}

impl Clone for StYearlySubExpression {
    fn clone(&self) -> (copy: Self)
        ensures
            copy@ == self@,
    {
        StYearlySubExpression { months: self.months.clone(), on: self.on }
    }
}

impl Clone for StYearlyExpression {
    fn clone(&self) -> (copy: Self)
        ensures
            copy@ == self@,
    {
        StYearlyExpression { every: self.every, subexpr: self.subexpr.clone() }
    }
}

impl Clone for StFrequencyExpression {
    fn clone(&self) -> (copy: Self)
        ensures
            copy@ == self@,
    {
        match self {
            StFrequencyExpression::Hourly(e) => StFrequencyExpression::Hourly(*e),
            StFrequencyExpression::Daily(e) => StFrequencyExpression::Daily(*e),
            StFrequencyExpression::Weekly(e) => StFrequencyExpression::Weekly(e.clone()),
            StFrequencyExpression::Monthly(e) => StFrequencyExpression::Monthly(e.clone()),
            StFrequencyExpression::Yearly(e) => StFrequencyExpression::Yearly(e.clone()),
        }
    }
}

impl Clone for StRegularFrequency {
    fn clone(&self) -> (copy: Self)
        ensures
            copy@ == self@,
    {
        StRegularFrequency { ftype: self.ftype, until: self.until, expr: self.expr.clone() }
    }
}

impl Clone for StCustomFrequency {
    fn clone(&self) -> (copy: Self)
        ensures
            copy@ == self@,
    {
        StCustomFrequency {
            ftype: self.ftype,
            until: self.until,
            cron_expressions: copy_strings(&self.cron_expressions),
        }
    }
}

impl Clone for StFrequency {
    fn clone(&self) -> (copy: Self)
        ensures
            copy@ == self@,
    {
        match self {
            StFrequency::Regular(f) => StFrequency::Regular(f.clone()),
            StFrequency::Custom(f) => StFrequency::Custom(f.clone()),
        }
    }
}

} // verus!
