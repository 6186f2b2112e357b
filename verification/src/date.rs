//! Calendar dates as plain numbers, with the validity rules of the Gregorian
//! calendar and the weekday computation the site's pages use.
use vstd::prelude::*;

verus! {

/// A calendar date.  A value of this type always satisfies
/// [`Date::spec_valid`]: the constructor refuses anything else.
#[derive(Clone, Copy, Debug, PartialEq, Eq, Structural)]
pub struct Date {
    year: u32,
    month: u32,
    day: u32,
}

/// Whether `year` is a leap year.
pub open spec fn spec_is_leap(year: u32) -> bool {
    (year % 4 == 0 && year % 100 != 0) || year % 400 == 0
}

/// The number of days in `month` of `year`, or 0 for a month outside 1..=12.
pub open spec fn spec_days_in_month(year: u32, month: u32) -> u32 {
    if month == 1 || month == 3 || month == 5 || month == 7 || month == 8 || month == 10 || month
        == 12 {
        31
    } else if month == 4 || month == 6 || month == 9 || month == 11 {
        30
    } else if month == 2 {
        if spec_is_leap(year) {
            29
        } else {
            28
        }
    } else {
        0
    }
}

/// The weekday index this module's formula assigns to a date: 1 for Monday
/// up to 7 for Sunday, by Zeller's congruence.
pub open spec fn spec_weekday(year: u32, month: u32, day: u32) -> u32 {
    let m: int = if month <= 2 {
        month + 12
    } else {
        month as int
    };
    let c: int = year as int / 100;
    let y: int = year as int % 100;
    ((day + 26 * (m + 1) / 10 + y + y / 4 + (5 * c + c / 4) + 5) % 7 + 1) as u32
}

impl Date {
    pub closed spec fn spec_year(&self) -> u32 {
        self.year
    }

    pub closed spec fn spec_month(&self) -> u32 {
        self.month
    }

    pub closed spec fn spec_day(&self) -> u32 {
        self.day
    }

    /// The month is in range and the day exists in that month of that year.
    pub open spec fn spec_valid(&self) -> bool {
        1 <= self.spec_month() <= 12 && 1 <= self.spec_day() <= spec_days_in_month(
            self.spec_year(),
            self.spec_month(),
        )
    }

    /// A date, if the month and day are valid for the year; nothing
    /// otherwise.
    pub fn new(year: u32, month: u32, day: u32) -> (r: Option<Self>)
        ensures
            match r {
                Some(d) => d.spec_year() == year && d.spec_month() == month && d.spec_day() == day
                    && d.spec_valid(),
                None => !(1 <= month <= 12 && 1 <= day <= spec_days_in_month(year, month)),
            },
    {
        let limit: u32 = match month {
            1 | 3 | 5 | 7 | 8 | 10 | 12 => 31,
            4 | 6 | 9 | 11 => 30,
            2 => {
                if (year % 4 == 0 && year % 100 != 0) || year % 400 == 0 {
                    29
                } else {
                    28
                }
            },
            _ => {
                return None;
            },
        };
        if day < 1 || day > limit {
            return None;
        }
        Some(Self { year, month, day })
    }

    pub fn year(&self) -> (r: u32)
        ensures
            r == self.spec_year(),
    {
        self.year
    }

    pub fn month(&self) -> (r: u32)
        ensures
            r == self.spec_month(),
    {
        self.month
    }

    pub fn day(&self) -> (r: u32)
        ensures
            r == self.spec_day(),
    {
        self.day
    }

    /// The Japanese single-character weekday name, Monday through Sunday,
    /// computed by Zeller's congruence.
    pub fn weekday_ja(&self) -> (r: &'static str)
        requires
            self.spec_valid(),
        ensures
            r@ == spec_weekday_name(spec_weekday(self.spec_year(), self.spec_month(), self.spec_day())),
    {
        let month = if self.month <= 2 {
            self.month + 12
        } else {
            self.month
        };

        let c = self.year / 100;
        let y = self.year % 100;
        let d = ((self.day + 26 * (month + 1) / 10 + y + y / 4 + (5 * c + c / 4) + 5) % 7) + 1;
        match d {
            1 => "月",
            2 => "火",
            3 => "水",
            4 => "木",
            5 => "金",
            6 => "土",
            _ => "日",
        }
    }
}

/// The weekday name for each index of [`spec_weekday`].
pub open spec fn spec_weekday_name(d: u32) -> Seq<char> {
    if d == 1 {
        "月"@
    } else if d == 2 {
        "火"@
    } else if d == 3 {
        "水"@
    } else if d == 4 {
        "木"@
    } else if d == 5 {
        "金"@
    } else if d == 6 {
        "土"@
    } else {
        "日"@
    }
}

} // verus!
