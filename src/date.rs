//! Calendar days, as the archives name them.
use vstd::prelude::*;
use crate::price::{padded, push_padded};
use crate::text::string_of;

verus! {

/// A day of the proleptic Gregorian calendar.
#[derive(Debug, Clone, Copy, PartialEq, Eq, Structural)]
pub struct Date {
    pub year: u32,
    pub month: u32,
    pub day: u32,
}

pub open spec fn is_leap(year: u32) -> bool {
    (year % 4 == 0 && year % 100 != 0) || year % 400 == 0
}

pub open spec fn days_in_month(year: u32, month: u32) -> u32 {
    if month == 2 {
        if is_leap(year) {
            29
        } else {
            28
        }
    } else if month == 4 || month == 6 || month == 9 || month == 11 {
        30
    } else {
        31
    }
}

/// The day written as `YYYY-MM-DD` when `dashes` holds, else as `YYYYMMDD`.
pub open spec fn date_text(d: Date, dashes: bool) -> Seq<char> {
    let sep: Seq<char> = if dashes {
        seq!['-']
    } else {
        Seq::empty()
    };
    padded(d.year as nat, 4) + sep + padded(d.month as nat, 2) + sep + padded(d.day as nat, 2)
}

impl Date {
    /// A day of a four-digit year.
    pub open spec fn wf(&self) -> bool {
        1 <= self.year <= 9999 && 1 <= self.month <= 12 && 1 <= self.day <= days_in_month(
            self.year,
            self.month,
        )
    }

    /// The day `day` of month `month` of `year`, if there is one.
    pub fn new(year: u32, month: u32, day: u32) -> (r: Option<Date>)
        ensures
            match r {
                Some(d) => d.wf() && d == (Date { year, month, day }),
                None => !(Date { year, month, day }).wf(),
            },
    {
        let leap = (year % 4 == 0 && year % 100 != 0) || year % 400 == 0;
        let days: u32 = if month == 2 {
            if leap {
                29
            } else {
                28
            }
        } else if month == 4 || month == 6 || month == 9 || month == 11 {
            30
        } else {
            31
        };
        if 1 <= year && year <= 9999 && 1 <= month && month <= 12 && 1 <= day && day <= days {
            Some(Date { year, month, day })
        } else {
            None
        }
    }

    /// The day written as `YYYY-MM-DD` when `dashes` holds, else as `YYYYMMDD`.
    pub fn to_text(&self, dashes: bool) -> (r: String)
        ensures
            r@ == date_text(*self, dashes),
    {
        let mut cs: Vec<char> = Vec::new();
        push_padded(&mut cs, self.year as u64, 4);
        if dashes {
            cs.push('-');
        }
        push_padded(&mut cs, self.month as u64, 2);
        if dashes {
            cs.push('-');
        }
        push_padded(&mut cs, self.day as u64, 2);
        assert(cs@ =~= date_text(*self, dashes));
        string_of(&cs)
    }
}

} // verus!
