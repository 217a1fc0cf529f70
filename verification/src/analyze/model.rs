//! Calendar minutes, directions and pattern grades.
use vstd::prelude::*;

use crate::num::{fmt_padded, zero_pad};
use crate::text::{push_chars, string_from_chars};

verus! {

/// A calendar minute.
#[derive(Clone, Copy, Debug, PartialEq, Eq, PartialOrd, Ord, Structural)]
pub struct DT {
    pub year: i32,
    pub month: i32,
    pub day: i32,
    pub hour: i32,
    pub minute: i32,
}

/// `YYYY-MM-DD HH:MM`, each field zero-padded (the year to four, the rest to two).
pub open spec fn dt_text(d: DT) -> Seq<char> {
    zero_pad(d.year as int, 4) + seq!['-'] + zero_pad(d.month as int, 2) + seq!['-'] + zero_pad(d.day as int, 2)
        + seq![' '] + zero_pad(d.hour as int, 2) + seq![':'] + zero_pad(d.minute as int, 2)
}

impl DT {
    /// The minute as displayed: `YYYY-MM-DD HH:MM` (see `dt_text`).
    pub fn display_text(&self) -> (s: String)
        ensures
            s@ == dt_text(*self),
    {
        let mut v: Vec<char> = Vec::new();
        push_chars(&mut v, fmt_padded(self.year as i64, 4).as_slice());
        v.push('-');
        push_chars(&mut v, fmt_padded(self.month as i64, 2).as_slice());
        v.push('-');
        push_chars(&mut v, fmt_padded(self.day as i64, 2).as_slice());
        v.push(' ');
        push_chars(&mut v, fmt_padded(self.hour as i64, 2).as_slice());
        v.push(':');
        push_chars(&mut v, fmt_padded(self.minute as i64, 2).as_slice());
        proof {
            assert(v@ =~= dt_text(*self));
        }
        string_from_chars(v.as_slice())
    }
}

/// Trade direction.
#[derive(Clone, Copy, Debug, PartialEq, Eq, Hash, Structural)]
pub enum Dir {
    Up,
    Down,
}

impl Dir {
    /// `做多` (long) or `做空` (short).
    pub fn label(self) -> (s: &'static str)
        ensures
            s@ == match self {
                Dir::Up => "做多"@,
                Dir::Down => "做空"@,
            },
    {
        match self {
            Dir::Up => "做多",
            Dir::Down => "做空",
        }
    }
}

/// Retracement grade of a pattern.
#[derive(Clone, Copy, Debug, PartialEq, Eq, Structural)]
pub enum Grade {
    A,
    B,
    C,
    TooShallow,
    TooDeep,
    Invalid,
}

/// The display label of a grade.
pub open spec fn grade_label(g: Grade) -> Seq<char> {
    match g {
        Grade::A => "A级"@,
        Grade::B => "B级"@,
        Grade::C => "C级"@,
        Grade::TooShallow => "回撤过浅"@,
        Grade::TooDeep => "回撤过深"@,
        Grade::Invalid => "结构无效"@,
    }
}

/// The rank of a grade: A 4, B 3, C 2, too shallow or too deep 1, invalid 0.
pub open spec fn grade_rank(g: Grade) -> u8 {
    match g {
        Grade::A => 4,
        Grade::B => 3,
        Grade::C => 2,
        Grade::TooShallow | Grade::TooDeep => 1,
        Grade::Invalid => 0,
    }
}

impl Grade {
    pub fn label(self) -> (s: &'static str)
        ensures
            s@ == grade_label(self),
    {
        match self {
            Grade::A => "A级",
            Grade::B => "B级",
            Grade::C => "C级",
            Grade::TooShallow => "回撤过浅",
            Grade::TooDeep => "回撤过深",
            Grade::Invalid => "结构无效",
        }
    }

    pub fn rank(self) -> (r: u8)
        ensures
            r == grade_rank(self),
    {
        match self {
            Grade::A => 4,
            Grade::B => 3,
            Grade::C => 2,
            Grade::TooShallow | Grade::TooDeep => 1,
            Grade::Invalid => 0,
        }
    }
}

} // verus!
