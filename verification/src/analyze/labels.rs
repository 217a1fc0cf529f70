//! Display labels of the report.
use vstd::prelude::*;

use crate::num::{decimal, fmt_u64};
use crate::text::{chars_of, eq_lit, push_chars, string_from_chars};

verus! {

/// `是` (yes) or `否` (no).
pub fn yn(v: bool) -> (s: &'static str)
    ensures
        s@ == if v {
            "是"@
        } else {
            "否"@
        },
{
    if v {
        "是"
    } else {
        "否"
    }
}

/// The label of a pattern level.
pub open spec fn level_text(level: Seq<char>) -> Seq<char> {
    if level == "fine"@ {
        "精细"@
    } else if level == "large"@ {
        "较大"@
    } else if level == "box"@ {
        "箱体"@
    } else {
        "自定义"@
    }
}

pub fn level_label(level: &str) -> (s: &'static str)
    ensures
        s@ == level_text(level@),
{
    let k = chars_of(level);
    if eq_lit(k.as_slice(), "fine") {
        "精细"
    } else if eq_lit(k.as_slice(), "large") {
        "较大"
    } else if eq_lit(k.as_slice(), "box") {
        "箱体"
    } else {
        "自定义"
    }
}

/// The label of a 60m trend direction.
pub open spec fn direction_text(d: Seq<char>) -> Seq<char> {
    if d == "STRONG_UP"@ {
        "强多"@
    } else if d == "STRONG_DOWN"@ {
        "强空"@
    } else if d == "WEAK_UP"@ {
        "弱多"@
    } else if d == "WEAK_DOWN"@ {
        "弱空"@
    } else if d == "RANGE"@ || d == "NEUTRAL"@ {
        "震荡"@
    } else if d == "UP"@ {
        "上涨"@
    } else if d == "DOWN"@ {
        "下跌"@
    } else {
        "震荡"@
    }
}

pub fn direction_label(direction: &str) -> (s: &'static str)
    ensures
        s@ == direction_text(direction@),
{
    let k = chars_of(direction);
    if eq_lit(k.as_slice(), "STRONG_UP") {
        "强多"
    } else if eq_lit(k.as_slice(), "STRONG_DOWN") {
        "强空"
    } else if eq_lit(k.as_slice(), "WEAK_UP") {
        "弱多"
    } else if eq_lit(k.as_slice(), "WEAK_DOWN") {
        "弱空"
    } else if eq_lit(k.as_slice(), "RANGE") || eq_lit(k.as_slice(), "NEUTRAL") {
        "震荡"
    } else if eq_lit(k.as_slice(), "UP") {
        "上涨"
    } else if eq_lit(k.as_slice(), "DOWN") {
        "下跌"
    } else {
        "震荡"
    }
}

/// The circled numeral for 1 to 10, otherwise the number in brackets.
pub open spec fn num_text(n: usize) -> Seq<char> {
    if 1 <= n <= 10 {
        seq![(0x2460 + n - 1) as char]
    } else {
        seq!['['] + decimal(n as nat) + seq![']']
    }
}

/// Numbers a list entry: `①` to `⑩`, then `[11]` and on.
pub fn num_label(n: usize) -> (s: String)
    ensures
        s@ == num_text(n),
{
    if n >= 1 && n <= 10 {
        let c: char = match n {
            1 => '①',
            2 => '②',
            3 => '③',
            4 => '④',
            5 => '⑤',
            6 => '⑥',
            7 => '⑦',
            8 => '⑧',
            9 => '⑨',
            _ => '⑩',
        };
        let v = vec![c];
        proof {
            assert(v@ =~= seq![(0x2460 + n - 1) as char]);
        }
        string_from_chars(v.as_slice())
    } else {
        let mut v: Vec<char> = Vec::new();
        v.push('[');
        push_chars(&mut v, fmt_u64(n as u64).as_slice());
        v.push(']');
        string_from_chars(v.as_slice())
    }
}

/// Patterns sort fine level first.
pub fn level_rank(level: &str) -> (r: u8)
    ensures
        r == if level@ == "fine"@ {
            0u8
        } else {
            1u8
        },
{
    if crate::text::str_eq(level, "fine") {
        0
    } else {
        1
    }
}

/// Role of a manual price zone.
#[derive(Debug, Clone, Copy, PartialEq, Eq, Structural)]
pub enum ManualLevelRole {
    Unknown,
    Support,
    Resistance,
}

impl ManualLevelRole {
    pub fn as_str(self) -> (s: &'static str)
        ensures
            s@ == match self {
                ManualLevelRole::Unknown => "unknown"@,
                ManualLevelRole::Support => "support"@,
                ManualLevelRole::Resistance => "resistance"@,
            },
    {
        match self {
            Self::Unknown => "unknown",
            Self::Support => "support",
            Self::Resistance => "resistance",
        }
    }
}

/// What price did at a manual zone.
#[derive(Debug, Clone, Copy, PartialEq, Eq, Structural)]
pub enum ManualLevelEventKind {
    Approach,
    Test,
    Rejection,
    BreakoutUp,
    BreakoutDown,
    RetestSupport,
    RetestResistance,
    Reentry,
}

impl ManualLevelEventKind {
    pub fn as_str(self) -> (s: &'static str)
        ensures
            s@ == match self {
                ManualLevelEventKind::Approach => "approach"@,
                ManualLevelEventKind::Test => "testing"@,
                ManualLevelEventKind::Rejection => "rejection"@,
                ManualLevelEventKind::BreakoutUp => "breakout_up"@,
                ManualLevelEventKind::BreakoutDown => "breakout_down"@,
                ManualLevelEventKind::RetestSupport => "retest_support"@,
                ManualLevelEventKind::RetestResistance => "retest_resistance"@,
                ManualLevelEventKind::Reentry => "reentry"@,
            },
    {
        match self {
            Self::Approach => "approach",
            Self::Test => "testing",
            Self::Rejection => "rejection",
            Self::BreakoutUp => "breakout_up",
            Self::BreakoutDown => "breakout_down",
            Self::RetestSupport => "retest_support",
            Self::RetestResistance => "retest_resistance",
            Self::Reentry => "reentry",
        }
    }
}

/// How a single-bar reversal qualified.
#[derive(Debug, Clone, Copy, PartialEq, Eq, Structural)]
pub enum SingleReversalKind {
    Strong,
    Wick,
}

impl SingleReversalKind {
    pub fn as_str(self) -> (s: &'static str)
        ensures
            s@ == match self {
                SingleReversalKind::Strong => "strong"@,
                SingleReversalKind::Wick => "wick"@,
            },
    {
        match self {
            SingleReversalKind::Strong => "strong",
            SingleReversalKind::Wick => "wick",
        }
    }
}

/// Whether bar `i` is a strict trend candle against the trade: a strong bearish bar
/// for a long, a strong bullish one for a short (`trend_k[i]` is (up, down)).
pub fn strong_b_dir_trend_candle(trend_k: &[(bool, bool)], i: usize, dir: crate::analyze::model::Dir) -> (b: bool)
    ensures
        b == (i < trend_k@.len() && match dir {
            crate::analyze::model::Dir::Up => trend_k@[i as int].1,
            crate::analyze::model::Dir::Down => trend_k@[i as int].0,
        }),
{
    if i < trend_k.len() {
        let (up, down) = trend_k[i];
        match dir {
            crate::analyze::model::Dir::Up => down,
            crate::analyze::model::Dir::Down => up,
        }
    } else {
        false
    }
}

/// The note prefix of a signal confirmed only by several cumulative bars.
pub fn weak_confirm_prefix(weak: bool) -> (s: &'static str)
    ensures
        s@ == if weak {
            "反转仅靠多K累积确认，信号降级为小仓试错；"@
        } else {
            ""@
        },
{
    if weak {
        "反转仅靠多K累积确认，信号降级为小仓试错；"
    } else {
        ""
    }
}

} // verus!
