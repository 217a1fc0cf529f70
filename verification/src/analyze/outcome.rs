//! Review statistics vocabulary: outcomes, exit reasons, grouping dimensions and
//! their display order, and warning-bar distances.
use vstd::prelude::*;

use crate::text::{chars_of, eq_lit, find_char_idx, find_char, owned, slice_to_vec, str_eq};
use crate::num::{parse_int, parse_u8};

verus! {

/// The outcome of a simulated signal.
#[derive(Debug, Clone, Copy, PartialEq, Eq, Structural)]
pub enum Outcome {
    Win,
    Loss,
    NoTrigger,
    Open,
    InsufficientData,
    /// The simulation window crossed a continuous-contract rollover.
    Rollover,
}

/// The stored name of an outcome.
pub open spec fn outcome_name(o: Outcome) -> Seq<char> {
    match o {
        Outcome::Win => "win"@,
        Outcome::Loss => "loss"@,
        Outcome::NoTrigger => "no_trigger"@,
        Outcome::Open => "open"@,
        Outcome::InsufficientData => "insufficient_data"@,
        Outcome::Rollover => "rollover"@,
    }
}

/// The outcome a stored name stands for.
pub open spec fn outcome_from_name(s: Seq<char>) -> Option<Outcome> {
    if s == "win"@ {
        Some(Outcome::Win)
    } else if s == "loss"@ {
        Some(Outcome::Loss)
    } else if s == "no_trigger"@ {
        Some(Outcome::NoTrigger)
    } else if s == "open"@ {
        Some(Outcome::Open)
    } else if s == "insufficient_data"@ {
        Some(Outcome::InsufficientData)
    } else if s == "rollover"@ {
        Some(Outcome::Rollover)
    } else {
        None
    }
}

impl Outcome {
    pub fn as_str(self) -> (s: &'static str)
        ensures
            s@ == outcome_name(self),
    {
        match self {
            Outcome::Win => "win",
            Outcome::Loss => "loss",
            Outcome::NoTrigger => "no_trigger",
            Outcome::Open => "open",
            Outcome::InsufficientData => "insufficient_data",
            Outcome::Rollover => "rollover",
        }
    }

    pub fn parse(s: &str) -> (o: Option<Outcome>)
        ensures
            o == outcome_from_name(s@),
    {
        if str_eq(s, "win") {
            Some(Outcome::Win)
        } else if str_eq(s, "loss") {
            Some(Outcome::Loss)
        } else if str_eq(s, "no_trigger") {
            Some(Outcome::NoTrigger)
        } else if str_eq(s, "open") {
            Some(Outcome::Open)
        } else if str_eq(s, "insufficient_data") {
            Some(Outcome::InsufficientData)
        } else if str_eq(s, "rollover") {
            Some(Outcome::Rollover)
        } else {
            None
        }
    }

    /// Settled outcomes: win, loss, no trigger and rollover.
    pub fn is_terminal(self) -> (b: bool)
        ensures
            b == (self == Outcome::Win || self == Outcome::Loss || self == Outcome::NoTrigger
                || self == Outcome::Rollover),
    {
        match self {
            Outcome::Win | Outcome::Loss | Outcome::NoTrigger | Outcome::Rollover => true,
            _ => false,
        }
    }
}

/// Every outcome survives the round trip through its stored name.
pub proof fn law_outcome_name_round_trip(o: Outcome)
    ensures
        outcome_from_name(outcome_name(o)) == Some(o),
{
    reveal_strlit("win");
    reveal_strlit("loss");
    reveal_strlit("no_trigger");
    reveal_strlit("open");
    reveal_strlit("insufficient_data");
    reveal_strlit("rollover");
    reveal_strlit("open");
    match o {
        Outcome::Win => {
        },
        Outcome::Loss => {
            assert("loss"@.len() != "win"@.len());
        },
        Outcome::NoTrigger => {
            assert("no_trigger"@.len() != "win"@.len());
            assert("no_trigger"@.len() != "loss"@.len());
        },
        Outcome::Open => {
            assert("open"@.len() != "win"@.len());
            assert("open"@[0] != "loss"@[0]);
            assert("open"@.len() != "no_trigger"@.len());
        },
        Outcome::InsufficientData => {
            assert("insufficient_data"@.len() != "win"@.len());
            assert("insufficient_data"@.len() != "loss"@.len());
            assert("insufficient_data"@.len() != "no_trigger"@.len());
            assert("insufficient_data"@.len() != "open"@.len());
        },
        Outcome::Rollover => {
            assert("rollover"@.len() != "win"@.len());
            assert("rollover"@.len() != "loss"@.len());
            assert("rollover"@.len() != "no_trigger"@.len());
            assert("rollover"@.len() != "open"@.len());
            assert("rollover"@.len() != "insufficient_data"@.len());
        },
    }
}

/// Why a simulated trade left the market.
#[derive(Debug, Clone, Copy, PartialEq, Eq, Structural)]
pub enum ExitReason {
    Stop,
    Target,
    NoFollow,
    TimeExit,
    Rollover,
    NoReason,
}

/// The stored name of an exit reason (empty for none).
pub open spec fn exit_name(e: ExitReason) -> Seq<char> {
    match e {
        ExitReason::Stop => "stop"@,
        ExitReason::Target => "target"@,
        ExitReason::NoFollow => "no_follow"@,
        ExitReason::TimeExit => "time_exit"@,
        ExitReason::Rollover => "rollover"@,
        ExitReason::NoReason => ""@,
    }
}

/// The exit reason a stored name stands for; unknown names read as none.
pub open spec fn exit_from_name(s: Seq<char>) -> ExitReason {
    if s == "stop"@ {
        ExitReason::Stop
    } else if s == "target"@ {
        ExitReason::Target
    } else if s == "no_follow"@ {
        ExitReason::NoFollow
    } else if s == "time_exit"@ {
        ExitReason::TimeExit
    } else if s == "rollover"@ {
        ExitReason::Rollover
    } else {
        ExitReason::NoReason
    }
}

impl ExitReason {
    pub fn as_str(self) -> (s: &'static str)
        ensures
            s@ == exit_name(self),
    {
        match self {
            ExitReason::Stop => "stop",
            ExitReason::Target => "target",
            ExitReason::NoFollow => "no_follow",
            ExitReason::TimeExit => "time_exit",
            ExitReason::Rollover => "rollover",
            ExitReason::NoReason => "",
        }
    }

    pub fn parse(s: &str) -> (e: ExitReason)
        ensures
            e == exit_from_name(s@),
    {
        if str_eq(s, "stop") {
            ExitReason::Stop
        } else if str_eq(s, "target") {
            ExitReason::Target
        } else if str_eq(s, "no_follow") {
            ExitReason::NoFollow
        } else if str_eq(s, "time_exit") {
            ExitReason::TimeExit
        } else if str_eq(s, "rollover") {
            ExitReason::Rollover
        } else {
            ExitReason::NoReason
        }
    }
}

/// Every exit reason survives the round trip through its stored name.
pub proof fn law_exit_name_round_trip(e: ExitReason)
    ensures
        exit_from_name(exit_name(e)) == e,
{
    reveal_strlit("stop");
    reveal_strlit("target");
    reveal_strlit("no_follow");
    reveal_strlit("time_exit");
    reveal_strlit("rollover");
    reveal_strlit("");
    reveal_strlit("stop");
    match e {
        ExitReason::Stop => {
        },
        ExitReason::Target => {
            assert("target"@.len() != "stop"@.len());
        },
        ExitReason::NoFollow => {
            assert("no_follow"@.len() != "stop"@.len());
            assert("no_follow"@.len() != "target"@.len());
        },
        ExitReason::TimeExit => {
            assert("time_exit"@.len() != "stop"@.len());
            assert("time_exit"@.len() != "target"@.len());
            assert("time_exit"@[0] != "no_follow"@[0]);
        },
        ExitReason::Rollover => {
            assert("rollover"@.len() != "stop"@.len());
            assert("rollover"@.len() != "target"@.len());
            assert("rollover"@.len() != "no_follow"@.len());
            assert("rollover"@.len() != "time_exit"@.len());
        },
        ExitReason::NoReason => {
            assert(""@.len() != "stop"@.len());
            assert(""@.len() != "target"@.len());
            assert(""@.len() != "no_follow"@.len());
            assert(""@.len() != "time_exit"@.len());
            assert(""@.len() != "rollover"@.len());
        },
    }
}

/// Review scope: which signals the statistics count.
#[derive(Debug, Clone, Copy, PartialEq, Eq, Structural)]
pub enum StatsScope {
    /// Every signal.
    All,
    /// Signals scored at least 2.5.
    Tradable,
    /// Signals scored at least 3.5.
    Standard,
}

/// The stored name of a scope.
pub open spec fn scope_name(s: StatsScope) -> Seq<char> {
    match s {
        StatsScope::All => "all"@,
        StatsScope::Tradable => "tradable"@,
        StatsScope::Standard => "standard"@,
    }
}

/// The scope a name stands for; empty or unknown names read as all signals.
pub open spec fn scope_from_name(s: Seq<char>) -> StatsScope {
    if s == "tradable"@ {
        StatsScope::Tradable
    } else if s == "standard"@ {
        StatsScope::Standard
    } else {
        StatsScope::All
    }
}

impl StatsScope {
    pub fn parse(s: &str) -> (r: StatsScope)
        ensures
            r == scope_from_name(s@),
    {
        if str_eq(s, "tradable") {
            StatsScope::Tradable
        } else if str_eq(s, "standard") {
            StatsScope::Standard
        } else {
            StatsScope::All
        }
    }

    pub fn as_str(self) -> (s: &'static str)
        ensures
            s@ == scope_name(self),
    {
        match self {
            StatsScope::All => "all",
            StatsScope::Tradable => "tradable",
            StatsScope::Standard => "standard",
        }
    }
}

/// Every scope survives the round trip through its stored name.
pub proof fn law_scope_name_round_trip(s: StatsScope)
    ensures
        scope_from_name(scope_name(s)) == s,
{
    reveal_strlit("all");
    reveal_strlit("tradable");
    reveal_strlit("standard");
    assert("standard"@[0] != "tradable"@[0]);
}

/// A review grouping dimension.
#[derive(Debug, Clone, Copy, PartialEq, Eq, Structural)]
pub enum GroupBy {
    ScoreBand,
    Grade,
    Direction,
    Level,
    Hour,
    Symbol,
    VolConfirm,
    OiIncrease,
    Trend60Band,
    SymbolHour,
    ScoreVol,
    HourAtrBand,
    ExitReason,
    VolRatioBand,
    BVolRatioBand,
    RetracementBand,
    BaSpeedBand,
    AStrengthBand,
    TriggerLagBand,
    OvershootBand,
    TpTier,
    GapCombo,
    DimTrend,
    DimALeg,
    DimBLeg,
    DimWarning,
    DimTrigger,
    DimRr,
    DimMomentum,
}

/// The grouping a request name stands for; unknown names group by score band.
pub open spec fn group_by_from_name(s: Seq<char>) -> GroupBy {
    if s == "grade"@ {
        GroupBy::Grade
    } else if s == "direction"@ {
        GroupBy::Direction
    } else if s == "level"@ {
        GroupBy::Level
    } else if s == "hour"@ {
        GroupBy::Hour
    } else if s == "symbol"@ {
        GroupBy::Symbol
    } else if s == "vol_confirm"@ {
        GroupBy::VolConfirm
    } else if s == "oi"@ {
        GroupBy::OiIncrease
    } else if s == "trend60"@ {
        GroupBy::Trend60Band
    } else if s == "symbol_hour"@ {
        GroupBy::SymbolHour
    } else if s == "score_vol"@ {
        GroupBy::ScoreVol
    } else if s == "hour_atr"@ {
        GroupBy::HourAtrBand
    } else if s == "exit_reason"@ {
        GroupBy::ExitReason
    } else if s == "vol_band"@ {
        GroupBy::VolRatioBand
    } else if s == "b_vol"@ {
        GroupBy::BVolRatioBand
    } else if s == "retracement"@ {
        GroupBy::RetracementBand
    } else if s == "b_a_speed"@ {
        GroupBy::BaSpeedBand
    } else if s == "a_strength"@ {
        GroupBy::AStrengthBand
    } else if s == "trigger_lag"@ {
        GroupBy::TriggerLagBand
    } else if s == "overshoot"@ {
        GroupBy::OvershootBand
    } else if s == "tp_tier"@ {
        GroupBy::TpTier
    } else if s == "gap_combo"@ {
        GroupBy::GapCombo
    } else if s == "dim_trend"@ {
        GroupBy::DimTrend
    } else if s == "dim_a"@ {
        GroupBy::DimALeg
    } else if s == "dim_b"@ {
        GroupBy::DimBLeg
    } else if s == "dim_warning"@ {
        GroupBy::DimWarning
    } else if s == "dim_trigger"@ {
        GroupBy::DimTrigger
    } else if s == "dim_rr"@ {
        GroupBy::DimRr
    } else if s == "dim_momentum"@ {
        GroupBy::DimMomentum
    } else {
        GroupBy::ScoreBand
    }
}

impl GroupBy {
    pub fn parse(s: &str) -> (g: GroupBy)
        ensures
            g == group_by_from_name(s@),
    {
        let k = chars_of(s);
        if eq_lit(k.as_slice(), "grade") {
            GroupBy::Grade
        } else if eq_lit(k.as_slice(), "direction") {
            GroupBy::Direction
        } else if eq_lit(k.as_slice(), "level") {
            GroupBy::Level
        } else if eq_lit(k.as_slice(), "hour") {
            GroupBy::Hour
        } else if eq_lit(k.as_slice(), "symbol") {
            GroupBy::Symbol
        } else if eq_lit(k.as_slice(), "vol_confirm") {
            GroupBy::VolConfirm
        } else if eq_lit(k.as_slice(), "oi") {
            GroupBy::OiIncrease
        } else if eq_lit(k.as_slice(), "trend60") {
            GroupBy::Trend60Band
        } else if eq_lit(k.as_slice(), "symbol_hour") {
            GroupBy::SymbolHour
        } else if eq_lit(k.as_slice(), "score_vol") {
            GroupBy::ScoreVol
        } else if eq_lit(k.as_slice(), "hour_atr") {
            GroupBy::HourAtrBand
        } else if eq_lit(k.as_slice(), "exit_reason") {
            GroupBy::ExitReason
        } else if eq_lit(k.as_slice(), "vol_band") {
            GroupBy::VolRatioBand
        } else if eq_lit(k.as_slice(), "b_vol") {
            GroupBy::BVolRatioBand
        } else if eq_lit(k.as_slice(), "retracement") {
            GroupBy::RetracementBand
        } else if eq_lit(k.as_slice(), "b_a_speed") {
            GroupBy::BaSpeedBand
        } else if eq_lit(k.as_slice(), "a_strength") {
            GroupBy::AStrengthBand
        } else if eq_lit(k.as_slice(), "trigger_lag") {
            GroupBy::TriggerLagBand
        } else if eq_lit(k.as_slice(), "overshoot") {
            GroupBy::OvershootBand
        } else if eq_lit(k.as_slice(), "tp_tier") {
            GroupBy::TpTier
        } else if eq_lit(k.as_slice(), "gap_combo") {
            GroupBy::GapCombo
        } else if eq_lit(k.as_slice(), "dim_trend") {
            GroupBy::DimTrend
        } else if eq_lit(k.as_slice(), "dim_a") {
            GroupBy::DimALeg
        } else if eq_lit(k.as_slice(), "dim_b") {
            GroupBy::DimBLeg
        } else if eq_lit(k.as_slice(), "dim_warning") {
            GroupBy::DimWarning
        } else if eq_lit(k.as_slice(), "dim_trigger") {
            GroupBy::DimTrigger
        } else if eq_lit(k.as_slice(), "dim_rr") {
            GroupBy::DimRr
        } else if eq_lit(k.as_slice(), "dim_momentum") {
            GroupBy::DimMomentum
        } else {
            GroupBy::ScoreBand
        }
    }
}

/// The display rank of a group key: ordered dimensions rank from high to low, the
/// hour by its hour number (24 when it does not read), named dimensions all 0, and an
/// unknown key of an ordered dimension 9 (2 for volume and open-interest flags).
pub open spec fn group_rank_of(group_by: GroupBy, key: Seq<char>) -> u8 {
    match group_by {
        GroupBy::ScoreBand => {
            if key == "3.5-5.0"@ {
                0
            } else if key == "2.5-3.5"@ {
                1
            } else if key == "<2.5"@ {
                2
            } else {
                9
            }
        },
        GroupBy::Grade => {
            if key == "A级"@ {
                0
            } else if key == "B级"@ {
                1
            } else if key == "C级"@ {
                2
            } else if key == "回撤过浅"@ {
                3
            } else if key == "回撤过深"@ {
                4
            } else {
                9
            }
        },
        GroupBy::Direction => if key == "做多"@ {
            0
        } else {
            1
        },
        GroupBy::Level => if key == "精细"@ {
            0
        } else {
            1
        },
        GroupBy::Hour => hour_rank(key),
        GroupBy::Symbol => 0,
        GroupBy::VolConfirm => {
            if key == "放量确认"@ {
                0
            } else if key == "未放量"@ {
                1
            } else {
                2
            }
        },
        GroupBy::OiIncrease => {
            if key == "增仓"@ {
                0
            } else if key == "未增仓"@ {
                1
            } else {
                2
            }
        },
        GroupBy::Trend60Band => {
            if key == "≥3.5"@ {
                0
            } else if key == "2.5-3.5"@ {
                1
            } else if key == "<2.5"@ {
                2
            } else {
                9
            }
        },
        GroupBy::SymbolHour => 0,
        GroupBy::ScoreVol => 0,
        GroupBy::HourAtrBand => 0,
        GroupBy::ExitReason => {
            if key == "止盈"@ {
                0
            } else if key == "止损"@ {
                1
            } else if key == "无跟随"@ {
                2
            } else if key == "时间退出"@ {
                3
            } else if key == "换月"@ {
                4
            } else if key == "其他"@ {
                5
            } else {
                9
            }
        },
        GroupBy::VolRatioBand => {
            if key == "≥2.0"@ {
                0
            } else if key == "1.3-2.0"@ {
                1
            } else if key == "1.0-1.3"@ {
                2
            } else if key == "0.8-1.0"@ {
                3
            } else if key == "<0.8"@ {
                4
            } else {
                9
            }
        },
        GroupBy::BVolRatioBand => {
            if key == "≥1.3"@ {
                0
            } else if key == "1.0-1.3"@ {
                1
            } else if key == "0.8-1.0"@ {
                2
            } else if key == "<0.8"@ {
                3
            } else {
                9
            }
        },
        GroupBy::RetracementBand => {
            if key == ">66%"@ {
                0
            } else if key == "50-66%"@ {
                1
            } else if key == "33-50%"@ {
                2
            } else if key == "20-33%"@ {
                3
            } else if key == "<20%"@ {
                4
            } else {
                9
            }
        },
        GroupBy::BaSpeedBand => {
            if key == "≥1.2"@ {
                0
            } else if key == "0.8-1.2"@ {
                1
            } else if key == "0.5-0.8"@ {
                2
            } else if key == "<0.5"@ {
                3
            } else {
                9
            }
        },
        GroupBy::AStrengthBand => {
            if key == "≥10"@ {
                0
            } else if key == "6-10"@ {
                1
            } else if key == "3-6"@ {
                2
            } else if key == "<3"@ {
                3
            } else {
                9
            }
        },
        GroupBy::TriggerLagBand => {
            if key == "1"@ {
                0
            } else if key == "2-3"@ {
                1
            } else if key == "4-6"@ {
                2
            } else if key == "7-12"@ {
                3
            } else if key == ">12"@ {
                4
            } else {
                9
            }
        },
        GroupBy::OvershootBand => {
            if key == "<0.1"@ {
                0
            } else if key == "0.1-0.3"@ {
                1
            } else if key == "0.3-0.6"@ {
                2
            } else if key == "≥0.6"@ {
                3
            } else {
                9
            }
        },
        GroupBy::TpTier => {
            if key == "TP2扩展止盈"@ {
                0
            } else if key == "TP1止盈"@ {
                1
            } else if key == "其他"@ {
                2
            } else {
                9
            }
        },
        GroupBy::GapCombo => {
            if key == "双跳空"@ {
                0
            } else if key == "入场跳空"@ {
                1
            } else if key == "出场跳空"@ {
                2
            } else if key == "无跳空"@ {
                3
            } else {
                9
            }
        },
        GroupBy::DimTrend => {
            if key == "≥3.5"@ {
                0
            } else if key == "2.0-3.5"@ {
                1
            } else if key == "<2.0"@ {
                2
            } else {
                9
            }
        },
        GroupBy::DimALeg => {
            if key == "≥3.5"@ {
                0
            } else if key == "2.0-3.5"@ {
                1
            } else if key == "<2.0"@ {
                2
            } else {
                9
            }
        },
        GroupBy::DimBLeg => {
            if key == "≥3.5"@ {
                0
            } else if key == "2.0-3.5"@ {
                1
            } else if key == "<2.0"@ {
                2
            } else {
                9
            }
        },
        GroupBy::DimWarning => {
            if key == "≥3.5"@ {
                0
            } else if key == "2.0-3.5"@ {
                1
            } else if key == "<2.0"@ {
                2
            } else {
                9
            }
        },
        GroupBy::DimTrigger => {
            if key == "≥3.5"@ {
                0
            } else if key == "2.0-3.5"@ {
                1
            } else if key == "<2.0"@ {
                2
            } else {
                9
            }
        },
        GroupBy::DimRr => {
            if key == "≥3.5"@ {
                0
            } else if key == "2.0-3.5"@ {
                1
            } else if key == "<2.0"@ {
                2
            } else {
                9
            }
        },
        GroupBy::DimMomentum => {
            if key == "≥3.5"@ {
                0
            } else if key == "2.0-3.5"@ {
                1
            } else if key == "<2.0"@ {
                2
            } else {
                9
            }
        },
    }
}

/// The hour of a `HH:...` key as a `u8`, or 24 when the part before the first `:`
/// does not read as one (or there is no `:`).
pub open spec fn hour_rank(key: Seq<char>) -> u8 {
    match find_char(key, ':') {
        Some(i) => match parse_int(key.subrange(0, i), false, 0, 255) {
            Some(h) => h as u8,
            None => 24,
        },
        None => 24,
    }
}

fn hour_rank_exec(k: &[char]) -> (r: u8)
    ensures
        r == hour_rank(k@),
{
    match find_char_idx(k, ':') {
        Some(i) => {
            let h = slice_to_vec(k, 0, i);
            match parse_u8(h.as_slice()) {
                Some(v) => v,
                None => 24,
            }
        },
        None => 24,
    }
}

/// The nominal dimensions, symbol and hour, list their groups by settled count,
/// descending; the other dimensions by rank (see `group_rank_of`) and key.
pub open spec fn ranks_by_settled(group_by: GroupBy) -> bool {
    group_by == GroupBy::Symbol || group_by == GroupBy::Hour
}

/// Whether a dimension lists its groups by settled count (see `ranks_by_settled`).
pub fn orders_by_settled(group_by: GroupBy) -> (r: bool)
    ensures
        r == ranks_by_settled(group_by),
{
    match group_by {
        GroupBy::Symbol | GroupBy::Hour => true,
        _ => false,
    }
}

/// The display order of a group: its rank (see `group_rank_of`) and its key.
#[verifier::rlimit(40)]
pub fn group_rank(group_by: GroupBy, key: &str) -> (r: (u8, String))
    ensures
        r.0 == group_rank_of(group_by, key@),
        r.1@ == key@,
{
    let k = chars_of(key);
    let rank: u8 = match group_by {
        GroupBy::ScoreBand => {
            if eq_lit(k.as_slice(), "3.5-5.0") {
                0
            } else if eq_lit(k.as_slice(), "2.5-3.5") {
                1
            } else if eq_lit(k.as_slice(), "<2.5") {
                2
            } else {
                9
            }
        },
        GroupBy::Grade => {
            if eq_lit(k.as_slice(), "A级") {
                0
            } else if eq_lit(k.as_slice(), "B级") {
                1
            } else if eq_lit(k.as_slice(), "C级") {
                2
            } else if eq_lit(k.as_slice(), "回撤过浅") {
                3
            } else if eq_lit(k.as_slice(), "回撤过深") {
                4
            } else {
                9
            }
        },
        GroupBy::Direction => if eq_lit(k.as_slice(), "做多") {
            0
        } else {
            1
        },
        GroupBy::Level => if eq_lit(k.as_slice(), "精细") {
            0
        } else {
            1
        },
        GroupBy::Hour => hour_rank_exec(k.as_slice()),
        GroupBy::Symbol => 0,
        GroupBy::VolConfirm => {
            if eq_lit(k.as_slice(), "放量确认") {
                0
            } else if eq_lit(k.as_slice(), "未放量") {
                1
            } else {
                2
            }
        },
        GroupBy::OiIncrease => {
            if eq_lit(k.as_slice(), "增仓") {
                0
            } else if eq_lit(k.as_slice(), "未增仓") {
                1
            } else {
                2
            }
        },
        GroupBy::Trend60Band => {
            if eq_lit(k.as_slice(), "≥3.5") {
                0
            } else if eq_lit(k.as_slice(), "2.5-3.5") {
                1
            } else if eq_lit(k.as_slice(), "<2.5") {
                2
            } else {
                9
            }
        },
        GroupBy::SymbolHour => 0,
        GroupBy::ScoreVol => 0,
        GroupBy::HourAtrBand => 0,
        GroupBy::ExitReason => {
            if eq_lit(k.as_slice(), "止盈") {
                0
            } else if eq_lit(k.as_slice(), "止损") {
                1
            } else if eq_lit(k.as_slice(), "无跟随") {
                2
            } else if eq_lit(k.as_slice(), "时间退出") {
                3
            } else if eq_lit(k.as_slice(), "换月") {
                4
            } else if eq_lit(k.as_slice(), "其他") {
                5
            } else {
                9
            }
        },
        GroupBy::VolRatioBand => {
            if eq_lit(k.as_slice(), "≥2.0") {
                0
            } else if eq_lit(k.as_slice(), "1.3-2.0") {
                1
            } else if eq_lit(k.as_slice(), "1.0-1.3") {
                2
            } else if eq_lit(k.as_slice(), "0.8-1.0") {
                3
            } else if eq_lit(k.as_slice(), "<0.8") {
                4
            } else {
                9
            }
        },
        GroupBy::BVolRatioBand => {
            if eq_lit(k.as_slice(), "≥1.3") {
                0
            } else if eq_lit(k.as_slice(), "1.0-1.3") {
                1
            } else if eq_lit(k.as_slice(), "0.8-1.0") {
                2
            } else if eq_lit(k.as_slice(), "<0.8") {
                3
            } else {
                9
            }
        },
        GroupBy::RetracementBand => {
            if eq_lit(k.as_slice(), ">66%") {
                0
            } else if eq_lit(k.as_slice(), "50-66%") {
                1
            } else if eq_lit(k.as_slice(), "33-50%") {
                2
            } else if eq_lit(k.as_slice(), "20-33%") {
                3
            } else if eq_lit(k.as_slice(), "<20%") {
                4
            } else {
                9
            }
        },
        GroupBy::BaSpeedBand => {
            if eq_lit(k.as_slice(), "≥1.2") {
                0
            } else if eq_lit(k.as_slice(), "0.8-1.2") {
                1
            } else if eq_lit(k.as_slice(), "0.5-0.8") {
                2
            } else if eq_lit(k.as_slice(), "<0.5") {
                3
            } else {
                9
            }
        },
        GroupBy::AStrengthBand => {
            if eq_lit(k.as_slice(), "≥10") {
                0
            } else if eq_lit(k.as_slice(), "6-10") {
                1
            } else if eq_lit(k.as_slice(), "3-6") {
                2
            } else if eq_lit(k.as_slice(), "<3") {
                3
            } else {
                9
            }
        },
        GroupBy::TriggerLagBand => {
            if eq_lit(k.as_slice(), "1") {
                0
            } else if eq_lit(k.as_slice(), "2-3") {
                1
            } else if eq_lit(k.as_slice(), "4-6") {
                2
            } else if eq_lit(k.as_slice(), "7-12") {
                3
            } else if eq_lit(k.as_slice(), ">12") {
                4
            } else {
                9
            }
        },
        GroupBy::OvershootBand => {
            if eq_lit(k.as_slice(), "<0.1") {
                0
            } else if eq_lit(k.as_slice(), "0.1-0.3") {
                1
            } else if eq_lit(k.as_slice(), "0.3-0.6") {
                2
            } else if eq_lit(k.as_slice(), "≥0.6") {
                3
            } else {
                9
            }
        },
        GroupBy::TpTier => {
            if eq_lit(k.as_slice(), "TP2扩展止盈") {
                0
            } else if eq_lit(k.as_slice(), "TP1止盈") {
                1
            } else if eq_lit(k.as_slice(), "其他") {
                2
            } else {
                9
            }
        },
        GroupBy::GapCombo => {
            if eq_lit(k.as_slice(), "双跳空") {
                0
            } else if eq_lit(k.as_slice(), "入场跳空") {
                1
            } else if eq_lit(k.as_slice(), "出场跳空") {
                2
            } else if eq_lit(k.as_slice(), "无跳空") {
                3
            } else {
                9
            }
        },
        GroupBy::DimTrend => {
            if eq_lit(k.as_slice(), "≥3.5") {
                0
            } else if eq_lit(k.as_slice(), "2.0-3.5") {
                1
            } else if eq_lit(k.as_slice(), "<2.0") {
                2
            } else {
                9
            }
        },
        GroupBy::DimALeg => {
            if eq_lit(k.as_slice(), "≥3.5") {
                0
            } else if eq_lit(k.as_slice(), "2.0-3.5") {
                1
            } else if eq_lit(k.as_slice(), "<2.0") {
                2
            } else {
                9
            }
        },
        GroupBy::DimBLeg => {
            if eq_lit(k.as_slice(), "≥3.5") {
                0
            } else if eq_lit(k.as_slice(), "2.0-3.5") {
                1
            } else if eq_lit(k.as_slice(), "<2.0") {
                2
            } else {
                9
            }
        },
        GroupBy::DimWarning => {
            if eq_lit(k.as_slice(), "≥3.5") {
                0
            } else if eq_lit(k.as_slice(), "2.0-3.5") {
                1
            } else if eq_lit(k.as_slice(), "<2.0") {
                2
            } else {
                9
            }
        },
        GroupBy::DimTrigger => {
            if eq_lit(k.as_slice(), "≥3.5") {
                0
            } else if eq_lit(k.as_slice(), "2.0-3.5") {
                1
            } else if eq_lit(k.as_slice(), "<2.0") {
                2
            } else {
                9
            }
        },
        GroupBy::DimRr => {
            if eq_lit(k.as_slice(), "≥3.5") {
                0
            } else if eq_lit(k.as_slice(), "2.0-3.5") {
                1
            } else if eq_lit(k.as_slice(), "<2.0") {
                2
            } else {
                9
            }
        },
        GroupBy::DimMomentum => {
            if eq_lit(k.as_slice(), "≥3.5") {
                0
            } else if eq_lit(k.as_slice(), "2.0-3.5") {
                1
            } else if eq_lit(k.as_slice(), "<2.0") {
                2
            } else {
                9
            }
        },
    };
    (rank, owned(key))
}


} // verus!
