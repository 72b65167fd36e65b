//! The candlestick durations of the exchange.
use vstd::prelude::*;
use vstd::string::*;
use crate::text::spells;

verus! {

/// A candlestick duration.
#[derive(Debug, Clone, Copy, PartialEq, Eq, Structural)]
pub enum CryptoInterval {
    Int1m,
    Int5m,
    Int15m,
    Int30m,
    Int1h,
    Int2h,
    Int4h,
    Int6h,
    Int8h,
    Int12h,
    Int1d,
    Int3d,
    Int1w,
    Int1M,
}

impl CryptoInterval {
    /// Length of one candlestick of this interval, in minutes.
    pub open spec fn minutes(self) -> int {
        match self {
            CryptoInterval::Int1m => 1,
            CryptoInterval::Int5m => 5,
            CryptoInterval::Int15m => 15,
            CryptoInterval::Int30m => 30,
            CryptoInterval::Int1h => 60,
            CryptoInterval::Int2h => 120,
            CryptoInterval::Int4h => 240,
            CryptoInterval::Int6h => 360,
            CryptoInterval::Int8h => 480,
            CryptoInterval::Int12h => 720,
            CryptoInterval::Int1d => 1440,
            CryptoInterval::Int3d => 4320,
            CryptoInterval::Int1w => 10080,
            CryptoInterval::Int1M => 43200,
        }
    }

    /// The name under which the interval is stored.
    pub open spec fn name(self) -> Seq<char> {
        match self {
            CryptoInterval::Int1m => "Int1m"@,
            CryptoInterval::Int5m => "Int5m"@,
            CryptoInterval::Int15m => "Int15m"@,
            CryptoInterval::Int30m => "Int30m"@,
            CryptoInterval::Int1h => "Int1h"@,
            CryptoInterval::Int2h => "Int2h"@,
            CryptoInterval::Int4h => "Int4h"@,
            CryptoInterval::Int6h => "Int6h"@,
            CryptoInterval::Int8h => "Int8h"@,
            CryptoInterval::Int12h => "Int12h"@,
            CryptoInterval::Int1d => "Int1d"@,
            CryptoInterval::Int3d => "Int3d"@,
            CryptoInterval::Int1w => "Int1w"@,
            CryptoInterval::Int1M => "Int1M"@,
        }
    }

    /// The tag of the interval in the names of tables: its stored name in
    /// lower case, with `int1mo` for the month, which the minute would
    /// otherwise share its tag with.
    pub open spec fn table_tag(self) -> Seq<char> {
        match self {
            CryptoInterval::Int1m => "int1m"@,
            CryptoInterval::Int5m => "int5m"@,
            CryptoInterval::Int15m => "int15m"@,
            CryptoInterval::Int30m => "int30m"@,
            CryptoInterval::Int1h => "int1h"@,
            CryptoInterval::Int2h => "int2h"@,
            CryptoInterval::Int4h => "int4h"@,
            CryptoInterval::Int6h => "int6h"@,
            CryptoInterval::Int8h => "int8h"@,
            CryptoInterval::Int12h => "int12h"@,
            CryptoInterval::Int1d => "int1d"@,
            CryptoInterval::Int3d => "int3d"@,
            CryptoInterval::Int1w => "int1w"@,
            CryptoInterval::Int1M => "int1mo"@,
        }
    }

    /// The spelling that the exchange uses in its requests.
    pub open spec fn wire_name(self) -> Seq<char> {
        match self {
            CryptoInterval::Int1m => "1m"@,
            CryptoInterval::Int5m => "5m"@,
            CryptoInterval::Int15m => "15m"@,
            CryptoInterval::Int30m => "30m"@,
            CryptoInterval::Int1h => "1h"@,
            CryptoInterval::Int2h => "2h"@,
            CryptoInterval::Int4h => "4h"@,
            CryptoInterval::Int6h => "6h"@,
            CryptoInterval::Int8h => "8h"@,
            CryptoInterval::Int12h => "12h"@,
            CryptoInterval::Int1d => "1d"@,
            CryptoInterval::Int3d => "3d"@,
            CryptoInterval::Int1w => "1w"@,
            CryptoInterval::Int1M => "1M"@,
        }
    }

    /// The interval that a stored name stands for; an unknown name reads as
    /// one minute.
    pub open spec fn from_name(s: Seq<char>) -> CryptoInterval {
        if s == "Int5m"@ {
            CryptoInterval::Int5m
        } else if s == "Int15m"@ {
            CryptoInterval::Int15m
        } else if s == "Int30m"@ {
            CryptoInterval::Int30m
        } else if s == "Int1h"@ {
            CryptoInterval::Int1h
        } else if s == "Int2h"@ {
            CryptoInterval::Int2h
        } else if s == "Int4h"@ {
            CryptoInterval::Int4h
        } else if s == "Int6h"@ {
            CryptoInterval::Int6h
        } else if s == "Int8h"@ {
            CryptoInterval::Int8h
        } else if s == "Int12h"@ {
            CryptoInterval::Int12h
        } else if s == "Int1d"@ {
            CryptoInterval::Int1d
        } else if s == "Int3d"@ {
            CryptoInterval::Int3d
        } else if s == "Int1w"@ {
            CryptoInterval::Int1w
        } else if s == "Int1M"@ {
            CryptoInterval::Int1M
        } else {
            CryptoInterval::Int1m
        }
    }

    /// Reads an interval from its stored name.
    pub fn parse_from(interval: &str) -> (r: CryptoInterval)
        ensures
            r == Self::from_name(interval@),
    {
        let s = String::from_str(interval);
        if spells(&s, "Int5m") {
            CryptoInterval::Int5m
        } else if spells(&s, "Int15m") {
            CryptoInterval::Int15m
        } else if spells(&s, "Int30m") {
            CryptoInterval::Int30m
        } else if spells(&s, "Int1h") {
            CryptoInterval::Int1h
        } else if spells(&s, "Int2h") {
            CryptoInterval::Int2h
        } else if spells(&s, "Int4h") {
            CryptoInterval::Int4h
        } else if spells(&s, "Int6h") {
            CryptoInterval::Int6h
        } else if spells(&s, "Int8h") {
            CryptoInterval::Int8h
        } else if spells(&s, "Int12h") {
            CryptoInterval::Int12h
        } else if spells(&s, "Int1d") {
            CryptoInterval::Int1d
        } else if spells(&s, "Int3d") {
            CryptoInterval::Int3d
        } else if spells(&s, "Int1w") {
            CryptoInterval::Int1w
        } else if spells(&s, "Int1M") {
            CryptoInterval::Int1M
        } else {
            CryptoInterval::Int1m
        }
    }

    /// The stored name of the interval.
    pub fn to_string(&self) -> (s: String)
        ensures
            s@ == self.name(),
    {
        match self {
            CryptoInterval::Int1m => String::from_str("Int1m"),
            CryptoInterval::Int5m => String::from_str("Int5m"),
            CryptoInterval::Int15m => String::from_str("Int15m"),
            CryptoInterval::Int30m => String::from_str("Int30m"),
            CryptoInterval::Int1h => String::from_str("Int1h"),
            CryptoInterval::Int2h => String::from_str("Int2h"),
            CryptoInterval::Int4h => String::from_str("Int4h"),
            CryptoInterval::Int6h => String::from_str("Int6h"),
            CryptoInterval::Int8h => String::from_str("Int8h"),
            CryptoInterval::Int12h => String::from_str("Int12h"),
            CryptoInterval::Int1d => String::from_str("Int1d"),
            CryptoInterval::Int3d => String::from_str("Int3d"),
            CryptoInterval::Int1w => String::from_str("Int1w"),
            CryptoInterval::Int1M => String::from_str("Int1M"),
        }
    }

    /// The tag of the interval in the names of tables.
    pub fn to_table_tag(&self) -> (s: String)
        ensures
            s@ == self.table_tag(),
    {
        match self {
            CryptoInterval::Int1m => String::from_str("int1m"),
            CryptoInterval::Int5m => String::from_str("int5m"),
            CryptoInterval::Int15m => String::from_str("int15m"),
            CryptoInterval::Int30m => String::from_str("int30m"),
            CryptoInterval::Int1h => String::from_str("int1h"),
            CryptoInterval::Int2h => String::from_str("int2h"),
            CryptoInterval::Int4h => String::from_str("int4h"),
            CryptoInterval::Int6h => String::from_str("int6h"),
            CryptoInterval::Int8h => String::from_str("int8h"),
            CryptoInterval::Int12h => String::from_str("int12h"),
            CryptoInterval::Int1d => String::from_str("int1d"),
            CryptoInterval::Int3d => String::from_str("int3d"),
            CryptoInterval::Int1w => String::from_str("int1w"),
            CryptoInterval::Int1M => String::from_str("int1mo"),
        }
    }

    /// The spelling of the interval in requests to the exchange.
    pub fn to_binance_string(&self) -> (s: String)
        ensures
            s@ == self.wire_name(),
    {
        match self {
            CryptoInterval::Int1m => String::from_str("1m"),
            CryptoInterval::Int5m => String::from_str("5m"),
            CryptoInterval::Int15m => String::from_str("15m"),
            CryptoInterval::Int30m => String::from_str("30m"),
            CryptoInterval::Int1h => String::from_str("1h"),
            CryptoInterval::Int2h => String::from_str("2h"),
            CryptoInterval::Int4h => String::from_str("4h"),
            CryptoInterval::Int6h => String::from_str("6h"),
            CryptoInterval::Int8h => String::from_str("8h"),
            CryptoInterval::Int12h => String::from_str("12h"),
            CryptoInterval::Int1d => String::from_str("1d"),
            CryptoInterval::Int3d => String::from_str("3d"),
            CryptoInterval::Int1w => String::from_str("1w"),
            CryptoInterval::Int1M => String::from_str("1M"),
        }
    }

    /// Length of one candlestick of this interval, in minutes.
    pub fn to_minutes(&self) -> (m: i64)
        ensures
            m == self.minutes(),
    {
        match self {
            CryptoInterval::Int1m => 1,
            CryptoInterval::Int5m => 5,
            CryptoInterval::Int15m => 15,
            CryptoInterval::Int30m => 30,
            CryptoInterval::Int1h => 60,
            CryptoInterval::Int2h => 120,
            CryptoInterval::Int4h => 240,
            CryptoInterval::Int6h => 360,
            CryptoInterval::Int8h => 480,
            CryptoInterval::Int12h => 720,
            CryptoInterval::Int1d => 1440,
            CryptoInterval::Int3d => 4320,
            CryptoInterval::Int1w => 10080,
            CryptoInterval::Int1M => 43200,
        }
    }
}

/// No tag of an interval holds an underscore, and no two intervals share a
/// tag.
pub proof fn lemma_table_tags(i: CryptoInterval, j: CryptoInterval)
    ensures
        4 <= i.table_tag().len() <= 6,
        forall|k: int| 0 <= k < i.table_tag().len() ==> i.table_tag()[k] != '_',
        i.table_tag() == j.table_tag() ==> i == j,
{
    reveal_strlit("int1m");
    reveal_strlit("int5m");
    reveal_strlit("int15m");
    reveal_strlit("int30m");
    reveal_strlit("int1h");
    reveal_strlit("int2h");
    reveal_strlit("int4h");
    reveal_strlit("int6h");
    reveal_strlit("int8h");
    reveal_strlit("int12h");
    reveal_strlit("int1d");
    reveal_strlit("int3d");
    reveal_strlit("int1w");
    reveal_strlit("int1mo");
    assert("int1m"@.len() == 5 && "int1m"@[0] == 'i' && "int1m"@[1] == 'n' && "int1m"@[2] == 't' && "int1m"@[3] == '1' && "int1m"@[4] == 'm');
    assert("int5m"@.len() == 5 && "int5m"@[0] == 'i' && "int5m"@[1] == 'n' && "int5m"@[2] == 't' && "int5m"@[3] == '5' && "int5m"@[4] == 'm');
    assert("int15m"@.len() == 6 && "int15m"@[0] == 'i' && "int15m"@[1] == 'n' && "int15m"@[2] == 't' && "int15m"@[3] == '1' && "int15m"@[4] == '5' && "int15m"@[5] == 'm');
    assert("int30m"@.len() == 6 && "int30m"@[0] == 'i' && "int30m"@[1] == 'n' && "int30m"@[2] == 't' && "int30m"@[3] == '3' && "int30m"@[4] == '0' && "int30m"@[5] == 'm');
    assert("int1h"@.len() == 5 && "int1h"@[0] == 'i' && "int1h"@[1] == 'n' && "int1h"@[2] == 't' && "int1h"@[3] == '1' && "int1h"@[4] == 'h');
    assert("int2h"@.len() == 5 && "int2h"@[0] == 'i' && "int2h"@[1] == 'n' && "int2h"@[2] == 't' && "int2h"@[3] == '2' && "int2h"@[4] == 'h');
    assert("int4h"@.len() == 5 && "int4h"@[0] == 'i' && "int4h"@[1] == 'n' && "int4h"@[2] == 't' && "int4h"@[3] == '4' && "int4h"@[4] == 'h');
    assert("int6h"@.len() == 5 && "int6h"@[0] == 'i' && "int6h"@[1] == 'n' && "int6h"@[2] == 't' && "int6h"@[3] == '6' && "int6h"@[4] == 'h');
    assert("int8h"@.len() == 5 && "int8h"@[0] == 'i' && "int8h"@[1] == 'n' && "int8h"@[2] == 't' && "int8h"@[3] == '8' && "int8h"@[4] == 'h');
    assert("int12h"@.len() == 6 && "int12h"@[0] == 'i' && "int12h"@[1] == 'n' && "int12h"@[2] == 't' && "int12h"@[3] == '1' && "int12h"@[4] == '2' && "int12h"@[5] == 'h');
    assert("int1d"@.len() == 5 && "int1d"@[0] == 'i' && "int1d"@[1] == 'n' && "int1d"@[2] == 't' && "int1d"@[3] == '1' && "int1d"@[4] == 'd');
    assert("int3d"@.len() == 5 && "int3d"@[0] == 'i' && "int3d"@[1] == 'n' && "int3d"@[2] == 't' && "int3d"@[3] == '3' && "int3d"@[4] == 'd');
    assert("int1w"@.len() == 5 && "int1w"@[0] == 'i' && "int1w"@[1] == 'n' && "int1w"@[2] == 't' && "int1w"@[3] == '1' && "int1w"@[4] == 'w');
    assert("int1mo"@.len() == 6 && "int1mo"@[0] == 'i' && "int1mo"@[1] == 'n' && "int1mo"@[2] == 't' && "int1mo"@[3] == '1' && "int1mo"@[4] == 'm' && "int1mo"@[5] == 'o');
}

/// Reading the stored name of an interval gives the interval back.
pub proof fn lemma_name_round_trip(i: CryptoInterval)
    ensures
        CryptoInterval::from_name(i.name()) == i,
{
    reveal_strlit("Int1m");
    reveal_strlit("Int5m");
    reveal_strlit("Int15m");
    reveal_strlit("Int30m");
    reveal_strlit("Int1h");
    reveal_strlit("Int2h");
    reveal_strlit("Int4h");
    reveal_strlit("Int6h");
    reveal_strlit("Int8h");
    reveal_strlit("Int12h");
    reveal_strlit("Int1d");
    reveal_strlit("Int3d");
    reveal_strlit("Int1w");
    reveal_strlit("Int1M");
    assert("Int1m"@.len() == 5 && "Int1m"@[3] == '1' && "Int1m"@[4] == 'm');
    assert("Int5m"@.len() == 5 && "Int5m"@[3] == '5' && "Int5m"@[4] == 'm');
    assert("Int15m"@.len() == 6 && "Int15m"@[3] == '1' && "Int15m"@[4] == '5');
    assert("Int30m"@.len() == 6 && "Int30m"@[3] == '3' && "Int30m"@[4] == '0');
    assert("Int1h"@.len() == 5 && "Int1h"@[3] == '1' && "Int1h"@[4] == 'h');
    assert("Int2h"@.len() == 5 && "Int2h"@[3] == '2' && "Int2h"@[4] == 'h');
    assert("Int4h"@.len() == 5 && "Int4h"@[3] == '4' && "Int4h"@[4] == 'h');
    assert("Int6h"@.len() == 5 && "Int6h"@[3] == '6' && "Int6h"@[4] == 'h');
    assert("Int8h"@.len() == 5 && "Int8h"@[3] == '8' && "Int8h"@[4] == 'h');
    assert("Int12h"@.len() == 6 && "Int12h"@[3] == '1' && "Int12h"@[4] == '2');
    assert("Int1d"@.len() == 5 && "Int1d"@[3] == '1' && "Int1d"@[4] == 'd');
    assert("Int3d"@.len() == 5 && "Int3d"@[3] == '3' && "Int3d"@[4] == 'd');
    assert("Int1w"@.len() == 5 && "Int1w"@[3] == '1' && "Int1w"@[4] == 'w');
    assert("Int1M"@.len() == 5 && "Int1M"@[3] == '1' && "Int1M"@[4] == 'M');
}

} // verus!
