//! Conversion of a resistance reading to a temperature, by linear
//! interpolation between the points of a calibration table.

use vstd::prelude::*;

verus! {

/// A calibration point: a temperature in hundredths of a degree, and the
/// resistance in hundredths of an ohm that the sensor has at it.
pub type TempPair = (u16, u16);

/// Calibration points of the sensor, from 0 to 130 degrees.
pub const LOOKUP_TABLE: [TempPair; 14] = [
    (0, 10000),
    (1000, 10390),
    (2000, 10779),
    (3000, 11167),
    (4000, 11554),
    (5000, 11940),
    (6000, 12324),
    (7000, 12708),
    (8000, 13090),
    (9000, 13471),
    (10000, 13851),
    (11000, 14229),
    (12000, 14607),
    (13000, 14983),
];

/// Whether `table` ascends: by its first column, and strictly by its
/// second, which is the one that is looked up.
pub open spec fn ascending(table: Seq<TempPair>) -> bool {
    forall|i: int, j: int|
        0 <= i < j < table.len() ==> (#[trigger] table[i]).0 <= (#[trigger] table[j]).0
            && table[i].1 < table[j].1
}

/// The index of the first point at or behind `from` whose second column
/// exceeds `val`; the length of the table if there is none.
pub open spec fn first_above(table: Seq<TempPair>, val: u16, from: int) -> int
    decreases table.len() - from,
{
    if from < 0 || from >= table.len() {
        table.len() as int
    } else if table[from].1 > val {
        from
    } else {
        first_above(table, val, from + 1)
    }
}

/// The value at `val` of the line through `low` and `high`, with the
/// quotient rounded towards zero.
pub open spec fn on_segment(low: TempPair, high: TempPair, val: u16) -> int {
    if val >= low.1 {
        low.0 + ((high.0 - low.0) * (val - low.1)) / (high.1 - low.1)
    } else {
        low.0 - ((high.0 - low.0) * (low.1 - val)) / (high.1 - low.1)
    }
}

/// The interpolated value at `val`. Between two points it lies on their
/// segment; below the first point, on the first segment prolonged; at or
/// above the last point, and where there is no segment, it is 0.
pub open spec fn interpolate_spec(table: Seq<TempPair>, val: u16) -> int {
    let k = first_above(table, val, 0);
    if k >= table.len() || table.len() < 2 {
        0
    } else if k == 0 {
        on_segment(table[0], table[1], val)
    } else {
        on_segment(table[k - 1], table[k], val)
    }
}

/// The first point above `val` brackets it: every point before it is at or
/// below `val`, and it is above `val` itself.
pub proof fn lemma_first_above(table: Seq<TempPair>, val: u16, from: int)
    requires
        0 <= from <= table.len(),
    ensures
        from <= first_above(table, val, from) <= table.len(),
        forall|i: int| from <= i < first_above(table, val, from) ==> (#[trigger] table[i]).1 <= val,
        first_above(table, val, from) < table.len() ==> table[first_above(table, val, from)].1
            > val,
    decreases table.len() - from,
{
    if from < table.len() && table[from].1 <= val {
        lemma_first_above(table, val, from + 1);
    }
}

/// Interpolates `val` in `table`.
pub fn interpolate(table: &[TempPair], val: u16) -> (res: i64)
    requires
        ascending(table@),
    ensures
        res == interpolate_spec(table@, val),
{
    let mut k: usize = 0;
    while k < table.len() && table[k].1 <= val
        invariant
            k <= table@.len(),
            first_above(table@, val, 0) == first_above(table@, val, k as int),
        decreases table@.len() - k,
    {
        k = k + 1;
    }
    if k >= table.len() || table.len() < 2 {
        return 0;
    }
    proof {
        lemma_first_above(table@, val, 0);
    }
    let (low, high) = if k == 0 {
        (table[0], table[1])
    } else {
        (table[k - 1], table[k])
    };
    let rise: u64 = (high.0 - low.0) as u64;
    let run: u64 = (high.1 - low.1) as u64;
    if val >= low.1 {
        let over: u64 = (val - low.1) as u64;
        assert(rise * over <= 0xffff * 0xffff) by (nonlinear_arith)
            requires
                rise <= 0xffff,
                over <= 0xffff,
        ;
        low.0 as i64 + ((rise * over) / run) as i64
    } else {
        let under: u64 = (low.1 - val) as u64;
        assert(rise * under <= 0xffff * 0xffff) by (nonlinear_arith)
            requires
                rise <= 0xffff,
                under <= 0xffff,
        ;
        low.0 as i64 - ((rise * under) / run) as i64
    }
}

/// The calibration table ascends.
pub proof fn lemma_table_ascends()
    ensures
        ascending(LOOKUP_TABLE@),
{
    let t = LOOKUP_TABLE@;
    assert(t.len() == 14);
    assert(t[0] == (0u16, 10000u16));
    assert(t[1] == (1000u16, 10390u16));
    assert(t[2] == (2000u16, 10779u16));
    assert(t[3] == (3000u16, 11167u16));
    assert(t[4] == (4000u16, 11554u16));
    assert(t[5] == (5000u16, 11940u16));
    assert(t[6] == (6000u16, 12324u16));
    assert(t[7] == (7000u16, 12708u16));
    assert(t[8] == (8000u16, 13090u16));
    assert(t[9] == (9000u16, 13471u16));
    assert(t[10] == (10000u16, 13851u16));
    assert(t[11] == (11000u16, 14229u16));
    assert(t[12] == (12000u16, 14607u16));
    assert(t[13] == (13000u16, 14983u16));
}

/// The temperature, in hundredths of a degree, at which the sensor has the
/// resistance `val`, in hundredths of an ohm: `val` interpolated in
/// `LOOKUP_TABLE`. A reading below the table's first point, which lies
/// below zero degrees, gives 0.
pub fn lookup_temperature(val: u16) -> (temp: u32)
    ensures
        temp == if interpolate_spec(LOOKUP_TABLE@, val) < 0 {
            0
        } else {
            interpolate_spec(LOOKUP_TABLE@, val)
        },
{
    proof {
        lemma_table_ascends();
    }
    let at = interpolate(LOOKUP_TABLE.as_slice(), val);
    if at < 0 {
        0
    } else {
        proof {
            lemma_in_range(LOOKUP_TABLE@, val);
        }
        at as u32
    }
}

/// An interpolated value is less than twice the largest number of its
/// table's first column.
proof fn lemma_in_range(table: Seq<TempPair>, val: u16)
    requires
        ascending(table),
    ensures
        interpolate_spec(table, val) < 0x20000,
{
    lemma_first_above(table, val, 0);
    let k = first_above(table, val, 0);
    if k < table.len() && table.len() >= 2 {
        let (low, high) = if k == 0 {
            (table[0], table[1])
        } else {
            (table[k - 1], table[k])
        };
        if val >= low.1 {
            let rise = high.0 - low.0;
            let over = val - low.1;
            let run = high.1 - low.1;
            assert((rise * over) / run <= rise) by (nonlinear_arith)
                requires
                    0 <= rise,
                    0 <= over < run,
            ;
        } else {
            let rise = high.0 - low.0;
            let under = low.1 - val;
            let run = high.1 - low.1;
            assert((rise * under) / run >= 0) by (nonlinear_arith)
                requires
                    0 <= rise,
                    0 <= under,
                    0 < run,
            ;
        }
    }
}

} // verus!
