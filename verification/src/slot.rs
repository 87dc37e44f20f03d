use vstd::prelude::*;

use crate::categories::{Color, Column, Dozen, EvenOdd, Half, Row};

verus! {

/// A wheel pocket's number: `0..=36`, with `-1` standing for the American
/// `00` pocket.
pub type SlotNumber = i8;

/// One pocket of the wheel: its number together with the categorical
/// attributes that bets can address. The categorical fields are derived
/// from the number (see `slot_derived_ok`); only the color carries
/// information of its own.
#[derive(Debug, PartialEq, Eq, Structural, Hash, Copy, Clone)]
pub struct Slot {
    pub color: Color,
    pub number: SlotNumber,
    pub even_odd: EvenOdd,
    pub dozen: Dozen,
    pub half: Half,
    pub row: Row,
    pub column: Column,
}

/// Holds when every categorical field of the slot is the one its number
/// dictates.
pub open spec fn slot_derived_ok(s: Slot) -> bool {
    &&& -1 <= s.number <= 36
    &&& s.even_odd == crate::categories::even_odd_of_slot(s.number as int)
    &&& s.dozen.spec_value() == crate::categories::dozen_value_of_slot(s.number as int)
    &&& s.half.spec_value() == crate::categories::half_value_of_slot(s.number as int)
    &&& s.row.spec_value() == crate::categories::row_value_of_slot(s.number as int)
    &&& s.column.spec_value() == crate::categories::column_value_of_slot(s.number as int)
}

} // verus!
