use vstd::prelude::*;
use vstd::string::*;

use crate::error::Error;
use crate::slot::SlotNumber;
use crate::strutil::{decimal_int, i8_to_string, str_eq};

verus! {

/// The wheel variant: single-zero (European) or double-zero (American).
#[derive(Debug, PartialEq, Eq, Structural, Hash, Copy, Clone)]
pub enum RouletteType {
    American,
    European,
}

/// A pocket's color. `Green` belongs to the zero-family pockets and cannot
/// be bet on.
#[derive(Debug, PartialEq, Eq, Structural, Hash, Copy, Clone)]
pub enum Color {
    Green,
    Black,
    Red,
}

/// A pocket's parity class; the zero-family pockets are `Zero`.
#[derive(Debug, PartialEq, Eq, Structural, Hash, Copy, Clone)]
pub enum EvenOdd {
    Even,
    Odd,
    Zero,
}

/// The table column (1..=12) that a pocket belongs to; zero-family pockets
/// are `Zero`.
#[derive(Debug, PartialEq, Eq, Structural, Hash, Copy, Clone)]
pub enum Column {
    Zero,
    One,
    Two,
    Three,
    Four,
    Five,
    Six,
    Seven,
    Eight,
    Nine,
    Ten,
    Eleven,
    Twelve,
}

/// The dozen (1..=3) that a pocket belongs to; zero-family pockets are
/// `Zero`.
#[derive(Debug, PartialEq, Eq, Structural, Hash, Copy, Clone)]
pub enum Dozen {
    Zero,
    One,
    Two,
    Three,
}

/// The half (1..=2) that a pocket belongs to; zero-family pockets are
/// `Zero`.
#[derive(Debug, PartialEq, Eq, Structural, Hash, Copy, Clone)]
pub enum Half {
    Zero,
    One,
    Two,
}

/// The row (1..=3) within a column triplet; zero-family pockets are `Zero`.
#[derive(Debug, PartialEq, Eq, Structural, Hash, Copy, Clone)]
pub enum Row {
    Zero,
    One,
    Two,
    Three,
}

/// The parity class dictated by a slot number.
pub open spec fn even_odd_of_slot(n: int) -> EvenOdd {
    if n <= 0 {
        EvenOdd::Zero
    } else if n % 2 == 0 {
        EvenOdd::Even
    } else {
        EvenOdd::Odd
    }
}

/// The dozen value dictated by a slot number.
pub open spec fn dozen_value_of_slot(n: int) -> int {
    if n <= 0 {
        0
    } else if n <= 12 {
        1
    } else if n <= 24 {
        2
    } else {
        3
    }
}

/// The half value dictated by a slot number.
pub open spec fn half_value_of_slot(n: int) -> int {
    if n <= 0 {
        0
    } else if n <= 18 {
        1
    } else {
        2
    }
}

/// The row value dictated by a slot number.
pub open spec fn row_value_of_slot(n: int) -> int {
    if n <= 0 {
        0
    } else {
        (n - 1) % 3 + 1
    }
}

/// The column value dictated by a slot number.
pub open spec fn column_value_of_slot(n: int) -> int {
    if n <= 0 {
        0
    } else {
        (n - 1) / 3 + 1
    }
}

fn slot_range_error(n: SlotNumber) -> (r: Error) {
    let mut message = i8_to_string(n);
    message.append(" is not a valid slot number");
    Error::GenericError { message }
}

/// The name strings accepted by `Color::from_str`.
pub open spec fn color_of_str(s: Seq<char>) -> Option<Color> {
    if s == "Green"@ {
        Some(Color::Green)
    } else if s == "Black"@ {
        Some(Color::Black)
    } else if s == "Red"@ {
        Some(Color::Red)
    } else {
        None
    }
}

/// The display name of a color.
pub open spec fn color_name(c: Color) -> Seq<char> {
    match c {
        Color::Green => "Green"@,
        Color::Black => "Black"@,
        Color::Red => "Red"@,
    }
}

impl Color {
    /// Parses a color from its display name.
    pub fn from_str(s: &str) -> (r: Result<Color, Error>)
        ensures
            match r {
                Ok(c) => color_of_str(s@) == Some(c),
                Err(_) => color_of_str(s@) is None,
            },
    {
        if str_eq(s, "Green") {
            Ok(Color::Green)
        } else if str_eq(s, "Black") {
            Ok(Color::Black)
        } else if str_eq(s, "Red") {
            Ok(Color::Red)
        } else {
            let mut message = String::from_str("Failed to convert ");
            message.append(s);
            message.append(" to Color");
            Err(Error::FromStrError { message, string: s.to_owned() })
        }
    }

    /// The display name of this color.
    pub fn to_display(&self) -> (r: String)
        ensures
            r@ == color_name(*self),
    {
        match self {
            Color::Green => String::from_str("Green"),
            Color::Black => String::from_str("Black"),
            Color::Red => String::from_str("Red"),
        }
    }
}

/// The name strings accepted by `EvenOdd::from_str`.
pub open spec fn even_odd_of_str(s: Seq<char>) -> Option<EvenOdd> {
    if s == "Even"@ {
        Some(EvenOdd::Even)
    } else if s == "Odd"@ {
        Some(EvenOdd::Odd)
    } else if s == "Zero"@ {
        Some(EvenOdd::Zero)
    } else {
        None
    }
}

/// The display name of a parity class.
pub open spec fn even_odd_name(e: EvenOdd) -> Seq<char> {
    match e {
        EvenOdd::Even => "Even"@,
        EvenOdd::Odd => "Odd"@,
        EvenOdd::Zero => "Zero"@,
    }
}

impl EvenOdd {
    /// Parses a parity class from its display name.
    pub fn from_str(s: &str) -> (r: Result<EvenOdd, Error>)
        ensures
            match r {
                Ok(e) => even_odd_of_str(s@) == Some(e),
                Err(_) => even_odd_of_str(s@) is None,
            },
    {
        if str_eq(s, "Even") {
            Ok(EvenOdd::Even)
        } else if str_eq(s, "Odd") {
            Ok(EvenOdd::Odd)
        } else if str_eq(s, "Zero") {
            Ok(EvenOdd::Zero)
        } else {
            let mut message = String::from_str("Failed to convert ");
            message.append(s);
            message.append(" to EvenOdd");
            Err(Error::FromStrError { message, string: s.to_owned() })
        }
    }

    /// The display name of this parity class.
    pub fn to_display(&self) -> (r: String)
        ensures
            r@ == even_odd_name(*self),
    {
        match self {
            EvenOdd::Even => String::from_str("Even"),
            EvenOdd::Odd => String::from_str("Odd"),
            EvenOdd::Zero => String::from_str("Zero"),
        }
    }

    /// The parity class of a slot number.
    pub fn from_slot_number(n: SlotNumber) -> (r: Result<EvenOdd, Error>)
        ensures
            match r {
                Ok(e) => -1 <= n <= 36 && e == even_odd_of_slot(n as int),
                Err(_) => !(-1 <= n <= 36),
            },
    {
        if n < -1 || n > 36 {
            Err(slot_range_error(n))
        } else if n <= 0 {
            Ok(EvenOdd::Zero)
        } else if n % 2 == 0 {
            Ok(EvenOdd::Even)
        } else {
            Ok(EvenOdd::Odd)
        }
    }
}

impl Column {
    /// The numeric value of this column.
    pub open spec fn spec_value(self) -> int {
        match self {
            Column::Zero => 0,
            Column::One => 1,
            Column::Two => 2,
            Column::Three => 3,
            Column::Four => 4,
            Column::Five => 5,
            Column::Six => 6,
            Column::Seven => 7,
            Column::Eight => 8,
            Column::Nine => 9,
            Column::Ten => 10,
            Column::Eleven => 11,
            Column::Twelve => 12,
        }
    }

    /// The numeric value of this column.
    pub fn value(&self) -> (r: i32)
        ensures
            r == self.spec_value(),
    {
        match self {
            Column::Zero => 0,
            Column::One => 1,
            Column::Two => 2,
            Column::Three => 3,
            Column::Four => 4,
            Column::Five => 5,
            Column::Six => 6,
            Column::Seven => 7,
            Column::Eight => 8,
            Column::Nine => 9,
            Column::Ten => 10,
            Column::Eleven => 11,
            Column::Twelve => 12,
        }
    }

    /// The column with the given numeric value; `0..=12` are valid.
    pub fn from_number(n: i64) -> (r: Result<Column, Error>)
        ensures
            match r {
                Ok(c) => 0 <= n <= 12 && c.spec_value() == n,
                Err(_) => !(0 <= n <= 12),
            },
    {
        match n {
            0 => Ok(Column::Zero),
            1 => Ok(Column::One),
            2 => Ok(Column::Two),
            3 => Ok(Column::Three),
            4 => Ok(Column::Four),
            5 => Ok(Column::Five),
            6 => Ok(Column::Six),
            7 => Ok(Column::Seven),
            8 => Ok(Column::Eight),
            9 => Ok(Column::Nine),
            10 => Ok(Column::Ten),
            11 => Ok(Column::Eleven),
            12 => Ok(Column::Twelve),
            _ => Err(Error::GenericError {
                message: String::from_str("value is not a valid Column"),
            }),
        }
    }

    /// The column of a slot number: `(n - 1) / 3 + 1` for `1..=36`, `Zero`
    /// for the zero-family numbers.
    pub fn from_slot_number(n: SlotNumber) -> (r: Result<Column, Error>)
        ensures
            match r {
                Ok(c) => -1 <= n <= 36 && c.spec_value() == column_value_of_slot(n as int),
                Err(_) => !(-1 <= n <= 36),
            },
    {
        if n < -1 || n > 36 {
            Err(slot_range_error(n))
        } else if n <= 0 {
            Ok(Column::Zero)
        } else {
            let v: i64 = ((n - 1) / 3 + 1) as i64;
            let r = Self::from_number(v);
            proof {
                assert(r is Ok);
            }
            r
        }
    }

    /// Parses a column from its variant name.
    pub fn from_str(s: &str) -> (r: Result<Column, Error>)
        ensures
            match r {
                Ok(c) => column_of_str(s@) == Some(c),
                Err(_) => column_of_str(s@) is None,
            },
    {
        if str_eq(s, "Zero") {
            Ok(Column::Zero)
        } else if str_eq(s, "One") {
            Ok(Column::One)
        } else if str_eq(s, "Two") {
            Ok(Column::Two)
        } else if str_eq(s, "Three") {
            Ok(Column::Three)
        } else if str_eq(s, "Four") {
            Ok(Column::Four)
        } else if str_eq(s, "Five") {
            Ok(Column::Five)
        } else if str_eq(s, "Six") {
            Ok(Column::Six)
        } else if str_eq(s, "Seven") {
            Ok(Column::Seven)
        } else if str_eq(s, "Eight") {
            Ok(Column::Eight)
        } else if str_eq(s, "Nine") {
            Ok(Column::Nine)
        } else if str_eq(s, "Ten") {
            Ok(Column::Ten)
        } else if str_eq(s, "Eleven") {
            Ok(Column::Eleven)
        } else if str_eq(s, "Twelve") {
            Ok(Column::Twelve)
        } else {
            let mut message = String::from_str("Failed to convert ");
            message.append(s);
            message.append(" to Column");
            Err(Error::FromStrError { message, string: s.to_owned() })
        }
    }

    /// The decimal rendering of this column's value.
    pub fn to_display(&self) -> (r: String)
        ensures
            r@ == decimal_int(self.spec_value()),
    {
        let v = self.value();
        i8_to_string(v as i8)
    }
}

/// The variant names accepted by `Column::from_str`.
pub open spec fn column_of_str(s: Seq<char>) -> Option<Column> {
    if s == "Zero"@ {
        Some(Column::Zero)
    } else if s == "One"@ {
        Some(Column::One)
    } else if s == "Two"@ {
        Some(Column::Two)
    } else if s == "Three"@ {
        Some(Column::Three)
    } else if s == "Four"@ {
        Some(Column::Four)
    } else if s == "Five"@ {
        Some(Column::Five)
    } else if s == "Six"@ {
        Some(Column::Six)
    } else if s == "Seven"@ {
        Some(Column::Seven)
    } else if s == "Eight"@ {
        Some(Column::Eight)
    } else if s == "Nine"@ {
        Some(Column::Nine)
    } else if s == "Ten"@ {
        Some(Column::Ten)
    } else if s == "Eleven"@ {
        Some(Column::Eleven)
    } else if s == "Twelve"@ {
        Some(Column::Twelve)
    } else {
        None
    }
}

impl Dozen {
    /// The numeric value of this dozen.
    pub open spec fn spec_value(self) -> int {
        match self {
            Dozen::Zero => 0,
            Dozen::One => 1,
            Dozen::Two => 2,
            Dozen::Three => 3,
        }
    }

    /// The numeric value of this dozen.
    pub fn value(&self) -> (r: i32)
        ensures
            r == self.spec_value(),
    {
        match self {
            Dozen::Zero => 0,
            Dozen::One => 1,
            Dozen::Two => 2,
            Dozen::Three => 3,
        }
    }

    /// The dozen with the given numeric value; `0..=3` are valid.
    pub fn from_number(n: i64) -> (r: Result<Dozen, Error>)
        ensures
            match r {
                Ok(d) => 0 <= n <= 3 && d.spec_value() == n,
                Err(_) => !(0 <= n <= 3),
            },
    {
        match n {
            0 => Ok(Dozen::Zero),
            1 => Ok(Dozen::One),
            2 => Ok(Dozen::Two),
            3 => Ok(Dozen::Three),
            _ => Err(Error::GenericError {
                message: String::from_str("value is not a valid Dozen"),
            }),
        }
    }

    /// The dozen of a slot number.
    pub fn from_slot_number(n: SlotNumber) -> (r: Result<Dozen, Error>)
        ensures
            match r {
                Ok(d) => -1 <= n <= 36 && d.spec_value() == dozen_value_of_slot(n as int),
                Err(_) => !(-1 <= n <= 36),
            },
    {
        if n < -1 || n > 36 {
            Err(slot_range_error(n))
        } else if n <= 0 {
            Ok(Dozen::Zero)
        } else if n <= 12 {
            Ok(Dozen::One)
        } else if n <= 24 {
            Ok(Dozen::Two)
        } else {
            Ok(Dozen::Three)
        }
    }

    /// Parses a dozen from its variant name.
    pub fn from_str(s: &str) -> (r: Result<Dozen, Error>)
        ensures
            match r {
                Ok(d) => dozen_of_str(s@) == Some(d),
                Err(_) => dozen_of_str(s@) is None,
            },
    {
        if str_eq(s, "Zero") {
            Ok(Dozen::Zero)
        } else if str_eq(s, "One") {
            Ok(Dozen::One)
        } else if str_eq(s, "Two") {
            Ok(Dozen::Two)
        } else if str_eq(s, "Three") {
            Ok(Dozen::Three)
        } else {
            let mut message = String::from_str("Failed to convert ");
            message.append(s);
            message.append(" to Dozen");
            Err(Error::FromStrError { message, string: s.to_owned() })
        }
    }

    /// The decimal rendering of this dozen's value.
    pub fn to_display(&self) -> (r: String)
        ensures
            r@ == decimal_int(self.spec_value()),
    {
        let v = self.value();
        i8_to_string(v as i8)
    }
}

/// The variant names accepted by `Dozen::from_str`.
pub open spec fn dozen_of_str(s: Seq<char>) -> Option<Dozen> {
    if s == "Zero"@ {
        Some(Dozen::Zero)
    } else if s == "One"@ {
        Some(Dozen::One)
    } else if s == "Two"@ {
        Some(Dozen::Two)
    } else if s == "Three"@ {
        Some(Dozen::Three)
    } else {
        None
    }
}

impl Half {
    /// The numeric value of this half.
    pub open spec fn spec_value(self) -> int {
        match self {
            Half::Zero => 0,
            Half::One => 1,
            Half::Two => 2,
        }
    }

    /// The numeric value of this half.
    pub fn value(&self) -> (r: i32)
        ensures
            r == self.spec_value(),
    {
        match self {
            Half::Zero => 0,
            Half::One => 1,
            Half::Two => 2,
        }
    }

    /// The half with the given numeric value; `0..=2` are valid.
    pub fn from_number(n: i64) -> (r: Result<Half, Error>)
        ensures
            match r {
                Ok(h) => 0 <= n <= 2 && h.spec_value() == n,
                Err(_) => !(0 <= n <= 2),
            },
    {
        match n {
            0 => Ok(Half::Zero),
            1 => Ok(Half::One),
            2 => Ok(Half::Two),
            _ => Err(Error::GenericError {
                message: String::from_str("value is not a valid Half"),
            }),
        }
    }

    /// The half of a slot number.
    pub fn from_slot_number(n: SlotNumber) -> (r: Result<Half, Error>)
        ensures
            match r {
                Ok(h) => -1 <= n <= 36 && h.spec_value() == half_value_of_slot(n as int),
                Err(_) => !(-1 <= n <= 36),
            },
    {
        if n < -1 || n > 36 {
            Err(slot_range_error(n))
        } else if n <= 0 {
            Ok(Half::Zero)
        } else if n <= 18 {
            Ok(Half::One)
        } else {
            Ok(Half::Two)
        }
    }

    /// Parses a half from its variant name.
    pub fn from_str(s: &str) -> (r: Result<Half, Error>)
        ensures
            match r {
                Ok(h) => half_of_str(s@) == Some(h),
                Err(_) => half_of_str(s@) is None,
            },
    {
        if str_eq(s, "Zero") {
            Ok(Half::Zero)
        } else if str_eq(s, "One") {
            Ok(Half::One)
        } else if str_eq(s, "Two") {
            Ok(Half::Two)
        } else {
            let mut message = String::from_str("Failed to convert ");
            message.append(s);
            message.append(" to Half");
            Err(Error::FromStrError { message, string: s.to_owned() })
        }
    }

    /// The decimal rendering of this half's value.
    pub fn to_display(&self) -> (r: String)
        ensures
            r@ == decimal_int(self.spec_value()),
    {
        let v = self.value();
        i8_to_string(v as i8)
    }
}

/// The variant names accepted by `Half::from_str`.
pub open spec fn half_of_str(s: Seq<char>) -> Option<Half> {
    if s == "Zero"@ {
        Some(Half::Zero)
    } else if s == "One"@ {
        Some(Half::One)
    } else if s == "Two"@ {
        Some(Half::Two)
    } else {
        None
    }
}

impl Row {
    /// The numeric value of this row.
    pub open spec fn spec_value(self) -> int {
        match self {
            Row::Zero => 0,
            Row::One => 1,
            Row::Two => 2,
            Row::Three => 3,
        }
    }

    /// The numeric value of this row.
    pub fn value(&self) -> (r: i32)
        ensures
            r == self.spec_value(),
    {
        match self {
            Row::Zero => 0,
            Row::One => 1,
            Row::Two => 2,
            Row::Three => 3,
        }
    }

    /// The row with the given numeric value; `0..=3` are valid.
    pub fn from_number(n: i64) -> (r: Result<Row, Error>)
        ensures
            match r {
                Ok(w) => 0 <= n <= 3 && w.spec_value() == n,
                Err(_) => !(0 <= n <= 3),
            },
    {
        match n {
            0 => Ok(Row::Zero),
            1 => Ok(Row::One),
            2 => Ok(Row::Two),
            3 => Ok(Row::Three),
            _ => Err(Error::GenericError {
                message: String::from_str("value is not a valid Row"),
            }),
        }
    }

    /// The row of a slot number: `(n - 1) % 3 + 1` for `1..=36`, `Zero` for
    /// the zero-family numbers.
    pub fn from_slot_number(n: SlotNumber) -> (r: Result<Row, Error>)
        ensures
            match r {
                Ok(w) => -1 <= n <= 36 && w.spec_value() == row_value_of_slot(n as int),
                Err(_) => !(-1 <= n <= 36),
            },
    {
        if n < -1 || n > 36 {
            Err(slot_range_error(n))
        } else if n <= 0 {
            Ok(Row::Zero)
        } else {
            let v: i64 = ((n - 1) % 3 + 1) as i64;
            let r = Self::from_number(v);
            proof {
                assert(r is Ok);
            }
            r
        }
    }

    /// Parses a row from its variant name.
    pub fn from_str(s: &str) -> (r: Result<Row, Error>)
        ensures
            match r {
                Ok(w) => row_of_str(s@) == Some(w),
                Err(_) => row_of_str(s@) is None,
            },
    {
        if str_eq(s, "Zero") {
            Ok(Row::Zero)
        } else if str_eq(s, "One") {
            Ok(Row::One)
        } else if str_eq(s, "Two") {
            Ok(Row::Two)
        } else if str_eq(s, "Three") {
            Ok(Row::Three)
        } else {
            let mut message = String::from_str("Failed to convert ");
            message.append(s);
            message.append(" to Row");
            Err(Error::FromStrError { message, string: s.to_owned() })
        }
    }

    /// The decimal rendering of this row's value.
    pub fn to_display(&self) -> (r: String)
        ensures
            r@ == decimal_int(self.spec_value()),
    {
        let v = self.value();
        i8_to_string(v as i8)
    }
}

/// The variant names accepted by `Row::from_str`.
pub open spec fn row_of_str(s: Seq<char>) -> Option<Row> {
    if s == "Zero"@ {
        Some(Row::Zero)
    } else if s == "One"@ {
        Some(Row::One)
    } else if s == "Two"@ {
        Some(Row::Two)
    } else if s == "Three"@ {
        Some(Row::Three)
    } else {
        None
    }
}

} // verus!
