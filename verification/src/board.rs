use vstd::prelude::*;
use vstd::string::*;

use crate::categories::{Color, Column, Dozen, EvenOdd, Half, RouletteType, Row};
use crate::error::Error;
use crate::slot::{slot_derived_ok, Slot, SlotNumber};

verus! {

/// The wheel: an ordered collection of slots, generated once per game and
/// immutable afterwards.
#[derive(Debug, PartialEq, Clone)]
pub struct Board {
    pub slots: Vec<Slot>,
}

/// Relies on `rand::random::<bool>()`: a draw from the thread-local
/// generator. Nothing is promised of the value.
#[verifier::external_body]
fn coin_flip() -> bool {
    rand::random::<bool>()
}

/// How many slots of the sequence carry the given color.
pub open spec fn count_color(s: Seq<Slot>, c: Color) -> int
    decreases s.len(),
{
    if s.len() == 0 {
        0
    } else {
        count_color(s.drop_last(), c) + if s.last().color == c {
            1int
        } else {
            0int
        }
    }
}

proof fn lemma_count_color_push(s: Seq<Slot>, x: Slot, c: Color)
    ensures
        count_color(s.push(x), c) == count_color(s, c) + if x.color == c {
            1int
        } else {
            0int
        },
{
    assert(s.push(x).drop_last() =~= s);
    assert(s.push(x).last() == x);
}

/// The number of slots a well-formed board of the given wheel type has.
pub open spec fn board_len(rt: RouletteType) -> int {
    if rt is American {
        38
    } else {
        37
    }
}

/// The slot number held at position `i` of a well-formed board: `0` first,
/// then (on American wheels) `-1` for `00`, then `1..=36` in order.
pub open spec fn slot_number_at(rt: RouletteType, i: int) -> int {
    if i == 0 {
        0
    } else if rt is American {
        if i == 1 {
            -1
        } else {
            i - 1
        }
    } else {
        i
    }
}

/// Well-formedness of a board for a wheel type: the full pocket roster in
/// its generated order, every categorical field derived from its number,
/// green exactly on the zero family, and the colors of `1..=36` balanced
/// eighteen red against eighteen black.
pub open spec fn board_wf(b: Board, rt: RouletteType) -> bool {
    &&& b.slots@.len() == board_len(rt)
    &&& (forall|i: int|
        0 <= i < b.slots@.len() ==> (#[trigger] b.slots@[i]).number as int == slot_number_at(
            rt,
            i,
        ))
    &&& (forall|i: int| 0 <= i < b.slots@.len() ==> slot_derived_ok(#[trigger] b.slots@[i]))
    &&& (forall|i: int|
        0 <= i < b.slots@.len() ==> (((#[trigger] b.slots@[i]).number <= 0) == (b.slots@[i].color
            is Green)))
    &&& count_color(b.slots@, Color::Red) == 18
    &&& count_color(b.slots@, Color::Black) == 18
    &&& count_color(b.slots@, Color::Green) == board_len(rt) - 36
}

/// Builds the slot for a number, deriving every categorical field.
fn make_slot(n: SlotNumber, color: Color) -> (s: Slot)
    requires
        -1 <= n <= 36,
    ensures
        s.number == n,
        s.color == color,
        slot_derived_ok(s),
{
    let even_odd = match EvenOdd::from_slot_number(n) {
        Ok(e) => e,
        Err(_) => {
            proof {
                assert(false);
            }
            EvenOdd::Zero
        },
    };
    let dozen = match Dozen::from_slot_number(n) {
        Ok(d) => d,
        Err(_) => {
            proof {
                assert(false);
            }
            Dozen::Zero
        },
    };
    let half = match Half::from_slot_number(n) {
        Ok(h) => h,
        Err(_) => {
            proof {
                assert(false);
            }
            Half::Zero
        },
    };
    let row = match Row::from_slot_number(n) {
        Ok(w) => w,
        Err(_) => {
            proof {
                assert(false);
            }
            Row::Zero
        },
    };
    let column = match Column::from_slot_number(n) {
        Ok(c) => c,
        Err(_) => {
            proof {
                assert(false);
            }
            Column::Zero
        },
    };
    Slot { color, number: n, even_odd, dozen, half, row, column }
}

/// Chooses the color of the next numbered slot from the remaining
/// capacities: once one color is exhausted the other is forced, and only
/// when both are exhausted does color selection fail.
pub fn get_color(red_remaining: i32, black_remaining: i32, coin: bool) -> (r: Result<Color, Error>)
    ensures
        match r {
            Ok(c) => {
                &&& (red_remaining > 0 || black_remaining > 0)
                &&& (c == Color::Red || c == Color::Black)
                &&& (c == Color::Red ==> red_remaining > 0)
                &&& (c == Color::Black ==> black_remaining > 0)
                &&& (red_remaining > 0 && black_remaining > 0 ==> c == if coin {
                    Color::Red
                } else {
                    Color::Black
                })
            },
            Err(_) => red_remaining <= 0 && black_remaining <= 0,
        },
{
    if red_remaining <= 0 && black_remaining <= 0 {
        return Err(
            Error::GenericError {
                message: String::from_str("There are no more Red or Black slots to produce"),
            },
        );
    } else if black_remaining <= 0 {
        return Ok(Color::Red);
    } else if red_remaining <= 0 {
        return Ok(Color::Black);
    }
    if coin {
        Ok(Color::Red)
    } else {
        Ok(Color::Black)
    }
}

impl Board {
    /// Generates a full board for the wheel type: the zero-family slots in
    /// green, then `1..=36` with randomly balanced colors. Generation
    /// always succeeds and the result is well-formed.
    pub fn generate(roulette_type: &RouletteType) -> (r: Result<Board, Error>)
        ensures
            r is Ok,
            r matches Ok(b) ==> board_wf(b, *roulette_type),
    {
        let mut slots: Vec<Slot> = Vec::new();
        let ghost zeros: int = board_len(*roulette_type) - 36;
        slots.push(make_slot(0, Color::Green));
        if matches!(roulette_type, RouletteType::American) {
            slots.push(make_slot(-1, Color::Green));
        }
        proof {
            let one = seq![slots@[0]];
            assert(Seq::<Slot>::empty().push(slots@[0]) =~= one);
            lemma_count_color_push(Seq::empty(), slots@[0], Color::Red);
            lemma_count_color_push(Seq::empty(), slots@[0], Color::Black);
            lemma_count_color_push(Seq::empty(), slots@[0], Color::Green);
            if slots@.len() == 2 {
                assert(one.push(slots@[1]) =~= slots@);
                lemma_count_color_push(one, slots@[1], Color::Red);
                lemma_count_color_push(one, slots@[1], Color::Black);
                lemma_count_color_push(one, slots@[1], Color::Green);
            } else {
                assert(slots@ =~= one);
            }
        }
        let mut red_remaining: i32 = 18;
        let mut black_remaining: i32 = 18;
        let mut n: i8 = 1;
        while n <= 36
            invariant
                1 <= n <= 37,
                zeros == board_len(*roulette_type) - 36,
                slots@.len() == zeros + (n - 1),
                red_remaining == 18 - count_color(slots@, Color::Red),
                black_remaining == 18 - count_color(slots@, Color::Black),
                red_remaining >= 0,
                black_remaining >= 0,
                count_color(slots@, Color::Red) + count_color(slots@, Color::Black) == n - 1,
                count_color(slots@, Color::Green) == zeros,
                forall|i: int|
                    0 <= i < slots@.len() ==> (#[trigger] slots@[i]).number as int
                        == slot_number_at(*roulette_type, i),
                forall|i: int| 0 <= i < slots@.len() ==> slot_derived_ok(#[trigger] slots@[i]),
                forall|i: int|
                    0 <= i < slots@.len() ==> (((#[trigger] slots@[i]).number <= 0) == (
                    slots@[i].color is Green)),
            decreases 37 - n,
        {
            let coin = coin_flip();
            let color = match get_color(red_remaining, black_remaining, coin) {
                Ok(c) => c,
                Err(_) => {
                    proof {
                        assert(false);
                    }
                    Color::Red
                },
            };
            if matches!(color, Color::Red) {
                red_remaining = red_remaining - 1;
            } else {
                black_remaining = black_remaining - 1;
            }
            let slot = make_slot(n, color);
            proof {
                lemma_count_color_push(slots@, slot, Color::Red);
                lemma_count_color_push(slots@, slot, Color::Black);
                lemma_count_color_push(slots@, slot, Color::Green);
            }
            slots.push(slot);
            n = n + 1;
        }
        proof {
            assert(red_remaining + black_remaining == 36 - (count_color(slots@, Color::Red)
                + count_color(slots@, Color::Black)));
            assert(slots@.len() == zeros + 36);
        }
        Ok(Board { slots })
    }
}

/// Every well-formed European board has 37 slots, pairwise distinct
/// numbers all in `0..=36`, and 18 red, 18 black and 1 green pocket.
pub proof fn lemma_european_board_properties(b: Board)
    requires
        board_wf(b, RouletteType::European),
    ensures
        b.slots@.len() == 37,
        forall|i: int, j: int|
            0 <= i < j < b.slots@.len() ==> (#[trigger] b.slots@[i]).number != (
            #[trigger] b.slots@[j]).number,
        forall|i: int| 0 <= i < b.slots@.len() ==> 0 <= (#[trigger] b.slots@[i]).number <= 36,
        count_color(b.slots@, Color::Red) == 18,
        count_color(b.slots@, Color::Black) == 18,
        count_color(b.slots@, Color::Green) == 1,
{
}

/// Every well-formed American board has 38 slots, pairwise distinct
/// numbers all in `-1..=36`, and 18 red, 18 black and 2 green pockets.
pub proof fn lemma_american_board_properties(b: Board)
    requires
        board_wf(b, RouletteType::American),
    ensures
        b.slots@.len() == 38,
        forall|i: int, j: int|
            0 <= i < j < b.slots@.len() ==> (#[trigger] b.slots@[i]).number != (
            #[trigger] b.slots@[j]).number,
        forall|i: int| 0 <= i < b.slots@.len() ==> -1 <= (#[trigger] b.slots@[i]).number <= 36,
        count_color(b.slots@, Color::Red) == 18,
        count_color(b.slots@, Color::Black) == 18,
        count_color(b.slots@, Color::Green) == 2,
{
}

} // verus!
