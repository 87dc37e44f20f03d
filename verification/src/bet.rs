use vstd::prelude::*;

use itertools::Itertools;

use crate::bet_value::BetValue;
use crate::categories::{Color, RouletteType};
use crate::slot::SlotNumber;

verus! {

/// The lifecycle state of a bet within the settlement engine.
#[derive(Debug, PartialEq, Eq, Structural, Hash, Copy, Clone)]
pub enum BetState {
    Won,
    Lost,
    Active,
    Inactive,
}

/// One per-round record of a bet's state and stake.
#[derive(Debug, PartialEq, Eq, Hash, Copy, Clone)]
pub struct BetLog {
    pub round_number: i32,
    pub amount_cents: i64,
    pub bet_state: BetState,
}

/// A strategic bet: its current stake, its baseline stake, the loss
/// multiplier, its target, its engine state, and its per-round log.
#[derive(Debug, Clone)]
pub struct Bet {
    pub amount_cents: i64,
    pub bet_logs: Vec<BetLog>,
    pub bet_state: BetState,
    pub bet_value: BetValue,
    pub initial_amount_cents: i64,
    pub progression_factor: i64,
}

/// Relies on `itertools::Itertools::unique`: the iterator yields each
/// distinct value exactly once, so its count is the number of distinct
/// values in the vector.
#[verifier::external_body]
fn count_unique(v: &Vec<SlotNumber>) -> (r: usize)
    ensures
        r == v@.to_set().len(),
{
    v.iter().unique().count()
}

/// The smallest element of a non-empty number list.
pub open spec fn seq_min(s: Seq<SlotNumber>) -> SlotNumber
    decreases s.len(),
{
    if s.len() <= 1 {
        s[0]
    } else {
        let rest = seq_min(s.drop_first());
        if s[0] < rest {
            s[0]
        } else {
            rest
        }
    }
}

proof fn lemma_seq_min_characterize(s: Seq<SlotNumber>)
    requires
        s.len() > 0,
    ensures
        s.contains(seq_min(s)),
        forall|i: int| 0 <= i < s.len() ==> seq_min(s) <= s[i],
    decreases s.len(),
{
    if s.len() == 1 {
        assert(s.contains(s[0])) by {
            assert(s[0] == s[0]);
        }
    } else {
        lemma_seq_min_characterize(s.drop_first());
        let rest = seq_min(s.drop_first());
        assert(s.drop_first().contains(rest));
        let j = choose|j: int| 0 <= j < s.drop_first().len() && s.drop_first()[j] == rest;
        assert(s[j + 1] == rest);
        if s[0] < rest {
            assert(s.contains(s[0])) by {
                assert(s[0] == s[0]);
            }
        } else {
            assert(s.contains(rest)) by {
                assert(s[j + 1] == rest);
            }
        }
        assert(forall|i: int| 1 <= i < s.len() ==> s.drop_first()[i - 1] == s[i]);
    }
}

/// The split (two-number) adjacency rule, applied once the shared
/// distinctness and range checks have passed.
pub open spec fn adjacent_pair_valid(s: Seq<SlotNumber>, rt: RouletteType) -> bool {
    let a = s[0] as int;
    let b = s[1] as int;
    let smaller = if a < b {
        a
    } else {
        b
    };
    let larger = if a < b {
        b
    } else {
        a
    };
    if smaller == 0 || smaller == -1 {
        if rt is American {
            s == seq![-1i8, 3i8] || s == seq![0i8, 1i8]
        } else {
            larger == 1 || larger == 2 || larger == 3
        }
    } else if larger - smaller == 3 {
        true
    } else if larger - smaller == 1 {
        let d = larger % 3 - smaller % 3;
        d == 1 || d == -1
    } else {
        false
    }
}

/// The street/basket (three-number) adjacency rule: only the fixed triples
/// touching the zero family are legal.
pub open spec fn adjacent_triple_valid(s: Seq<SlotNumber>, rt: RouletteType) -> bool {
    if rt is American {
        s == seq![-1i8, 2i8, 3i8] || s == seq![0i8, 1i8, 2i8]
    } else {
        s == seq![0i8, 2i8, 3i8] || s == seq![0i8, 1i8, 2i8]
    }
}

/// The corner (four-number) adjacency rule: the numbers must be exactly
/// `m, m+1, m+3, m+4` for a minimum `m` not at the start of a row triplet.
pub open spec fn adjacent_corner_valid(s: Seq<SlotNumber>) -> bool {
    let m = seq_min(s) as int;
    &&& m % 3 != 0
    &&& s[0] as int == m
    &&& s[1] as int == m + 1
    &&& s[2] as int == m + 3
    &&& s[3] as int == m + 4
}

/// The full adjacency-bet rule: distinct numbers, two to four of them, all
/// in range (`-1` only on American wheels), forming a legal split, street
/// or corner shape.
pub open spec fn adjacent_numbers_valid(s: Seq<SlotNumber>, rt: RouletteType) -> bool {
    &&& s.no_duplicates()
    &&& 2 <= s.len() <= 4
    &&& (forall|i: int| 0 <= i < s.len() ==> -1 <= #[trigger] s[i] <= 36)
    &&& (forall|i: int| 0 <= i < s.len() && #[trigger] s[i] == -1 ==> rt is American)
    &&& if s.len() == 2 {
        adjacent_pair_valid(s, rt)
    } else if s.len() == 3 {
        adjacent_triple_valid(s, rt)
    } else {
        adjacent_corner_valid(s)
    }
}

/// The per-variant validity rule for a bet value on a given wheel.
pub open spec fn bet_value_valid(v: BetValue, rt: RouletteType) -> bool {
    match v {
        BetValue::AdjacentNumbers(a) => adjacent_numbers_valid(a.numbers@, rt),
        BetValue::Color(c) => c == Color::Red || c == Color::Black,
        BetValue::Column(_) => true,
        BetValue::Dozen(_) => true,
        BetValue::EvenOdd(_) => true,
        BetValue::Half(_) => true,
        BetValue::Number(n) => if n == -1 && rt is American {
            true
        } else {
            0 <= n <= 36
        },
        BetValue::Row(_) => true,
        BetValue::DoubleColumn(d) => {
            let diff = d.columns@[0].spec_value() - d.columns@[1].spec_value();
            diff == 1 || diff == -1
        },
    }
}

/// The state a bet holds after validation: a stake-exhausted settled bet or
/// an illegal bet value turns `Inactive`; every other bet keeps its state.
pub open spec fn validated_state(b: Bet, rt: RouletteType) -> BetState {
    if b.bet_state != BetState::Active && b.amount_cents <= 0 && b.initial_amount_cents <= 0
        && b.progression_factor <= 0 {
        BetState::Inactive
    } else if !bet_value_valid(b.bet_value, rt) {
        BetState::Inactive
    } else {
        b.bet_state
    }
}

impl Bet {
    /// Validates this bet against the wheel (European when none is given):
    /// the state becomes `validated_state`, everything else is untouched.
    /// Validation never re-activates a bet.
    pub fn validate(&mut self, roulette_type: Option<&RouletteType>)
        ensures
            final(self).amount_cents == old(self).amount_cents,
            final(self).bet_logs == old(self).bet_logs,
            final(self).bet_value == old(self).bet_value,
            final(self).initial_amount_cents == old(self).initial_amount_cents,
            final(self).progression_factor == old(self).progression_factor,
            final(self).bet_state == validated_state(
                *old(self),
                match roulette_type {
                    Some(rt) => *rt,
                    None => RouletteType::European,
                },
            ),
    {
        let european = RouletteType::European;
        let rt: &RouletteType = match roulette_type {
            Some(rt) => rt,
            None => &european,
        };
        if self.bet_state != BetState::Active && self.amount_cents <= 0
            && self.initial_amount_cents <= 0 && self.progression_factor <= 0 {
            self.bet_state = BetState::Inactive;
            return ;
        }
        let bet_type_valid: bool = match &self.bet_value {
            BetValue::AdjacentNumbers(adjacent_numbers) => {
                self.validate_adjacent_numbers(&adjacent_numbers.numbers, rt)
            },
            BetValue::Color(color) => *color == Color::Red || *color == Color::Black,
            BetValue::Column(_) => true,
            BetValue::Dozen(_) => true,
            BetValue::EvenOdd(_) => true,
            BetValue::Half(_) => true,
            BetValue::Number(number) => {
                let n = *number;
                if n == -1 && matches!(rt, RouletteType::American) {
                    true
                } else {
                    n >= 0 && n <= 36
                }
            },
            BetValue::Row(_) => true,
            BetValue::DoubleColumn(double_column) => {
                let diff = double_column.columns[0].value() - double_column.columns[1].value();
                diff == 1 || diff == -1
            },
        };
        if !bet_type_valid {
            self.bet_state = BetState::Inactive;
        }
    }

    /// Decides the adjacency rule for a number list on the given wheel.
    pub fn validate_adjacent_numbers(
        &self,
        numbers: &Vec<SlotNumber>,
        roulette_type: &RouletteType,
    ) -> (r: bool)
        ensures
            r == adjacent_numbers_valid(numbers@, *roulette_type),
    {
        let num_count = numbers.len();
        let unique_numbers = count_unique(numbers);
        if unique_numbers != num_count {
            proof {
                if numbers@.no_duplicates() {
                    numbers@.unique_seq_to_set();
                }
            }
            return false;
        }
        proof {
            numbers@.lemma_no_dup_set_cardinality();
        }
        if num_count > 4 || num_count < 2 {
            return false;
        }
        let mut i: usize = 0;
        while i < num_count
            invariant
                num_count == numbers@.len(),
                i <= num_count,
                forall|j: int| 0 <= j < i ==> -1 <= #[trigger] numbers@[j] <= 36,
                forall|j: int|
                    0 <= j < i && #[trigger] numbers@[j] == -1 ==> *roulette_type is American,
            decreases num_count - i,
        {
            let n = numbers[i];
            if n == -1 && !matches!(roulette_type, RouletteType::American) {
                return false;
            }
            if n < -1 || n > 36 {
                return false;
            }
            i = i + 1;
        }
        if num_count == 2 {
            let a = numbers[0];
            let b = numbers[1];
            let smaller: SlotNumber = if a < b {
                a
            } else {
                b
            };
            let larger: SlotNumber = if a < b {
                b
            } else {
                a
            };
            if smaller == 0 || smaller == -1 {
                if matches!(roulette_type, RouletteType::American) {
                    let r = (a == -1 && b == 3) || (a == 0 && b == 1);
                    proof {
                        if a == -1 && b == 3 {
                            assert(numbers@ =~= seq![-1i8, 3i8]);
                        }
                        if a == 0 && b == 1 {
                            assert(numbers@ =~= seq![0i8, 1i8]);
                        }
                        if !r {
                            assert(numbers@ != seq![-1i8, 3i8]) by {
                                if numbers@ == seq![-1i8, 3i8] {
                                    assert(numbers@[0] == -1i8 && numbers@[1] == 3i8);
                                }
                            }
                            assert(numbers@ != seq![0i8, 1i8]) by {
                                if numbers@ == seq![0i8, 1i8] {
                                    assert(numbers@[0] == 0i8 && numbers@[1] == 1i8);
                                }
                            }
                        }
                    }
                    return r;
                } else {
                    return larger == 1 || larger == 2 || larger == 3;
                }
            }
            if larger - smaller == 3 {
                return true;
            } else if larger - smaller == 1 {
                let d = larger % 3 - smaller % 3;
                return d == 1 || d == -1;
            }
            return false;
        } else if num_count == 3 {
            let is_012 = numbers[0] == 0 && numbers[1] == 1 && numbers[2] == 2;
            let r: bool;
            if matches!(roulette_type, RouletteType::American) {
                r = (numbers[0] == -1 && numbers[1] == 2 && numbers[2] == 3) || is_012;
                proof {
                    lemma_triple_eq(numbers@, -1i8, 2i8, 3i8);
                    lemma_triple_eq(numbers@, 0i8, 1i8, 2i8);
                }
            } else {
                r = (numbers[0] == 0 && numbers[1] == 2 && numbers[2] == 3) || is_012;
                proof {
                    lemma_triple_eq(numbers@, 0i8, 2i8, 3i8);
                    lemma_triple_eq(numbers@, 0i8, 1i8, 2i8);
                }
            }
            return r;
        } else {
            let mut min_num = numbers[0];
            let mut k: usize = 1;
            while k < num_count
                invariant
                    num_count == numbers@.len(),
                    1 <= k <= num_count,
                    exists|j: int| 0 <= j < k && numbers@[j] == min_num,
                    forall|j: int| 0 <= j < k ==> min_num <= numbers@[j],
                decreases num_count - k,
            {
                if numbers[k] < min_num {
                    min_num = numbers[k];
                }
                k = k + 1;
            }
            proof {
                lemma_seq_min_characterize(numbers@);
                let j = choose|j: int| 0 <= j < numbers@.len() && numbers@[j] == min_num;
                assert(numbers@.contains(numbers@[j]));
                assert(seq_min(numbers@) == min_num);
            }
            if min_num >= 0 && min_num % 3 == 0 {
                return false;
            }
            let r = numbers[0] == min_num && numbers[1] == min_num + 1 && numbers[2] == min_num
                + 3 && numbers[3] == min_num + 4;
            return r;
        }
    }
}

proof fn lemma_triple_eq(s: Seq<SlotNumber>, x: SlotNumber, y: SlotNumber, z: SlotNumber)
    requires
        s.len() == 3,
    ensures
        (s == seq![x, y, z]) == (s[0] == x && s[1] == y && s[2] == z),
{
    if s[0] == x && s[1] == y && s[2] == z {
        assert(s =~= seq![x, y, z]);
    }
    if s == seq![x, y, z] {
        assert(s[0] == x && s[1] == y && s[2] == z);
    }
}

} // verus!
