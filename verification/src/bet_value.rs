use vstd::prelude::*;
use vstd::string::*;

use crate::categories::{
    color_name, even_odd_name, Color, Column, Dozen, EvenOdd, Half, Row,
};
use crate::slot::SlotNumber;
use crate::strutil::{append_i8, decimal_int, i8_to_string};

verus! {

/// A 2- to 4-number adjacency bet (split, street/basket or corner).
#[derive(Debug, Clone)]
pub struct AdjacentNumbers {
    pub numbers: Vec<SlotNumber>,
}

impl PartialEq for AdjacentNumbers {
    fn eq(&self, other: &AdjacentNumbers) -> (r: bool) {
        let r = self.numbers == other.numbers;
        proof {
            if r {
                assert(self.numbers@ =~= other.numbers@);
            } else {
                if self.numbers@ == other.numbers@ {
                    assert(forall|i: int|
                        0 <= i < self.numbers@.len() ==> self.numbers@[i] == other.numbers@[i]);
                    assert(false);
                }
            }
        }
        r
    }
}

impl vstd::std_specs::cmp::PartialEqSpecImpl for AdjacentNumbers {
    open spec fn obeys_eq_spec() -> bool {
        true
    }

    open spec fn eq_spec(&self, other: &AdjacentNumbers) -> bool {
        self.numbers@ == other.numbers@
    }
}

/// A bet on two adjacent table columns.
#[derive(Debug, Copy, Clone)]
pub struct DoubleColumn {
    pub columns: [Column; 2],
}

impl PartialEq for DoubleColumn {
    fn eq(&self, other: &DoubleColumn) -> (r: bool) {
        let r = self.columns[0] == other.columns[0] && self.columns[1] == other.columns[1];
        proof {
            if r {
                assert(self.columns@ =~= other.columns@);
            }
        }
        r
    }
}

impl vstd::std_specs::cmp::PartialEqSpecImpl for DoubleColumn {
    open spec fn obeys_eq_spec() -> bool {
        true
    }

    open spec fn eq_spec(&self, other: &DoubleColumn) -> bool {
        self.columns@ == other.columns@
    }
}

/// The shape and target of a bet: which outcomes it backs.
#[derive(Debug, Clone)]
pub enum BetValue {
    AdjacentNumbers(AdjacentNumbers),
    Color(Color),
    Column(Column),
    DoubleColumn(DoubleColumn),
    Dozen(Dozen),
    EvenOdd(EvenOdd),
    Half(Half),
    Number(SlotNumber),
    Row(Row),
}

/// Structural equality of two bet values; this is what `==` on `BetValue`
/// means in contracts.
pub open spec fn bet_value_matches(a: BetValue, b: BetValue) -> bool {
    match (a, b) {
        (BetValue::AdjacentNumbers(x), BetValue::AdjacentNumbers(y)) => x.numbers@ == y.numbers@,
        (BetValue::Color(x), BetValue::Color(y)) => x == y,
        (BetValue::Column(x), BetValue::Column(y)) => x == y,
        (BetValue::DoubleColumn(x), BetValue::DoubleColumn(y)) => x.columns@ == y.columns@,
        (BetValue::Dozen(x), BetValue::Dozen(y)) => x == y,
        (BetValue::EvenOdd(x), BetValue::EvenOdd(y)) => x == y,
        (BetValue::Half(x), BetValue::Half(y)) => x == y,
        (BetValue::Number(x), BetValue::Number(y)) => x == y,
        (BetValue::Row(x), BetValue::Row(y)) => x == y,
        _ => false,
    }
}

/// `bet_value_matches` is a congruence: two matching values match exactly
/// the same partners.
pub proof fn lemma_bet_value_matches_congruence(a: BetValue, b: BetValue, c: BetValue)
    requires
        bet_value_matches(a, b),
    ensures
        bet_value_matches(a, c) == bet_value_matches(b, c),
{
}

/// `bet_value_matches` is symmetric.
pub proof fn lemma_bet_value_matches_symmetric(a: BetValue, b: BetValue)
    ensures
        bet_value_matches(a, b) == bet_value_matches(b, a),
{
}

impl PartialEq for BetValue {
    fn eq(&self, other: &BetValue) -> (r: bool) {
        match (self, other) {
            (BetValue::AdjacentNumbers(x), BetValue::AdjacentNumbers(y)) => x == y,
            (BetValue::Color(x), BetValue::Color(y)) => x == y,
            (BetValue::Column(x), BetValue::Column(y)) => x == y,
            (BetValue::DoubleColumn(x), BetValue::DoubleColumn(y)) => x == y,
            (BetValue::Dozen(x), BetValue::Dozen(y)) => x == y,
            (BetValue::EvenOdd(x), BetValue::EvenOdd(y)) => x == y,
            (BetValue::Half(x), BetValue::Half(y)) => x == y,
            (BetValue::Number(x), BetValue::Number(y)) => x == y,
            (BetValue::Row(x), BetValue::Row(y)) => x == y,
            _ => false,
        }
    }
}

impl vstd::std_specs::cmp::PartialEqSpecImpl for BetValue {
    open spec fn obeys_eq_spec() -> bool {
        true
    }

    open spec fn eq_spec(&self, other: &BetValue) -> bool {
        bet_value_matches(*self, *other)
    }
}

/// The stable type tag of a bet value, used to group bets for reporting.
pub open spec fn bet_type_name(v: BetValue) -> Seq<char> {
    match v {
        BetValue::AdjacentNumbers(_) => "Adjacent Numbers"@,
        BetValue::Color(_) => "Color"@,
        BetValue::Column(_) => "Column"@,
        BetValue::DoubleColumn(_) => "DoubleColumn"@,
        BetValue::Dozen(_) => "Dozen"@,
        BetValue::EvenOdd(_) => "EvenOdd"@,
        BetValue::Half(_) => "Half"@,
        BetValue::Number(_) => "Number"@,
        BetValue::Row(_) => "Row"@,
    }
}

/// The space-separated decimal renderings of a number list, without
/// brackets.
pub open spec fn adj_numbers_string(nums: Seq<SlotNumber>) -> Seq<char>
    decreases nums.len(),
{
    if nums.len() == 0 {
        Seq::empty()
    } else if nums.len() == 1 {
        decimal_int(nums[0] as int)
    } else {
        decimal_int(nums[0] as int) + seq![' '] + adj_numbers_string(nums.drop_first())
    }
}

proof fn lemma_adj_numbers_string_push(nums: Seq<SlotNumber>, x: SlotNumber)
    ensures
        adj_numbers_string(nums.push(x)) == if nums.len() == 0 {
            decimal_int(x as int)
        } else {
            adj_numbers_string(nums) + seq![' '] + decimal_int(x as int)
        },
    decreases nums.len(),
{
    let p = nums.push(x);
    if nums.len() == 0 {
        assert(p.len() == 1);
        assert(p[0] == x);
    } else {
        assert(p.len() >= 2);
        assert(p[0] == nums[0]);
        assert(p.drop_first() =~= nums.drop_first().push(x));
        lemma_adj_numbers_string_push(nums.drop_first(), x);
        if nums.len() == 1 {
            assert(adj_numbers_string(nums) == decimal_int(nums[0] as int));
        }
    }
}

/// The stable value string of a bet value, used together with the type tag
/// to identify "the same bet" across agents and games.
pub open spec fn bet_value_string(v: BetValue) -> Seq<char> {
    match v {
        BetValue::AdjacentNumbers(a) => seq!['['] + adj_numbers_string(a.numbers@) + seq![']'],
        BetValue::Color(c) => color_name(c),
        BetValue::Column(c) => decimal_int(c.spec_value()),
        BetValue::DoubleColumn(d) => seq!['['] + decimal_int(d.columns@[0].spec_value()) + seq![' ']
            + decimal_int(d.columns@[1].spec_value()) + seq![']'],
        BetValue::Dozen(d) => decimal_int(d.spec_value()),
        BetValue::EvenOdd(e) => even_odd_name(e),
        BetValue::Half(h) => decimal_int(h.spec_value()),
        BetValue::Number(n) => decimal_int(n as int),
        BetValue::Row(r) => decimal_int(r.spec_value()),
    }
}

/// Whether two bet values are of the same variant.
pub open spec fn same_variant(a: BetValue, b: BetValue) -> bool {
    match (a, b) {
        (BetValue::AdjacentNumbers(_), BetValue::AdjacentNumbers(_)) => true,
        (BetValue::Color(_), BetValue::Color(_)) => true,
        (BetValue::Column(_), BetValue::Column(_)) => true,
        (BetValue::DoubleColumn(_), BetValue::DoubleColumn(_)) => true,
        (BetValue::Dozen(_), BetValue::Dozen(_)) => true,
        (BetValue::EvenOdd(_), BetValue::EvenOdd(_)) => true,
        (BetValue::Half(_), BetValue::Half(_)) => true,
        (BetValue::Number(_), BetValue::Number(_)) => true,
        (BetValue::Row(_), BetValue::Row(_)) => true,
        _ => false,
    }
}

/// The type tag is collision-free: bet values of different variants never
/// share a type tag, so the tag always identifies the variant when bets
/// are grouped for reporting.
pub proof fn lemma_bet_type_name_collision_free(a: BetValue, b: BetValue)
    requires
        bet_type_name(a) == bet_type_name(b),
    ensures
        same_variant(a, b),
{
    reveal_strlit("Adjacent Numbers");
    reveal_strlit("Color");
    reveal_strlit("Column");
    reveal_strlit("DoubleColumn");
    reveal_strlit("Dozen");
    reveal_strlit("EvenOdd");
    reveal_strlit("Half");
    reveal_strlit("Number");
    reveal_strlit("Row");
    assert("Adjacent Numbers"@.len() == 16);
    assert("Color"@.len() == 5);
    assert("Column"@.len() == 6);
    assert("DoubleColumn"@.len() == 12);
    assert("Dozen"@.len() == 5);
    assert("EvenOdd"@.len() == 7);
    assert("Half"@.len() == 4);
    assert("Number"@.len() == 6);
    assert("Row"@.len() == 3);
    assert("Color"@ != "Dozen"@) by {
        assert("Color"@[0] == 'C' && "Dozen"@[0] == 'D');
    }
    assert("Column"@ != "Number"@) by {
        assert("Column"@[0] == 'C' && "Number"@[0] == 'N');
    }
}

impl BetValue {
    /// Holds when the value string of this bet value is defined: an
    /// adjacency bet must name at least one number.
    pub open spec fn displayable(self) -> bool {
        match self {
            BetValue::AdjacentNumbers(a) => a.numbers@.len() > 0,
            _ => true,
        }
    }

    /// The stable type tag of this bet value.
    pub fn get_type(&self) -> (r: String)
        ensures
            r@ == bet_type_name(*self),
    {
        match self {
            BetValue::AdjacentNumbers(_) => String::from_str("Adjacent Numbers"),
            BetValue::Color(_) => String::from_str("Color"),
            BetValue::Column(_) => String::from_str("Column"),
            BetValue::DoubleColumn(_) => String::from_str("DoubleColumn"),
            BetValue::Dozen(_) => String::from_str("Dozen"),
            BetValue::EvenOdd(_) => String::from_str("EvenOdd"),
            BetValue::Half(_) => String::from_str("Half"),
            BetValue::Number(_) => String::from_str("Number"),
            BetValue::Row(_) => String::from_str("Row"),
        }
    }

    /// The stable value string of this bet value.
    pub fn get_value_string(&self) -> (r: String)
        requires
            self.displayable(),
        ensures
            r@ == bet_value_string(*self),
    {
        match self {
            BetValue::AdjacentNumbers(adjacent_numbers) => {
                let nums = &adjacent_numbers.numbers;
                let ghost nums0 = nums@;
                let mut s = String::new();
                proof {
                    reveal_strlit("[");
                }
                s.append("[");
                let mut i: usize = 0;
                while i < nums.len()
                    invariant
                        0 < nums0.len(),
                        i <= nums0.len(),
                        nums@ == nums0,
                        s@ == seq!['['] + adj_numbers_string(nums0.take(i as int)),
                    decreases nums0.len() - i,
                {
                    if i > 0 {
                        proof {
                            reveal_strlit(" ");
                        }
                        s.append(" ");
                        append_i8(&mut s, nums[i]);
                        proof {
                            lemma_adj_numbers_string_push(nums0.take(i as int), nums0[i as int]);
                            assert(nums0.take(i as int).push(nums0[i as int]) =~= nums0.take(
                                i as int + 1,
                            ));
                            assert(s@ =~= seq!['['] + adj_numbers_string(
                                nums0.take(i as int + 1),
                            ));
                        }
                    } else {
                        append_i8(&mut s, nums[i]);
                        proof {
                            lemma_adj_numbers_string_push(nums0.take(0), nums0[0]);
                            assert(nums0.take(0).push(nums0[0]) =~= nums0.take(1));
                            assert(s@ =~= seq!['['] + adj_numbers_string(nums0.take(1)));
                        }
                    }
                    i = i + 1;
                }
                proof {
                    reveal_strlit("]");
                    assert(nums0.take(nums0.len() as int) =~= nums0);
                }
                s.append("]");
                proof {
                    assert(s@ =~= bet_value_string(*self));
                }
                s
            },
            BetValue::Color(color) => color.to_display(),
            BetValue::Column(column) => column.to_display(),
            BetValue::DoubleColumn(double_column) => {
                let mut s = String::new();
                proof {
                    reveal_strlit("[");
                    reveal_strlit(" ");
                    reveal_strlit("]");
                }
                s.append("[");
                let v0 = double_column.columns[0].value();
                append_i8(&mut s, v0 as i8);
                s.append(" ");
                let v1 = double_column.columns[1].value();
                append_i8(&mut s, v1 as i8);
                s.append("]");
                proof {
                    assert(s@ =~= bet_value_string(*self));
                }
                s
            },
            BetValue::Dozen(dozen) => dozen.to_display(),
            BetValue::EvenOdd(even_odd) => even_odd.to_display(),
            BetValue::Half(half) => half.to_display(),
            BetValue::Number(number) => i8_to_string(*number),
            BetValue::Row(row) => row.to_display(),
        }
    }
}

} // verus!
