use vstd::prelude::*;

use crate::bet::{Bet, BetState};
use crate::bet_value::bet_value_matches;

verus! {

/// One per-round record of an agent's balance.
#[derive(Debug, PartialEq, Eq, Hash, Copy, Clone)]
pub struct AgentLog {
    pub round_number: i32,
    pub balance_cents: i64,
}

/// A player: a balance, a roster of owned strategic bets, and a per-round
/// balance log.
#[derive(Debug, Clone)]
pub struct Agent {
    pub balance_cents: i64,
    pub strategic_bets: Vec<Bet>,
    pub name: String,
    pub agent_logs: Vec<AgentLog>,
}

/// Whether a mathematical integer is representable as an `i64`.
pub open spec fn fits_i64(x: int) -> bool {
    i64::MIN <= x <= i64::MAX
}

/// The product of two `i64`-range integers stays within the `i128` range.
pub proof fn lemma_mul_i64_bounds(x: int, y: int)
    requires
        fits_i64(x),
        fits_i64(y),
    ensures
        -0x4000_0000_0000_0000_0000_0000_0000_0000 <= x * y
            <= 0x4000_0000_0000_0000_0000_0000_0000_0000,
{
    assert(-0x4000_0000_0000_0000_0000_0000_0000_0000 <= x * y
        <= 0x4000_0000_0000_0000_0000_0000_0000_0000) by (nonlinear_arith)
        requires
            -0x8000_0000_0000_0000 <= x <= 0x7FFF_FFFF_FFFF_FFFF,
            -0x8000_0000_0000_0000 <= y <= 0x7FFF_FFFF_FFFF_FFFF,
    ;
}

/// A bet constructed from `b` with only its state replaced.
pub open spec fn with_state(b: Bet, st: BetState) -> Bet {
    Bet {
        amount_cents: b.amount_cents,
        bet_logs: b.bet_logs,
        bet_state: st,
        bet_value: b.bet_value,
        initial_amount_cents: b.initial_amount_cents,
        progression_factor: b.progression_factor,
    }
}

/// Two bets share a consolidation signature when they back the same value
/// with the same progression factor.
pub open spec fn sig_match(a: Bet, b: Bet) -> bool {
    bet_value_matches(a.bet_value, b.bet_value) && a.progression_factor == b.progression_factor
}

/// The first index of `acc` whose bet shares `b`'s signature.
pub open spec fn find_sig(acc: Seq<Bet>, b: Bet) -> Option<int>
    decreases acc.len(),
{
    if acc.len() == 0 {
        None
    } else if sig_match(acc[0], b) {
        Some(0)
    } else {
        match find_sig(acc.drop_first(), b) {
            Some(j) => Some(j + 1),
            None => None,
        }
    }
}

pub proof fn lemma_find_sig_characterize(acc: Seq<Bet>, b: Bet)
    ensures
        match find_sig(acc, b) {
            Some(j) => 0 <= j < acc.len() && sig_match(acc[j], b) && forall|i: int|
                0 <= i < j ==> !sig_match(#[trigger] acc[i], b),
            None => forall|i: int| 0 <= i < acc.len() ==> !sig_match(#[trigger] acc[i], b),
        },
    decreases acc.len(),
{
    if acc.len() > 0 {
        lemma_find_sig_characterize(acc.drop_first(), b);
        assert(forall|i: int| 1 <= i < acc.len() ==> acc.drop_first()[i - 1] == #[trigger] acc[i]);
    }
}

/// The bet holding `target`'s identity with both stakes summed with `b`'s.
pub open spec fn merge_bets(target: Bet, b: Bet) -> Bet {
    Bet {
        amount_cents: (target.amount_cents + b.amount_cents) as i64,
        bet_logs: target.bet_logs,
        bet_state: target.bet_state,
        bet_value: target.bet_value,
        initial_amount_cents: (target.initial_amount_cents + b.initial_amount_cents) as i64,
        progression_factor: target.progression_factor,
    }
}

/// Inserts one bet into a consolidated accumulator: summed into the first
/// entry of the same signature, appended otherwise. `None` when a summed
/// stake leaves the `i64` range.
pub open spec fn insert_bet(acc: Seq<Bet>, b: Bet) -> Option<Seq<Bet>> {
    match find_sig(acc, b) {
        Some(j) => if fits_i64(acc[j].amount_cents + b.amount_cents) && fits_i64(
            acc[j].initial_amount_cents + b.initial_amount_cents,
        ) {
            Some(acc.update(j, merge_bets(acc[j], b)))
        } else {
            None
        },
        None => Some(acc.push(b)),
    }
}

/// The consolidated form of a bet roster: bets sharing a signature merged
/// into one, in first-occurrence order. `None` when a summed stake leaves
/// the `i64` range.
pub open spec fn consolidate_spec(bets: Seq<Bet>) -> Option<Seq<Bet>>
    decreases bets.len(),
{
    if bets.len() == 0 {
        Some(Seq::empty())
    } else {
        match consolidate_spec(bets.drop_last()) {
            Some(acc) => insert_bet(acc, bets.last()),
            None => None,
        }
    }
}

proof fn lemma_consolidate_prefix_some(bets: Seq<Bet>, k: int)
    requires
        consolidate_spec(bets) is Some,
        0 <= k <= bets.len(),
    ensures
        consolidate_spec(bets.take(k)) is Some,
    decreases bets.len(),
{
    if k == bets.len() {
        assert(bets.take(k) =~= bets);
    } else {
        assert(bets.take(k) =~= bets.drop_last().take(k));
        lemma_consolidate_prefix_some(bets.drop_last(), k);
    }
}

proof fn lemma_consolidate_none_extends(bets: Seq<Bet>, k: int)
    requires
        0 <= k <= bets.len(),
        consolidate_spec(bets.take(k)) is None,
    ensures
        consolidate_spec(bets) is None,
    decreases bets.len(),
{
    if k == bets.len() {
        assert(bets.take(k) =~= bets);
    } else {
        assert(bets.take(k) =~= bets.drop_last().take(k));
        lemma_consolidate_none_extends(bets.drop_last(), k);
    }
}

/// Consolidation keeps the signatures of the accumulator pairwise
/// distinct: no two bets of the result share a signature.
pub proof fn lemma_consolidate_distinct(bets: Seq<Bet>)
    requires
        consolidate_spec(bets) is Some,
    ensures
        forall|i: int, j: int|
            0 <= i < j < consolidate_spec(bets).unwrap().len() ==> !sig_match(
                #[trigger] consolidate_spec(bets).unwrap()[i],
                #[trigger] consolidate_spec(bets).unwrap()[j],
            ),
    decreases bets.len(),
{
    if bets.len() > 0 {
        lemma_consolidate_distinct(bets.drop_last());
        let acc = consolidate_spec(bets.drop_last()).unwrap();
        let b = bets.last();
        lemma_find_sig_characterize(acc, b);
        let out = consolidate_spec(bets).unwrap();
        match find_sig(acc, b) {
            Some(j) => {
                assert(out == acc.update(j, merge_bets(acc[j], b)));
                assert(sig_match(acc[j], merge_bets(acc[j], b)) && sig_match(
                    merge_bets(acc[j], b),
                    acc[j],
                ));
                assert(forall|i: int, j2: int|
                    0 <= i < j2 < out.len() ==> !sig_match(#[trigger] out[i], #[trigger] out[j2]))
                    by {
                    assert(forall|i: int| 0 <= i < out.len() && i != j ==> out[i] == acc[i]);
                    assert(forall|i: int, j2: int|
                        0 <= i < j2 < out.len() && i != j && j2 != j ==> !sig_match(
                            #[trigger] out[i],
                            #[trigger] out[j2],
                        ));
                    assert(forall|i: int|
                        0 <= i < out.len() && i != j ==> (!sig_match(#[trigger] out[i], acc[j])
                            && !sig_match(acc[j], out[i])));
                }
            },
            None => {
                assert(out == acc.push(b));
            },
        }
    }
}

/// Bets with pairwise distinct signatures never merge: consolidation
/// returns such a roster unchanged.
pub proof fn lemma_consolidate_distinct_input(bets: Seq<Bet>)
    requires
        forall|i: int, j: int|
            0 <= i < j < bets.len() ==> !sig_match(#[trigger] bets[i], #[trigger] bets[j]),
    ensures
        consolidate_spec(bets) == Some(bets),
    decreases bets.len(),
{
    if bets.len() == 0 {
        assert(consolidate_spec(bets) == Some(Seq::<Bet>::empty()));
        assert(bets =~= Seq::<Bet>::empty());
    } else {
        let front = bets.drop_last();
        assert(forall|i: int, j: int|
            0 <= i < j < front.len() ==> !sig_match(#[trigger] front[i], #[trigger] front[j]));
        lemma_consolidate_distinct_input(front);
        let b = bets.last();
        lemma_find_sig_characterize(front, b);
        if find_sig(front, b) is Some {
            let j = find_sig(front, b).unwrap();
            assert(sig_match(bets[j], bets[bets.len() - 1]));
            assert(false);
        }
        assert(consolidate_spec(bets) == Some(front.push(b)));
        assert(front.push(b) =~= bets);
    }
}

/// Two bets that agree in everything consolidation reads: the backed
/// value, the progression factor and both stakes.
pub open spec fn sig_like(a: Bet, b: Bet) -> bool {
    &&& bet_value_matches(a.bet_value, b.bet_value)
    &&& a.progression_factor == b.progression_factor
    &&& a.amount_cents == b.amount_cents
    &&& a.initial_amount_cents == b.initial_amount_cents
}

proof fn lemma_find_sig_congruence(acc1: Seq<Bet>, acc2: Seq<Bet>, x1: Bet, x2: Bet)
    requires
        acc1.len() == acc2.len(),
        forall|i: int| 0 <= i < acc1.len() ==> sig_like(#[trigger] acc1[i], acc2[i]),
        sig_like(x1, x2),
    ensures
        find_sig(acc1, x1) == find_sig(acc2, x2),
    decreases acc1.len(),
{
    if acc1.len() > 0 {
        crate::bet_value::lemma_bet_value_matches_congruence(
            acc1[0].bet_value,
            acc2[0].bet_value,
            x1.bet_value,
        );
        crate::bet_value::lemma_bet_value_matches_symmetric(acc2[0].bet_value, x1.bet_value);
        crate::bet_value::lemma_bet_value_matches_symmetric(acc2[0].bet_value, x2.bet_value);
        crate::bet_value::lemma_bet_value_matches_congruence(
            x1.bet_value,
            x2.bet_value,
            acc2[0].bet_value,
        );
        assert(sig_match(acc1[0], x1) == sig_match(acc2[0], x2));
        assert(forall|i: int|
            0 <= i < acc1.drop_first().len() ==> sig_like(
                #[trigger] acc1.drop_first()[i],
                acc2.drop_first()[i],
            ));
        lemma_find_sig_congruence(acc1.drop_first(), acc2.drop_first(), x1, x2);
    }
}

/// Consolidation reads only a bet's signature and stakes: rosters whose
/// bets pairwise agree there consolidate alike — the same feasibility,
/// and pairwise-agreeing results.
pub proof fn lemma_consolidate_spec_congruence(b1: Seq<Bet>, b2: Seq<Bet>)
    requires
        b1.len() == b2.len(),
        forall|i: int| 0 <= i < b1.len() ==> sig_like(#[trigger] b1[i], b2[i]),
    ensures
        match (consolidate_spec(b1), consolidate_spec(b2)) {
            (Some(s1), Some(s2)) => s1.len() == s2.len() && (forall|i: int|
                0 <= i < s1.len() ==> sig_like(#[trigger] s1[i], s2[i])),
            (None, None) => true,
            _ => false,
        },
    decreases b1.len(),
{
    if b1.len() > 0 {
        assert(forall|i: int|
            0 <= i < b1.drop_last().len() ==> sig_like(
                #[trigger] b1.drop_last()[i],
                b2.drop_last()[i],
            ));
        lemma_consolidate_spec_congruence(b1.drop_last(), b2.drop_last());
        match (consolidate_spec(b1.drop_last()), consolidate_spec(b2.drop_last())) {
            (Some(s1), Some(s2)) => {
                let x1 = b1.last();
                let x2 = b2.last();
                lemma_find_sig_congruence(s1, s2, x1, x2);
                lemma_find_sig_characterize(s1, x1);
                match find_sig(s1, x1) {
                    Some(j) => {
                        assert(sig_like(s1[j], s2[j]));
                        assert(sig_like(merge_bets(s1[j], x1), merge_bets(s2[j], x2)));
                        if fits_i64(s1[j].amount_cents + x1.amount_cents) && fits_i64(
                            s1[j].initial_amount_cents + x1.initial_amount_cents,
                        ) {
                            let u1 = s1.update(j, merge_bets(s1[j], x1));
                            let u2 = s2.update(j, merge_bets(s2[j], x2));
                            assert(forall|i: int|
                                0 <= i < u1.len() ==> sig_like(#[trigger] u1[i], u2[i]));
                        }
                    },
                    None => {
                        let u1 = s1.push(x1);
                        let u2 = s2.push(x2);
                        assert(forall|i: int|
                            0 <= i < u1.len() ==> sig_like(#[trigger] u1[i], u2[i]));
                    },
                }
            },
            (None, None) => {},
            _ => {
                assert(false);
            },
        }
    }
}

/// Holds when every Lost bet's next stake (stake times progression factor)
/// stays representable.
pub open spec fn strategy_fits_at(b: Bet) -> bool {
    b.bet_state is Lost ==> fits_i64(b.amount_cents * b.progression_factor)
}

/// The strategy progression of one bet: a Lost bet multiplies its stake by
/// its progression factor, a Won bet resets to its initial stake, any
/// other bet is unchanged.
pub open spec fn strategy_bet(b: Bet) -> Bet {
    if b.bet_state is Lost {
        Bet {
            amount_cents: (b.amount_cents * b.progression_factor) as i64,
            bet_logs: b.bet_logs,
            bet_state: b.bet_state,
            bet_value: b.bet_value,
            initial_amount_cents: b.initial_amount_cents,
            progression_factor: b.progression_factor,
        }
    } else if b.bet_state is Won {
        Bet {
            amount_cents: b.initial_amount_cents,
            bet_logs: b.bet_logs,
            bet_state: b.bet_state,
            bet_value: b.bet_value,
            initial_amount_cents: b.initial_amount_cents,
            progression_factor: b.progression_factor,
        }
    } else {
        b
    }
}

/// The affordability marking of a bet roster: walking the bets in order
/// with a running stake total, a bet is `Active` while the total stays
/// within the balance and `Inactive` from the first bet that exceeds it.
pub open spec fn afford_marked_from(bets: Seq<Bet>, balance: int, acc: int) -> Seq<Bet>
    decreases bets.len(),
{
    if bets.len() == 0 {
        Seq::empty()
    } else {
        let t = acc + bets[0].amount_cents;
        seq![
            with_state(
                bets[0],
                if t <= balance {
                    BetState::Active
                } else {
                    BetState::Inactive
                },
            ),
        ] + afford_marked_from(bets.drop_first(), balance, t)
    }
}

impl Agent {
    /// Merges bets sharing a signature (same bet value, same progression
    /// factor) into one bet per signature, summing both the current and
    /// the initial stakes; first-occurrence order is kept. Returns `false`
    /// without a usable roster only when a summed stake would leave the
    /// `i64` range.
    pub fn consolidate_bets(&mut self) -> (ok: bool)
        ensures
            final(self).balance_cents == old(self).balance_cents,
            final(self).name == old(self).name,
            final(self).agent_logs == old(self).agent_logs,
            match consolidate_spec(old(self).strategic_bets@) {
                Some(s) => ok && final(self).strategic_bets@ == s,
                None => !ok,
            },
    {
        let ghost bets0 = self.strategic_bets@;
        let mut drained: Vec<Bet> = Vec::new();
        core::mem::swap(&mut drained, &mut self.strategic_bets);
        let mut out: Vec<Bet> = Vec::new();
        proof {
            assert(bets0.take(0) =~= Seq::<Bet>::empty());
        }
        while drained.len() > 0
            invariant
                bets0 == old(self).strategic_bets@,
                drained@ == bets0.skip(bets0.len() - drained@.len()),
                drained@.len() <= bets0.len(),
                consolidate_spec(bets0.take(bets0.len() - drained@.len())) == Some(out@),
                self.balance_cents == old(self).balance_cents,
                self.name == old(self).name,
                self.agent_logs == old(self).agent_logs,
            decreases drained@.len(),
        {
            let ghost k = bets0.len() - drained@.len();
            let b = drained.remove(0);
            proof {
                assert(b == bets0[k]);
                assert(drained@ =~= bets0.skip(k + 1));
                assert(bets0.take(k + 1).drop_last() =~= bets0.take(k));
                assert(bets0.take(k + 1).last() == bets0[k]);
            }
            let found = find_match(&out, &b);
            proof {
                lemma_find_sig_characterize(out@, b);
            }
            match found {
                Some(j) => {
                    let a1: i128 = out[j].amount_cents as i128 + b.amount_cents as i128;
                    let a2: i128 = out[j].initial_amount_cents as i128
                        + b.initial_amount_cents as i128;
                    if a1 > i64::MAX as i128 || a1 < i64::MIN as i128 || a2 > i64::MAX as i128
                        || a2 < i64::MIN as i128 {
                        proof {
                            assert(insert_bet(out@, b) is None);
                            assert(consolidate_spec(bets0.take(k + 1)) is None);
                            lemma_consolidate_none_extends(bets0, k + 1);
                        }
                        return false;
                    }
                    let ghost out_before = out@;
                    out[j].amount_cents = a1 as i64;
                    out[j].initial_amount_cents = a2 as i64;
                    proof {
                        assert(out@ =~= out_before.update(j as int, merge_bets(out_before[j as int], b)));
                    }
                },
                None => {
                    out.push(b);
                },
            }
            proof {
                assert(consolidate_spec(bets0.take(k + 1)) == Some(out@));
            }
        }
        proof {
            assert(bets0.take(bets0.len() as int) =~= bets0);
        }
        self.strategic_bets = out;
        true
    }

    /// Forces every bet to `Active`, whatever its previous state.
    pub fn allow_all_bets(&mut self)
        ensures
            final(self).balance_cents == old(self).balance_cents,
            final(self).name == old(self).name,
            final(self).agent_logs == old(self).agent_logs,
            final(self).strategic_bets@ == old(self).strategic_bets@.map_values(
                |b: Bet| with_state(b, BetState::Active),
            ),
    {
        let ghost bets0 = self.strategic_bets@;
        let n = self.strategic_bets.len();
        let mut i: usize = 0;
        while i < n
            invariant
                i <= n,
                n == self.strategic_bets@.len(),
                self.balance_cents == old(self).balance_cents,
                self.name == old(self).name,
                self.agent_logs == old(self).agent_logs,
                forall|j: int|
                    0 <= j < i ==> self.strategic_bets@[j] == with_state(
                        bets0[j],
                        BetState::Active,
                    ),
                forall|j: int| i <= j < n ==> self.strategic_bets@[j] == bets0[j],
            decreases n - i,
        {
            self.strategic_bets[i].bet_state = BetState::Active;
            i = i + 1;
        }
        proof {
            assert(self.strategic_bets@ =~= bets0.map_values(
                |b: Bet| with_state(b, BetState::Active),
            ));
        }
    }

    /// Re-derives every bet's `Active`/`Inactive` state from affordability:
    /// bets are walked in order, a running stake total is kept, and a bet
    /// stays `Active` only while the total stays within the balance.
    pub fn determine_affordable_bets(&mut self)
        ensures
            final(self).balance_cents == old(self).balance_cents,
            final(self).name == old(self).name,
            final(self).agent_logs == old(self).agent_logs,
            final(self).strategic_bets@ == afford_marked_from(
                old(self).strategic_bets@,
                old(self).balance_cents as int,
                0,
            ),
    {
        let ghost bets0 = self.strategic_bets@;
        let ghost balance = self.balance_cents as int;
        let n = self.strategic_bets.len();
        let mut total: i128 = 0;
        let mut i: usize = 0;
        proof {
            assert(bets0.skip(0) =~= bets0);
        }
        while i < n
            invariant
                i <= n,
                n == self.strategic_bets@.len(),
                n == bets0.len(),
                self.balance_cents == old(self).balance_cents,
                self.name == old(self).name,
                self.agent_logs == old(self).agent_logs,
                balance == self.balance_cents as int,
                total as int <= i * 0x8000_0000_0000_0000,
                -(total as int) <= i * 0x8000_0000_0000_0000,
                forall|j: int| i <= j < n ==> self.strategic_bets@[j] == bets0[j],
                afford_marked_from(bets0, balance, 0) == self.strategic_bets@.take(i as int)
                    + afford_marked_from(bets0.skip(i as int), balance, total as int),
            decreases n - i,
        {
            let ghost pre = self.strategic_bets@;
            let ghost total0 = total as int;
            let amount = self.strategic_bets[i].amount_cents;
            let t: i128 = total + amount as i128;
            if t <= self.balance_cents as i128 {
                self.strategic_bets[i].bet_state = BetState::Active;
            } else {
                self.strategic_bets[i].bet_state = BetState::Inactive;
            }
            total = t;
            proof {
                let rest = bets0.skip(i as int);
                assert(rest[0] == bets0[i as int]);
                assert(rest.drop_first() =~= bets0.skip(i as int + 1));
                let marked = with_state(
                    bets0[i as int],
                    if total0 + bets0[i as int].amount_cents <= balance {
                        BetState::Active
                    } else {
                        BetState::Inactive
                    },
                );
                assert(afford_marked_from(rest, balance, total0) == seq![marked]
                    + afford_marked_from(rest.drop_first(), balance, total0
                    + bets0[i as int].amount_cents));
                assert(self.strategic_bets@[i as int] == marked);
                assert(self.strategic_bets@.take(i as int + 1) =~= pre.take(i as int).push(
                    marked,
                ));
                assert(pre.take(i as int) =~= self.strategic_bets@.take(i as int));
                assert(self.strategic_bets@.take(i as int) + (seq![marked] + afford_marked_from(
                    bets0.skip(i as int + 1),
                    balance,
                    total as int,
                )) =~= self.strategic_bets@.take(i as int + 1) + afford_marked_from(
                    bets0.skip(i as int + 1),
                    balance,
                    total as int,
                ));
            }
            i = i + 1;
        }
        proof {
            assert(bets0.skip(n as int) =~= Seq::<Bet>::empty());
            assert(afford_marked_from(bets0, balance, 0) =~= self.strategic_bets@.take(n as int));
            assert(self.strategic_bets@.take(n as int) =~= self.strategic_bets@);
        }
    }

    /// Whether the strategy progression can be applied to every bet
    /// without a stake leaving the `i64` range.
    pub fn strategy_fits(&self) -> (r: bool)
        ensures
            r == forall|j: int|
                0 <= j < self.strategic_bets@.len() ==> strategy_fits_at(
                    #[trigger] self.strategic_bets@[j],
                ),
    {
        let n = self.strategic_bets.len();
        let mut i: usize = 0;
        while i < n
            invariant
                i <= n,
                n == self.strategic_bets@.len(),
                forall|j: int| 0 <= j < i ==> strategy_fits_at(#[trigger] self.strategic_bets@[j]),
            decreases n - i,
        {
            let b = &self.strategic_bets[i];
            if matches!(b.bet_state, BetState::Lost) {
                proof {
                    lemma_mul_i64_bounds(b.amount_cents as int, b.progression_factor as int);
                }
                let p: i128 = b.amount_cents as i128 * b.progression_factor as i128;
                if p > i64::MAX as i128 || p < i64::MIN as i128 {
                    return false;
                }
            }
            i = i + 1;
        }
        true
    }

    /// Applies the strategy progression: a Lost bet multiplies its stake
    /// by its progression factor, a Won bet resets its stake to its
    /// initial amount, every other bet keeps its stake.
    pub fn play_strategy(&mut self)
        requires
            forall|j: int|
                0 <= j < old(self).strategic_bets@.len() ==> strategy_fits_at(
                    #[trigger] old(self).strategic_bets@[j],
                ),
        ensures
            final(self).balance_cents == old(self).balance_cents,
            final(self).name == old(self).name,
            final(self).agent_logs == old(self).agent_logs,
            final(self).strategic_bets@ == old(self).strategic_bets@.map_values(
                |b: Bet| strategy_bet(b),
            ),
    {
        let ghost bets0 = self.strategic_bets@;
        let n = self.strategic_bets.len();
        let mut i: usize = 0;
        while i < n
            invariant
                i <= n,
                n == self.strategic_bets@.len(),
                n == bets0.len(),
                self.balance_cents == old(self).balance_cents,
                self.name == old(self).name,
                self.agent_logs == old(self).agent_logs,
                forall|j: int| i <= j < n ==> self.strategic_bets@[j] == bets0[j],
                forall|j: int|
                    0 <= j < i ==> self.strategic_bets@[j] == strategy_bet(bets0[j]),
                forall|j: int| 0 <= j < n ==> strategy_fits_at(#[trigger] bets0[j]),
            decreases n - i,
        {
            let b = &self.strategic_bets[i];
            if matches!(b.bet_state, BetState::Lost) {
                let na = self.strategic_bets[i].amount_cents
                    * self.strategic_bets[i].progression_factor;
                self.strategic_bets[i].amount_cents = na;
            } else if matches!(b.bet_state, BetState::Won) {
                let na = self.strategic_bets[i].initial_amount_cents;
                self.strategic_bets[i].amount_cents = na;
            }
            i = i + 1;
        }
        proof {
            assert(self.strategic_bets@ =~= bets0.map_values(|b: Bet| strategy_bet(b)));
        }
    }
}

/// Finds the first bet of `out` sharing `b`'s signature.
fn find_match(out: &Vec<Bet>, b: &Bet) -> (r: Option<usize>)
    ensures
        match r {
            Some(j) => find_sig(out@, *b) == Some(j as int),
            None => find_sig(out@, *b) is None,
        },
{
    let n = out.len();
    let mut i: usize = 0;
    while i < n
        invariant
            i <= n,
            n == out@.len(),
            forall|j: int| 0 <= j < i ==> !sig_match(#[trigger] out@[j], *b),
        decreases n - i,
    {
        if out[i].bet_value == b.bet_value && out[i].progression_factor == b.progression_factor {
            proof {
                lemma_find_sig_characterize(out@, *b);
            }
            return Some(i);
        }
        i = i + 1;
    }
    proof {
        lemma_find_sig_characterize(out@, *b);
    }
    None
}

} // verus!
