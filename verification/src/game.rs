use vstd::prelude::*;
use vstd::string::*;

use crate::agent::{
    afford_marked_from, consolidate_spec, fits_i64, lemma_mul_i64_bounds, strategy_bet,
    strategy_fits_at, with_state, Agent, AgentLog,
};
use crate::bet::{validated_state, Bet, BetLog, BetState};
use crate::bet_value::BetValue;
use crate::board::{board_wf, Board};
use crate::categories::RouletteType;
use crate::error::Error;
use crate::slot::Slot;

verus! {

/// One per-round record of the winning slot.
#[derive(Debug, PartialEq, Copy, Clone)]
pub struct GameLog {
    pub round_number: i32,
    pub winning_slot: Slot,
}

/// A single game: a generated board, an owned roster of agents, the round
/// plan, the negative-balance policy, and the per-round log.
#[derive(Debug, Clone)]
pub struct RouletteGame {
    pub game_number: i32,
    pub board: Board,
    pub agents: Vec<Agent>,
    pub number_of_rounds: i32,
    pub allow_negative_balance: bool,
    pub game_logs: Vec<GameLog>,
    pub roulette_type: RouletteType,
}

/// Whether a bet value backs the winning slot.
pub open spec fn bet_wins(v: BetValue, slot: Slot) -> bool {
    match v {
        BetValue::AdjacentNumbers(a) => a.numbers@.contains(slot.number),
        BetValue::Color(c) => c == slot.color,
        BetValue::Column(c) => c == slot.column,
        BetValue::DoubleColumn(d) => d.columns@[0] == slot.column || d.columns@[1] == slot.column,
        BetValue::Dozen(d) => d == slot.dozen,
        BetValue::EvenOdd(e) => e == slot.even_odd,
        BetValue::Half(h) => h == slot.half,
        BetValue::Number(n) => n == slot.number,
        BetValue::Row(r) => r == slot.row,
    }
}

/// The multiplier credited on a win, stake included: what a winning bet's
/// stake is multiplied by when the agent is paid.
pub open spec fn payout_multiplier(v: BetValue) -> int {
    match v {
        BetValue::AdjacentNumbers(a) => if a.numbers@.len() == 2 {
            18
        } else if a.numbers@.len() == 3 {
            12
        } else if a.numbers@.len() == 4 {
            9
        } else {
            0
        },
        BetValue::Color(_) => 2,
        BetValue::Column(_) => 12,
        BetValue::DoubleColumn(_) => 6,
        BetValue::Dozen(_) => 3,
        BetValue::EvenOdd(_) => 2,
        BetValue::Half(_) => 2,
        BetValue::Number(_) => 36,
        BetValue::Row(_) => 3,
    }
}

/// The balance left after debiting every `Active` bet's stake, walking the
/// bets in order. `None` when an intermediate balance leaves the `i64`
/// range.
pub open spec fn collect_bets_spec(bets: Seq<Bet>, balance: int) -> Option<int>
    decreases bets.len(),
{
    if bets.len() == 0 {
        Some(balance)
    } else {
        match collect_bets_spec(bets.drop_last(), balance) {
            None => None,
            Some(bal) => {
                let b = bets.last();
                if b.bet_state is Active {
                    if fits_i64(bal - b.amount_cents) {
                        Some(bal - b.amount_cents)
                    } else {
                        None
                    }
                } else {
                    Some(bal)
                }
            },
        }
    }
}

proof fn lemma_collect_prefix_some(bets: Seq<Bet>, balance: int, k: int)
    requires
        collect_bets_spec(bets, balance) is Some,
        0 <= k <= bets.len(),
    ensures
        collect_bets_spec(bets.take(k), balance) is Some,
    decreases bets.len(),
{
    if k == bets.len() {
        assert(bets.take(k) =~= bets);
    } else {
        assert(bets.take(k) =~= bets.drop_last().take(k));
        lemma_collect_prefix_some(bets.drop_last(), balance, k);
    }
}

proof fn lemma_collect_none_extends(bets: Seq<Bet>, balance: int, k: int)
    requires
        0 <= k <= bets.len(),
        collect_bets_spec(bets.take(k), balance) is None,
    ensures
        collect_bets_spec(bets, balance) is None,
    decreases bets.len(),
{
    if k == bets.len() {
        assert(bets.take(k) =~= bets);
    } else {
        assert(bets.take(k) =~= bets.drop_last().take(k));
        lemma_collect_none_extends(bets.drop_last(), balance, k);
    }
}

/// The settlement of one agent's bets against the winning slot: every
/// `Active` bet turns `Won` (crediting stake times multiplier) or `Lost`
/// (crediting nothing); other bets are untouched. Walks the bets in order;
/// `None` when a credit or balance leaves the `i64` range.
pub open spec fn settle_bets_spec(bets: Seq<Bet>, balance: int, slot: Slot) -> Option<
    (Seq<Bet>, int),
>
    decreases bets.len(),
{
    if bets.len() == 0 {
        Some((Seq::empty(), balance))
    } else {
        match settle_bets_spec(bets.drop_last(), balance, slot) {
            None => None,
            Some((s, bal)) => {
                let b = bets.last();
                if b.bet_state is Active {
                    if bet_wins(b.bet_value, slot) {
                        let prod = b.amount_cents * payout_multiplier(b.bet_value);
                        if fits_i64(prod) && fits_i64(bal + prod) {
                            Some((s.push(with_state(b, BetState::Won)), bal + prod))
                        } else {
                            None
                        }
                    } else {
                        Some((s.push(with_state(b, BetState::Lost)), bal))
                    }
                } else {
                    Some((s.push(b), bal))
                }
            },
        }
    }
}

proof fn lemma_settle_prefix_some(bets: Seq<Bet>, balance: int, slot: Slot, k: int)
    requires
        settle_bets_spec(bets, balance, slot) is Some,
        0 <= k <= bets.len(),
    ensures
        settle_bets_spec(bets.take(k), balance, slot) is Some,
        settle_bets_spec(bets.take(k), balance, slot).unwrap().0.len() == k,
    decreases bets.len(),
{
    if k == bets.len() {
        assert(bets.take(k) =~= bets);
        lemma_settle_len(bets, balance, slot);
    } else {
        assert(bets.take(k) =~= bets.drop_last().take(k));
        lemma_settle_prefix_some(bets.drop_last(), balance, slot, k);
    }
}

proof fn lemma_settle_len(bets: Seq<Bet>, balance: int, slot: Slot)
    requires
        settle_bets_spec(bets, balance, slot) is Some,
    ensures
        settle_bets_spec(bets, balance, slot).unwrap().0.len() == bets.len(),
    decreases bets.len(),
{
    if bets.len() > 0 {
        lemma_settle_len(bets.drop_last(), balance, slot);
    }
}

proof fn lemma_settle_none_extends(bets: Seq<Bet>, balance: int, slot: Slot, k: int)
    requires
        0 <= k <= bets.len(),
        settle_bets_spec(bets.take(k), balance, slot) is None,
    ensures
        settle_bets_spec(bets, balance, slot) is None,
    decreases bets.len(),
{
    if k == bets.len() {
        assert(bets.take(k) =~= bets);
    } else {
        assert(bets.take(k) =~= bets.drop_last().take(k));
        lemma_settle_none_extends(bets.drop_last(), balance, slot, k);
    }
}

/// The fields of a game that no round phase ever changes.
pub open spec fn same_game_except_agents(g1: RouletteGame, g2: RouletteGame) -> bool {
    &&& g2.game_number == g1.game_number
    &&& g2.board == g1.board
    &&& g2.number_of_rounds == g1.number_of_rounds
    &&& g2.allow_negative_balance == g1.allow_negative_balance
    &&& g2.roulette_type == g1.roulette_type
}

/// The identity of an agent that round phases preserve while they touch
/// its bets or balance.
pub open spec fn same_agent_name_logs(a1: Agent, a2: Agent) -> bool {
    &&& a2.name == a1.name
    &&& a2.agent_logs == a1.agent_logs
}

/// The round-start marking phase: with negative balances allowed every bet
/// is forced `Active`; otherwise each agent's bets are re-marked by
/// affordability.
pub open spec fn marking_rel(g1: RouletteGame, g2: RouletteGame) -> bool {
    &&& same_game_except_agents(g1, g2)
    &&& g2.game_logs == g1.game_logs
    &&& g2.agents@.len() == g1.agents@.len()
    &&& forall|i: int|
        0 <= i < g1.agents@.len() ==> {
            let a1 = #[trigger] g1.agents@[i];
            let a2 = #[trigger] g2.agents@[i];
            &&& same_agent_name_logs(a1, a2)
            &&& a2.balance_cents == a1.balance_cents
            &&& a2.strategic_bets@ == if g1.allow_negative_balance {
                a1.strategic_bets@.map_values(|b: Bet| with_state(b, BetState::Active))
            } else {
                afford_marked_from(a1.strategic_bets@, a1.balance_cents as int, 0)
            }
        }
}

/// The collection phase: every `Active` bet's stake is debited from its
/// agent's balance; bets are untouched.
pub open spec fn collect_rel(g1: RouletteGame, g2: RouletteGame) -> bool {
    &&& same_game_except_agents(g1, g2)
    &&& g2.game_logs == g1.game_logs
    &&& g2.agents@.len() == g1.agents@.len()
    &&& forall|i: int|
        0 <= i < g1.agents@.len() ==> {
            let a1 = #[trigger] g1.agents@[i];
            let a2 = #[trigger] g2.agents@[i];
            &&& same_agent_name_logs(a1, a2)
            &&& a2.strategic_bets == a1.strategic_bets
            &&& collect_bets_spec(a1.strategic_bets@, a1.balance_cents as int) == Some(
                a2.balance_cents as int,
            )
        }
}

/// The settlement phase against a winning slot.
pub open spec fn settle_rel(g1: RouletteGame, g2: RouletteGame, slot: Slot) -> bool {
    &&& same_game_except_agents(g1, g2)
    &&& g2.game_logs == g1.game_logs
    &&& g2.agents@.len() == g1.agents@.len()
    &&& forall|i: int|
        0 <= i < g1.agents@.len() ==> {
            let a1 = #[trigger] g1.agents@[i];
            let a2 = #[trigger] g2.agents@[i];
            &&& same_agent_name_logs(a1, a2)
            &&& settle_bets_spec(a1.strategic_bets@, a1.balance_cents as int, slot) == Some(
                (a2.strategic_bets@, a2.balance_cents as int),
            )
        }
}

/// What one bet's log gains in the logging phase: an entry with the
/// round's number, the bet's state and its stake, unless the bet is
/// `Inactive`.
pub open spec fn bet_logged_rel(b: Bet, nb: Bet, round: i32) -> bool {
    &&& nb.amount_cents == b.amount_cents
    &&& nb.bet_state == b.bet_state
    &&& nb.bet_value == b.bet_value
    &&& nb.initial_amount_cents == b.initial_amount_cents
    &&& nb.progression_factor == b.progression_factor
    &&& nb.bet_logs@ == if b.bet_state is Inactive {
        b.bet_logs@
    } else {
        b.bet_logs@.push(
            BetLog { round_number: round, amount_cents: b.amount_cents, bet_state: b.bet_state },
        )
    }
}

/// The logging phase: the game gains a `GameLog` entry, every agent gains
/// an `AgentLog` entry with its current balance, and every non-`Inactive`
/// bet gains a `BetLog` entry.
pub open spec fn log_rel(g1: RouletteGame, g2: RouletteGame, round: i32, slot: Slot) -> bool {
    &&& same_game_except_agents(g1, g2)
    &&& g2.game_logs@ == g1.game_logs@.push(
        GameLog { round_number: round, winning_slot: slot },
    )
    &&& g2.agents@.len() == g1.agents@.len()
    &&& forall|i: int|
        0 <= i < g1.agents@.len() ==> {
            let a1 = #[trigger] g1.agents@[i];
            let a2 = #[trigger] g2.agents@[i];
            &&& a2.name == a1.name
            &&& a2.balance_cents == a1.balance_cents
            &&& a2.agent_logs@ == a1.agent_logs@.push(
                AgentLog { round_number: round, balance_cents: a1.balance_cents },
            )
            &&& a2.strategic_bets@.len() == a1.strategic_bets@.len()
            &&& forall|j: int|
                0 <= j < a1.strategic_bets@.len() ==> bet_logged_rel(
                    #[trigger] a1.strategic_bets@[j],
                    a2.strategic_bets@[j],
                    round,
                )
        }
}

/// The strategy phase: every agent's bets move by the progression rule.
pub open spec fn strategy_rel(g1: RouletteGame, g2: RouletteGame) -> bool {
    &&& same_game_except_agents(g1, g2)
    &&& g2.game_logs == g1.game_logs
    &&& g2.agents@.len() == g1.agents@.len()
    &&& forall|i: int|
        0 <= i < g1.agents@.len() ==> {
            let a1 = #[trigger] g1.agents@[i];
            let a2 = #[trigger] g2.agents@[i];
            &&& same_agent_name_logs(a1, a2)
            &&& a2.balance_cents == a1.balance_cents
            &&& (forall|j: int|
                0 <= j < a1.strategic_bets@.len() ==> strategy_fits_at(
                    #[trigger] a1.strategic_bets@[j],
                ))
            &&& a2.strategic_bets@ == a1.strategic_bets@.map_values(|b: Bet| strategy_bet(b))
        }
}

/// Relies on `rand::random_range`: the result lies within the given
/// half-open range; it panics only when the range is empty, which the
/// precondition rules out.
#[verifier::external_body]
fn random_below(len: usize) -> (r: usize)
    requires
        len > 0,
    ensures
        r < len,
{
    rand::random_range(0..len)
}

impl RouletteGame {
    /// Creates a game: resolves the wheel type (European when none is
    /// given), generates a fresh board for it, and adopts the given agent
    /// roster with an empty log.
    pub fn new(
        game_number: i32,
        agents: Vec<Agent>,
        number_of_rounds: i32,
        allow_negative_balance: bool,
        roulette_type: Option<RouletteType>,
    ) -> (r: Result<RouletteGame, Error>)
        ensures
            r is Ok,
            r matches Ok(g) ==> {
                let rt = match roulette_type {
                    Some(rt) => rt,
                    None => RouletteType::European,
                };
                &&& g.game_number == game_number
                &&& g.agents == agents
                &&& g.number_of_rounds == number_of_rounds
                &&& g.allow_negative_balance == allow_negative_balance
                &&& g.game_logs@ == Seq::<GameLog>::empty()
                &&& g.roulette_type == rt
                &&& board_wf(g.board, rt)
            },
    {
        let roulette_type = match roulette_type {
            Some(rt) => rt,
            None => RouletteType::European,
        };
        let board = match Board::generate(&roulette_type) {
            Ok(b) => b,
            Err(e) => {
                proof {
                    assert(false);
                }
                return Err(e);
            },
        };
        Ok(
            RouletteGame {
                game_number,
                board,
                agents,
                number_of_rounds,
                allow_negative_balance,
                game_logs: Vec::new(),
                roulette_type,
            },
        )
    }

    /// Draws the winning slot at random from the board; the contract
    /// promises only that the result is one of its slots. Fails exactly when
    /// the board is empty; the game itself is untouched.
    pub fn spin(&mut self) -> (r: Result<Slot, Error>)
        ensures
            *final(self) == *old(self),
            match r {
                Ok(s) => exists|i: int|
                    0 <= i < old(self).board.slots@.len() && old(self).board.slots@[i] == s,
                Err(_) => old(self).board.slots@.len() == 0,
            },
    {
        let n = self.board.slots.len();
        if n == 0 {
            return Err(
                Error::GenericError {
                    message: String::from_str(
                        "Unable to choose a random slot from an empty board",
                    ),
                },
            );
        }
        let i = random_below(n);
        let s = self.board.slots[i];
        proof {
            assert(0 <= i < self.board.slots@.len() && self.board.slots@[i as int] == s);
        }
        Ok(s)
    }

    /// Consolidates every agent's bets (merging same-signature bets).
    /// Returns `false` only when a summed stake would leave the `i64`
    /// range for some agent; the roster is then unusable and the game must
    /// be abandoned.
    pub fn consolidate_bets(&mut self) -> (ok: bool)
        ensures
            same_game_except_agents(*old(self), *final(self)),
            final(self).game_logs == old(self).game_logs,
            final(self).agents@.len() == old(self).agents@.len(),
            ok ==> forall|i: int|
                0 <= i < old(self).agents@.len() ==> {
                    let a1 = #[trigger] old(self).agents@[i];
                    let a2 = #[trigger] final(self).agents@[i];
                    &&& same_agent_name_logs(a1, a2)
                    &&& a2.balance_cents == a1.balance_cents
                    &&& consolidate_spec(a1.strategic_bets@) == Some(a2.strategic_bets@)
                },
            !ok ==> exists|i: int|
                0 <= i < old(self).agents@.len() && consolidate_spec(
                    #[trigger] old(self).agents@[i].strategic_bets@,
                ) is None,
    {
        let n = self.agents.len();
        let mut i: usize = 0;
        while i < n
            invariant
                i <= n,
                n == self.agents@.len(),
                n == old(self).agents@.len(),
                same_game_except_agents(*old(self), *self),
                self.game_logs == old(self).game_logs,
                forall|j: int| i <= j < n ==> self.agents@[j] == old(self).agents@[j],
                forall|j: int|
                    0 <= j < i ==> {
                        let a1 = #[trigger] old(self).agents@[j];
                        let a2 = #[trigger] self.agents@[j];
                        &&& same_agent_name_logs(a1, a2)
                        &&& a2.balance_cents == a1.balance_cents
                        &&& consolidate_spec(a1.strategic_bets@) == Some(a2.strategic_bets@)
                    },
            decreases n - i,
        {
            let a = &mut self.agents[i];
            let ok = a.consolidate_bets();
            if !ok {
                proof {
                    assert(consolidate_spec(old(self).agents@[i as int].strategic_bets@)
                        is None);
                }
                return false;
            }
            i = i + 1;
        }
        true
    }

    /// Validates every agent's still-`Active` bets against the wheel;
    /// illegal bets turn `Inactive`.
    pub fn validate_bets(&mut self)
        ensures
            same_game_except_agents(*old(self), *final(self)),
            final(self).game_logs == old(self).game_logs,
            final(self).agents@.len() == old(self).agents@.len(),
            forall|i: int|
                0 <= i < old(self).agents@.len() ==> {
                    let a1 = #[trigger] old(self).agents@[i];
                    let a2 = #[trigger] final(self).agents@[i];
                    &&& same_agent_name_logs(a1, a2)
                    &&& a2.balance_cents == a1.balance_cents
                    &&& a2.strategic_bets@ == a1.strategic_bets@.map_values(
                        |b: Bet| if b.bet_state is Active {
                            with_state(b, validated_state(b, old(self).roulette_type))
                        } else {
                            b
                        },
                    )
                },
    {
        let rt = self.roulette_type;
        let n = self.agents.len();
        let mut i: usize = 0;
        while i < n
            invariant
                i <= n,
                n == self.agents@.len(),
                n == old(self).agents@.len(),
                rt == old(self).roulette_type,
                same_game_except_agents(*old(self), *self),
                self.game_logs == old(self).game_logs,
                forall|j: int| i <= j < n ==> self.agents@[j] == old(self).agents@[j],
                forall|j: int|
                    0 <= j < i ==> {
                        let a1 = #[trigger] old(self).agents@[j];
                        let a2 = #[trigger] self.agents@[j];
                        &&& same_agent_name_logs(a1, a2)
                        &&& a2.balance_cents == a1.balance_cents
                        &&& a2.strategic_bets@ == a1.strategic_bets@.map_values(
                            |b: Bet| if b.bet_state is Active {
                                with_state(b, validated_state(b, old(self).roulette_type))
                            } else {
                                b
                            },
                        )
                    },
            decreases n - i,
        {
            let a = &mut self.agents[i];
            let ghost a0 = *a;
            let ghost bets0 = a.strategic_bets@;
            let m = a.strategic_bets.len();
            let mut j: usize = 0;
            while j < m
                invariant
                    j <= m,
                    m == a.strategic_bets@.len(),
                    m == bets0.len(),
                    rt == old(self).roulette_type,
                    a.balance_cents == a0.balance_cents,
                    a.name == a0.name,
                    a.agent_logs == a0.agent_logs,
                    forall|l: int| j <= l < m ==> a.strategic_bets@[l] == bets0[l],
                    forall|l: int|
                        0 <= l < j ==> a.strategic_bets@[l] == (if (#[trigger] bets0[l]).bet_state
                            is Active {
                            with_state(bets0[l], validated_state(bets0[l], old(self).roulette_type))
                        } else {
                            bets0[l]
                        }),
                decreases m - j,
            {
                if matches!(a.strategic_bets[j].bet_state, BetState::Active) {
                    a.strategic_bets[j].validate(Some(&rt));
                }
                j = j + 1;
            }
            proof {
                assert(a.strategic_bets@ =~= bets0.map_values(
                    |b: Bet| if b.bet_state is Active {
                        with_state(b, validated_state(b, old(self).roulette_type))
                    } else {
                        b
                    },
                ));
            }
            i = i + 1;
        }
    }

    /// Forces every bet of every agent to `Active`, whatever its state.
    pub fn allow_all_bets(&mut self)
        ensures
            same_game_except_agents(*old(self), *final(self)),
            final(self).game_logs == old(self).game_logs,
            final(self).agents@.len() == old(self).agents@.len(),
            forall|i: int|
                0 <= i < old(self).agents@.len() ==> {
                    let a1 = #[trigger] old(self).agents@[i];
                    let a2 = #[trigger] final(self).agents@[i];
                    &&& same_agent_name_logs(a1, a2)
                    &&& a2.balance_cents == a1.balance_cents
                    &&& a2.strategic_bets@ == a1.strategic_bets@.map_values(
                        |b: Bet| with_state(b, BetState::Active),
                    )
                },
    {
        let n = self.agents.len();
        let mut i: usize = 0;
        while i < n
            invariant
                i <= n,
                n == self.agents@.len(),
                n == old(self).agents@.len(),
                same_game_except_agents(*old(self), *self),
                self.game_logs == old(self).game_logs,
                forall|j: int| i <= j < n ==> self.agents@[j] == old(self).agents@[j],
                forall|j: int|
                    0 <= j < i ==> {
                        let a1 = #[trigger] old(self).agents@[j];
                        let a2 = #[trigger] self.agents@[j];
                        &&& same_agent_name_logs(a1, a2)
                        &&& a2.balance_cents == a1.balance_cents
                        &&& a2.strategic_bets@ == a1.strategic_bets@.map_values(
                            |b: Bet| with_state(b, BetState::Active),
                        )
                    },
            decreases n - i,
        {
            let a = &mut self.agents[i];
            a.allow_all_bets();
            i = i + 1;
        }
    }

    /// Re-marks every agent's bets by affordability (see
    /// `afford_marked_from`): the round-start rule when negative balances
    /// are disallowed.
    pub fn ensure_agent_funds(&mut self)
        ensures
            same_game_except_agents(*old(self), *final(self)),
            final(self).game_logs == old(self).game_logs,
            final(self).agents@.len() == old(self).agents@.len(),
            forall|i: int|
                0 <= i < old(self).agents@.len() ==> {
                    let a1 = #[trigger] old(self).agents@[i];
                    let a2 = #[trigger] final(self).agents@[i];
                    &&& same_agent_name_logs(a1, a2)
                    &&& a2.balance_cents == a1.balance_cents
                    &&& a2.strategic_bets@ == afford_marked_from(
                        a1.strategic_bets@,
                        a1.balance_cents as int,
                        0,
                    )
                },
    {
        let n = self.agents.len();
        let mut i: usize = 0;
        while i < n
            invariant
                i <= n,
                n == self.agents@.len(),
                n == old(self).agents@.len(),
                same_game_except_agents(*old(self), *self),
                self.game_logs == old(self).game_logs,
                forall|j: int| i <= j < n ==> self.agents@[j] == old(self).agents@[j],
                forall|j: int|
                    0 <= j < i ==> {
                        let a1 = #[trigger] old(self).agents@[j];
                        let a2 = #[trigger] self.agents@[j];
                        &&& same_agent_name_logs(a1, a2)
                        &&& a2.balance_cents == a1.balance_cents
                        &&& a2.strategic_bets@ == afford_marked_from(
                            a1.strategic_bets@,
                            a1.balance_cents as int,
                            0,
                        )
                    },
            decreases n - i,
        {
            let a = &mut self.agents[i];
            a.determine_affordable_bets();
            i = i + 1;
        }
    }

    /// Whether collection can debit every agent's `Active` stakes without
    /// a balance leaving the `i64` range.
    fn collect_fits(&self) -> (r: bool)
        ensures
            r == forall|i: int|
                0 <= i < self.agents@.len() ==> collect_bets_spec(
                    (#[trigger] self.agents@[i]).strategic_bets@,
                    self.agents@[i].balance_cents as int,
                ) is Some,
    {
        let n = self.agents.len();
        let mut i: usize = 0;
        while i < n
            invariant
                i <= n,
                n == self.agents@.len(),
                forall|j: int|
                    0 <= j < i ==> collect_bets_spec(
                        (#[trigger] self.agents@[j]).strategic_bets@,
                        self.agents@[j].balance_cents as int,
                    ) is Some,
            decreases n - i,
        {
            let a = &self.agents[i];
            let ghost bets0 = a.strategic_bets@;
            let ghost bal0 = a.balance_cents as int;
            let m = a.strategic_bets.len();
            let mut bal: i128 = a.balance_cents as i128;
            let mut j: usize = 0;
            proof {
                assert(bets0.take(0) =~= Seq::<Bet>::empty());
            }
            while j < m
                invariant
                    j <= m,
                    m == a.strategic_bets@.len(),
                    bets0 == a.strategic_bets@,
                    bal0 == a.balance_cents as int,
                    i < self.agents@.len(),
                    bets0 == self.agents@[i as int].strategic_bets@,
                    bal0 == self.agents@[i as int].balance_cents as int,
                    collect_bets_spec(bets0.take(j as int), bal0) == Some(bal as int),
                    fits_i64(bal as int),
                decreases m - j,
            {
                proof {
                    assert(bets0.take(j + 1).drop_last() =~= bets0.take(j as int));
                    assert(bets0.take(j + 1).last() == bets0[j as int]);
                }
                if matches!(a.strategic_bets[j].bet_state, BetState::Active) {
                    let nb: i128 = bal - a.strategic_bets[j].amount_cents as i128;
                    if nb > i64::MAX as i128 || nb < i64::MIN as i128 {
                        proof {
                            assert(collect_bets_spec(bets0.take(j + 1), bal0) is None);
                            lemma_collect_none_extends(bets0, bal0, j + 1);
                            assert(collect_bets_spec(
                                self.agents@[i as int].strategic_bets@,
                                self.agents@[i as int].balance_cents as int,
                            ) is None);
                        }
                        return false;
                    }
                    bal = nb;
                }
                j = j + 1;
            }
            proof {
                assert(bets0.take(m as int) =~= bets0);
            }
            i = i + 1;
        }
        true
    }

    /// Debits every `Active` bet's stake from its agent's balance.
    pub fn collect_bets(&mut self)
        requires
            forall|i: int|
                0 <= i < old(self).agents@.len() ==> collect_bets_spec(
                    (#[trigger] old(self).agents@[i]).strategic_bets@,
                    old(self).agents@[i].balance_cents as int,
                ) is Some,
        ensures
            collect_rel(*old(self), *final(self)),
    {
        let n = self.agents.len();
        let mut i: usize = 0;
        while i < n
            invariant
                i <= n,
                n == self.agents@.len(),
                n == old(self).agents@.len(),
                same_game_except_agents(*old(self), *self),
                self.game_logs == old(self).game_logs,
                forall|j: int| i <= j < n ==> self.agents@[j] == old(self).agents@[j],
                forall|j: int|
                    i <= j < n ==> collect_bets_spec(
                        (#[trigger] old(self).agents@[j]).strategic_bets@,
                        old(self).agents@[j].balance_cents as int,
                    ) is Some,
                forall|j: int|
                    0 <= j < i ==> {
                        let a1 = #[trigger] old(self).agents@[j];
                        let a2 = #[trigger] self.agents@[j];
                        &&& same_agent_name_logs(a1, a2)
                        &&& a2.strategic_bets == a1.strategic_bets
                        &&& collect_bets_spec(a1.strategic_bets@, a1.balance_cents as int)
                            == Some(a2.balance_cents as int)
                    },
            decreases n - i,
        {
            let a = &mut self.agents[i];
            let ghost a0 = *a;
            let ghost bets0 = a.strategic_bets@;
            let ghost bal0 = a.balance_cents as int;
            let m = a.strategic_bets.len();
            let mut j: usize = 0;
            proof {
                assert(bets0.take(0) =~= Seq::<Bet>::empty());
            }
            while j < m
                invariant
                    j <= m,
                    m == a.strategic_bets@.len(),
                    a.strategic_bets == a0.strategic_bets,
                    bets0 == a0.strategic_bets@,
                    bal0 == a0.balance_cents as int,
                    a.name == a0.name,
                    a.agent_logs == a0.agent_logs,
                    collect_bets_spec(bets0, bal0) is Some,
                    collect_bets_spec(bets0.take(j as int), bal0) == Some(
                        a.balance_cents as int,
                    ),
                decreases m - j,
            {
                proof {
                    lemma_collect_prefix_some(bets0, bal0, j + 1);
                    assert(bets0.take(j + 1).drop_last() =~= bets0.take(j as int));
                    assert(bets0.take(j + 1).last() == bets0[j as int]);
                }
                if matches!(a.strategic_bets[j].bet_state, BetState::Active) {
                    let amt = a.strategic_bets[j].amount_cents;
                    a.balance_cents = a.balance_cents - amt;
                }
                j = j + 1;
            }
            proof {
                assert(bets0.take(m as int) =~= bets0);
            }
            i = i + 1;
        }
    }
}

impl RouletteGame {
    /// Whether settlement against the given slot can credit every winning
    /// bet without a balance leaving the `i64` range.
    fn settle_fits(&self, slot: &Slot) -> (r: bool)
        ensures
            r == forall|i: int|
                0 <= i < self.agents@.len() ==> settle_bets_spec(
                    (#[trigger] self.agents@[i]).strategic_bets@,
                    self.agents@[i].balance_cents as int,
                    *slot,
                ) is Some,
    {
        let n = self.agents.len();
        let mut i: usize = 0;
        while i < n
            invariant
                i <= n,
                n == self.agents@.len(),
                forall|j: int|
                    0 <= j < i ==> settle_bets_spec(
                        (#[trigger] self.agents@[j]).strategic_bets@,
                        self.agents@[j].balance_cents as int,
                        *slot,
                    ) is Some,
            decreases n - i,
        {
            let a = &self.agents[i];
            let ghost bets0 = a.strategic_bets@;
            let ghost bal0 = a.balance_cents as int;
            let m = a.strategic_bets.len();
            let mut bal: i128 = a.balance_cents as i128;
            let ghost mut settled: Seq<Bet> = Seq::empty();
            let mut j: usize = 0;
            proof {
                assert(bets0.take(0) =~= Seq::<Bet>::empty());
            }
            while j < m
                invariant
                    j <= m,
                    m == a.strategic_bets@.len(),
                    bets0 == a.strategic_bets@,
                    bal0 == a.balance_cents as int,
                    i < self.agents@.len(),
                    bets0 == self.agents@[i as int].strategic_bets@,
                    bal0 == self.agents@[i as int].balance_cents as int,
                    settle_bets_spec(bets0.take(j as int), bal0, *slot) == Some(
                        (settled, bal as int),
                    ),
                    fits_i64(bal as int),
                decreases m - j,
            {
                proof {
                    assert(bets0.take(j + 1).drop_last() =~= bets0.take(j as int));
                    assert(bets0.take(j + 1).last() == bets0[j as int]);
                }
                let b = &a.strategic_bets[j];
                if matches!(b.bet_state, BetState::Active) {
                    if wins(&b.bet_value, slot) {
                        let mult = multiplier(&b.bet_value);
                        proof {
                            lemma_mul_i64_bounds(b.amount_cents as int, mult as int);
                        }
                        let prod: i128 = b.amount_cents as i128 * mult as i128;
                        let nb: i128 = bal + prod;
                        if prod > i64::MAX as i128 || prod < i64::MIN as i128 || nb > i64::MAX
                            as i128 || nb < i64::MIN as i128 {
                            proof {
                                assert(settle_bets_spec(bets0.take(j + 1), bal0, *slot)
                                    is None);
                                lemma_settle_none_extends(bets0, bal0, *slot, j + 1);
                                assert(settle_bets_spec(
                                    self.agents@[i as int].strategic_bets@,
                                    self.agents@[i as int].balance_cents as int,
                                    *slot,
                                ) is None);
                            }
                            return false;
                        }
                        bal = nb;
                        proof {
                            settled = settled.push(with_state(bets0[j as int], BetState::Won));
                        }
                    } else {
                        proof {
                            settled = settled.push(with_state(bets0[j as int], BetState::Lost));
                        }
                    }
                } else {
                    proof {
                        settled = settled.push(bets0[j as int]);
                    }
                }
                j = j + 1;
            }
            proof {
                assert(bets0.take(m as int) =~= bets0);
            }
            i = i + 1;
        }
        true
    }

    /// Settles every still-`Active` bet against the winning slot: winners
    /// turn `Won` and are credited stake times multiplier, losers turn
    /// `Lost` and are credited nothing.
    pub fn determine_bet_results(&mut self, winning_slot: &Slot)
        requires
            forall|i: int|
                0 <= i < old(self).agents@.len() ==> settle_bets_spec(
                    (#[trigger] old(self).agents@[i]).strategic_bets@,
                    old(self).agents@[i].balance_cents as int,
                    *winning_slot,
                ) is Some,
        ensures
            settle_rel(*old(self), *final(self), *winning_slot),
    {
        let n = self.agents.len();
        let mut i: usize = 0;
        while i < n
            invariant
                i <= n,
                n == self.agents@.len(),
                n == old(self).agents@.len(),
                same_game_except_agents(*old(self), *self),
                self.game_logs == old(self).game_logs,
                forall|j: int| i <= j < n ==> self.agents@[j] == old(self).agents@[j],
                forall|j: int|
                    i <= j < n ==> settle_bets_spec(
                        (#[trigger] old(self).agents@[j]).strategic_bets@,
                        old(self).agents@[j].balance_cents as int,
                        *winning_slot,
                    ) is Some,
                forall|j: int|
                    0 <= j < i ==> {
                        let a1 = #[trigger] old(self).agents@[j];
                        let a2 = #[trigger] self.agents@[j];
                        &&& same_agent_name_logs(a1, a2)
                        &&& settle_bets_spec(a1.strategic_bets@, a1.balance_cents as int,
                        *winning_slot) == Some((a2.strategic_bets@, a2.balance_cents as int))
                    },
            decreases n - i,
        {
            let a = &mut self.agents[i];
            let ghost a0 = *a;
            let ghost bets0 = a.strategic_bets@;
            let ghost bal0 = a.balance_cents as int;
            let m = a.strategic_bets.len();
            let mut j: usize = 0;
            proof {
                assert(bets0.take(0) =~= Seq::<Bet>::empty());
                assert(a.strategic_bets@.take(0) =~= Seq::<Bet>::empty());
            }
            while j < m
                invariant
                    j <= m,
                    m == a.strategic_bets@.len(),
                    m == bets0.len(),
                    a.name == a0.name,
                    a.agent_logs == a0.agent_logs,
                    bets0 == a0.strategic_bets@,
                    bal0 == a0.balance_cents as int,
                    settle_bets_spec(bets0, bal0, *winning_slot) is Some,
                    settle_bets_spec(bets0.take(j as int), bal0, *winning_slot) == Some(
                        (a.strategic_bets@.take(j as int), a.balance_cents as int),
                    ),
                    forall|l: int| j <= l < m ==> a.strategic_bets@[l] == bets0[l],
                decreases m - j,
            {
                proof {
                    lemma_settle_prefix_some(bets0, bal0, *winning_slot, j + 1);
                    assert(bets0.take(j + 1).drop_last() =~= bets0.take(j as int));
                    assert(bets0.take(j + 1).last() == bets0[j as int]);
                }
                let ghost pre_bets = a.strategic_bets@;
                if matches!(a.strategic_bets[j].bet_state, BetState::Active) {
                    let w = wins(&a.strategic_bets[j].bet_value, winning_slot);
                    if w {
                        let mult = multiplier(&a.strategic_bets[j].bet_value);
                        let amt = a.strategic_bets[j].amount_cents;
                        let credit = amt * mult;
                        a.balance_cents = a.balance_cents + credit;
                        a.strategic_bets[j].bet_state = BetState::Won;
                    } else {
                        a.strategic_bets[j].bet_state = BetState::Lost;
                    }
                }
                proof {
                    assert(a.strategic_bets@.take(j + 1) =~= pre_bets.take(j as int).push(
                        a.strategic_bets@[j as int],
                    ));
                    assert(pre_bets.take(j as int) =~= a.strategic_bets@.take(j as int));
                    assert(settle_bets_spec(bets0.take(j + 1), bal0, *winning_slot) == Some(
                        (a.strategic_bets@.take(j + 1), a.balance_cents as int),
                    ));
                }
                j = j + 1;
            }
            proof {
                assert(bets0.take(m as int) =~= bets0);
                assert(a.strategic_bets@.take(m as int) =~= a.strategic_bets@);
            }
            i = i + 1;
        }
    }

    /// Appends the round's records: a `GameLog` entry with the winning
    /// slot, an `AgentLog` entry per agent with its balance, and a
    /// `BetLog` entry for every bet that is not `Inactive`.
    pub fn log_round(&mut self, round_number: i32, winning_slot: &Slot)
        ensures
            log_rel(*old(self), *final(self), round_number, *winning_slot),
    {
        self.game_logs.push(
            GameLog { round_number, winning_slot: *winning_slot },
        );
        let n = self.agents.len();
        let mut i: usize = 0;
        while i < n
            invariant
                i <= n,
                n == self.agents@.len(),
                n == old(self).agents@.len(),
                same_game_except_agents(*old(self), *self),
                self.game_logs@ == old(self).game_logs@.push(
                    GameLog { round_number, winning_slot: *winning_slot },
                ),
                forall|j: int| i <= j < n ==> self.agents@[j] == old(self).agents@[j],
                forall|j: int|
                    0 <= j < i ==> {
                        let a1 = #[trigger] old(self).agents@[j];
                        let a2 = #[trigger] self.agents@[j];
                        &&& a2.name == a1.name
                        &&& a2.balance_cents == a1.balance_cents
                        &&& a2.agent_logs@ == a1.agent_logs@.push(
                            AgentLog { round_number, balance_cents: a1.balance_cents },
                        )
                        &&& a2.strategic_bets@.len() == a1.strategic_bets@.len()
                        &&& forall|l: int|
                            0 <= l < a1.strategic_bets@.len() ==> bet_logged_rel(
                                #[trigger] a1.strategic_bets@[l],
                                a2.strategic_bets@[l],
                                round_number,
                            )
                    },
            decreases n - i,
        {
            let a = &mut self.agents[i];
            let ghost a0 = *a;
            let balance = a.balance_cents;
            a.agent_logs.push(AgentLog { round_number, balance_cents: balance });
            let m = a.strategic_bets.len();
            let mut j: usize = 0;
            while j < m
                invariant
                    j <= m,
                    m == a.strategic_bets@.len(),
                    m == a0.strategic_bets@.len(),
                    a.name == a0.name,
                    a.balance_cents == a0.balance_cents,
                    a.agent_logs@ == a0.agent_logs@.push(
                        AgentLog { round_number, balance_cents: a0.balance_cents },
                    ),
                    forall|l: int| j <= l < m ==> a.strategic_bets@[l] == a0.strategic_bets@[l],
                    forall|l: int|
                        0 <= l < j ==> bet_logged_rel(
                            #[trigger] a0.strategic_bets@[l],
                            a.strategic_bets@[l],
                            round_number,
                        ),
                decreases m - j,
            {
                if !matches!(a.strategic_bets[j].bet_state, BetState::Inactive) {
                    let entry = BetLog {
                        round_number,
                        amount_cents: a.strategic_bets[j].amount_cents,
                        bet_state: a.strategic_bets[j].bet_state,
                    };
                    a.strategic_bets[j].bet_logs.push(entry);
                }
                j = j + 1;
            }
            i = i + 1;
        }
    }

    /// Whether the strategy progression fits every agent's bets.
    fn strategies_fit(&self) -> (r: bool)
        ensures
            r == forall|i: int, j: int|
                0 <= i < self.agents@.len() && 0 <= j < self.agents@[i].strategic_bets@.len()
                    ==> strategy_fits_at(#[trigger] self.agents@[i].strategic_bets@[j]),
    {
        let n = self.agents.len();
        let mut i: usize = 0;
        while i < n
            invariant
                i <= n,
                n == self.agents@.len(),
                forall|k: int, j: int|
                    0 <= k < i && 0 <= j < self.agents@[k].strategic_bets@.len()
                        ==> strategy_fits_at(#[trigger] self.agents@[k].strategic_bets@[j]),
            decreases n - i,
        {
            let a = &self.agents[i];
            if !a.strategy_fits() {
                return false;
            }
            i = i + 1;
        }
        true
    }

    /// Applies the strategy progression to every agent's bets.
    pub fn play_agent_strategies(&mut self)
        requires
            forall|i: int, j: int|
                0 <= i < old(self).agents@.len() && 0 <= j
                    < old(self).agents@[i].strategic_bets@.len() ==> strategy_fits_at(
                    #[trigger] old(self).agents@[i].strategic_bets@[j],
                ),
        ensures
            strategy_rel(*old(self), *final(self)),
    {
        let n = self.agents.len();
        let mut i: usize = 0;
        while i < n
            invariant
                i <= n,
                n == self.agents@.len(),
                n == old(self).agents@.len(),
                same_game_except_agents(*old(self), *self),
                self.game_logs == old(self).game_logs,
                forall|j: int| i <= j < n ==> self.agents@[j] == old(self).agents@[j],
                forall|k: int, j: int|
                    0 <= k < n && 0 <= j < old(self).agents@[k].strategic_bets@.len()
                        ==> strategy_fits_at(#[trigger] old(self).agents@[k].strategic_bets@[j]),
                forall|j: int|
                    0 <= j < i ==> {
                        let a1 = #[trigger] old(self).agents@[j];
                        let a2 = #[trigger] self.agents@[j];
                        &&& same_agent_name_logs(a1, a2)
                        &&& a2.balance_cents == a1.balance_cents
                        &&& a2.strategic_bets@ == a1.strategic_bets@.map_values(
                            |b: Bet| strategy_bet(b),
                        )
                    },
            decreases n - i,
        {
            let a = &mut self.agents[i];
            a.play_strategy();
            i = i + 1;
        }
    }
}

/// Every agent's collection fits: no debit leaves the `i64` range.
pub open spec fn collect_ok(g: RouletteGame) -> bool {
    forall|i: int|
        0 <= i < g.agents@.len() ==> collect_bets_spec(
            (#[trigger] g.agents@[i]).strategic_bets@,
            g.agents@[i].balance_cents as int,
        ) is Some
}

/// Every agent's settlement against the slot fits the `i64` range.
pub open spec fn settle_ok(g: RouletteGame, slot: Slot) -> bool {
    forall|i: int|
        0 <= i < g.agents@.len() ==> settle_bets_spec(
            (#[trigger] g.agents@[i]).strategic_bets@,
            g.agents@[i].balance_cents as int,
            slot,
        ) is Some
}

/// Every agent's strategy progression fits the `i64` range.
pub open spec fn strategy_ok(g: RouletteGame) -> bool {
    forall|i: int, j: int|
        0 <= i < g.agents@.len() && 0 <= j < g.agents@[i].strategic_bets@.len()
            ==> strategy_fits_at(#[trigger] g.agents@[i].strategic_bets@[j])
}

/// One full round from `g1` to `g2`, with the slot at board position `si`
/// winning: marking, collection, settlement, logging and strategy
/// progression composed in order.
pub open spec fn round_ok_rel(g1: RouletteGame, g2: RouletteGame, round: i32, si: int) -> bool {
    exists|m1: RouletteGame, m2: RouletteGame, m3: RouletteGame, m4: RouletteGame|
        #![trigger marking_rel(g1, m1), collect_rel(m1, m2), settle_rel(m2, m3, g1.board.slots@[si]), log_rel(m3, m4, round, g1.board.slots@[si])]
        {
            &&& 0 <= si < g1.board.slots@.len()
            &&& marking_rel(g1, m1)
            &&& collect_rel(m1, m2)
            &&& settle_rel(m2, m3, g1.board.slots@[si])
            &&& log_rel(m3, m4, round, g1.board.slots@[si])
            &&& strategy_rel(m4, g2)
        }
}

/// A round-start state the engine must abandon: after marking, either the
/// board is empty, or a debit, credit or next stake somewhere in the round
/// would leave the `i64` range.
pub open spec fn round_aborts(g: RouletteGame, round: i32) -> bool {
    exists|m1: RouletteGame|
        #![trigger marking_rel(g, m1)]
        {
            &&& marking_rel(g, m1)
            &&& (!collect_ok(m1) || exists|m2: RouletteGame|
                #![trigger collect_rel(m1, m2)]
                {
                    &&& collect_rel(m1, m2)
                    &&& (g.board.slots@.len() == 0 || (exists|si: int|
                        0 <= si < g.board.slots@.len() && !settle_ok(
                            m2,
                            #[trigger] g.board.slots@[si],
                        )) || (exists|m3: RouletteGame, m4: RouletteGame, si: int|
                        #![trigger settle_rel(m2, m3, g.board.slots@[si]), log_rel(m3, m4, round, g.board.slots@[si])]
                        {
                            &&& 0 <= si < g.board.slots@.len()
                            &&& settle_rel(m2, m3, g.board.slots@[si])
                            &&& log_rel(m3, m4, round, g.board.slots@[si])
                            &&& !strategy_ok(m4)
                        }))
                })
        }
}

/// `k` completed rounds from `g1` to `g2`, numbered `1..=k`.
pub open spec fn rounds_rel(g1: RouletteGame, g2: RouletteGame, k: int) -> bool
    decreases k,
{
    if k <= 0 {
        g2 == g1
    } else {
        exists|mid: RouletteGame, si: int|
            #![trigger round_ok_rel(mid, g2, k as i32, si)]
            {
                rounds_rel(g1, mid, k - 1) && round_ok_rel(mid, g2, k as i32, si)
            }
    }
}

/// The pre-play consolidation of every agent's bets.
pub open spec fn consolidated_rel(g1: RouletteGame, g2: RouletteGame) -> bool {
    &&& same_game_except_agents(g1, g2)
    &&& g2.game_logs == g1.game_logs
    &&& g2.agents@.len() == g1.agents@.len()
    &&& forall|i: int|
        0 <= i < g1.agents@.len() ==> {
            let a1 = #[trigger] g1.agents@[i];
            let a2 = #[trigger] g2.agents@[i];
            &&& same_agent_name_logs(a1, a2)
            &&& a2.balance_cents == a1.balance_cents
            &&& consolidate_spec(a1.strategic_bets@) == Some(a2.strategic_bets@)
        }
}

/// The pre-play validation of every agent's still-`Active` bets.
pub open spec fn validated_rel(g1: RouletteGame, g2: RouletteGame) -> bool {
    &&& same_game_except_agents(g1, g2)
    &&& g2.game_logs == g1.game_logs
    &&& g2.agents@.len() == g1.agents@.len()
    &&& forall|i: int|
        0 <= i < g1.agents@.len() ==> {
            let a1 = #[trigger] g1.agents@[i];
            let a2 = #[trigger] g2.agents@[i];
            &&& same_agent_name_logs(a1, a2)
            &&& a2.balance_cents == a1.balance_cents
            &&& a2.strategic_bets@ == a1.strategic_bets@.map_values(
                |b: Bet| if b.bet_state is Active {
                    with_state(b, validated_state(b, g1.roulette_type))
                } else {
                    b
                },
            )
        }
}

/// A starting state from which the engine aborts a game: either some
/// agent's bets cannot be consolidated within the `i64` range, or some
/// number of rounds complete and the next one hits an abort condition
/// (an empty board, or an amount leaving the `i64` range).
pub open spec fn play_aborted(g: RouletteGame) -> bool {
    (exists|i: int|
        0 <= i < g.agents@.len() && consolidate_spec(
            (#[trigger] g.agents@[i]).strategic_bets@,
        ) is None) || exists|
        setup: RouletteGame,
        validated: RouletteGame,
        mid: RouletteGame,
        k: int,
    |
        #![trigger consolidated_rel(g, setup), validated_rel(setup, validated), rounds_rel(validated, mid, k)]
        {
            &&& consolidated_rel(g, setup)
            &&& validated_rel(setup, validated)
            &&& 0 <= k < g.number_of_rounds as int
            &&& rounds_rel(validated, mid, k)
            &&& round_aborts(mid, (k + 1) as i32)
        }
}

/// A whole game carried out: bets consolidated and validated once, then
/// the configured number of rounds played in order.
pub open spec fn played_rel(g1: RouletteGame, g2: RouletteGame) -> bool {
    exists|setup: RouletteGame, validated: RouletteGame|
        #![trigger consolidated_rel(g1, setup), validated_rel(setup, validated)]
        {
            &&& consolidated_rel(g1, setup)
            &&& validated_rel(setup, validated)
            &&& rounds_rel(validated, g2, g1.number_of_rounds as int)
        }
}

proof fn lemma_round_log_len(g1: RouletteGame, g2: RouletteGame, round: i32, si: int)
    requires
        round_ok_rel(g1, g2, round, si),
    ensures
        g2.game_logs@.len() == g1.game_logs@.len() + 1,
{
    let (m1, m2, m3, m4) = choose|
        m1: RouletteGame,
        m2: RouletteGame,
        m3: RouletteGame,
        m4: RouletteGame,
    |
        marking_rel(g1, m1) && collect_rel(m1, m2) && settle_rel(m2, m3, g1.board.slots@[si])
            && log_rel(m3, m4, round, g1.board.slots@[si]) && strategy_rel(m4, g2);
    assert(m4.game_logs@.len() == m3.game_logs@.len() + 1);
}

proof fn lemma_rounds_log_len(g1: RouletteGame, g2: RouletteGame, k: int)
    requires
        rounds_rel(g1, g2, k),
    ensures
        g2.game_logs@.len() == g1.game_logs@.len() + if k >= 0 {
            k
        } else {
            0
        },
    decreases k,
{
    if k > 0 {
        let (mid, si) = choose|mid: RouletteGame, si: int|
            #![trigger round_ok_rel(mid, g2, k as i32, si)]
            rounds_rel(g1, mid, k - 1) && round_ok_rel(mid, g2, k as i32, si);
        lemma_rounds_log_len(g1, mid, k - 1);
        lemma_round_log_len(mid, g2, k as i32, si);
    }
}

/// A game carried to completion holds exactly one game-log entry per
/// configured round.
pub proof fn lemma_played_game_log_len(g1: RouletteGame, g2: RouletteGame)
    requires
        played_rel(g1, g2),
        g1.game_logs@.len() == 0,
    ensures
        g2.game_logs@.len() == if g1.number_of_rounds >= 0 {
            g1.number_of_rounds as int
        } else {
            0
        },
{
    let (setup, validated) = choose|setup: RouletteGame, validated: RouletteGame|
        consolidated_rel(g1, setup) && validated_rel(setup, validated) && rounds_rel(
            validated,
            g2,
            g1.number_of_rounds as int,
        );
    lemma_rounds_log_len(validated, g2, g1.number_of_rounds as int);
}

impl RouletteGame {
    /// Plays one round: round-start marking, collection, spin, settlement,
    /// logging, and strategy progression. Fails only when the board is
    /// empty or an amount would leave the `i64` range; the phases before
    /// the failing check have then already been applied.
    pub fn play_round(&mut self, round_number: i32) -> (r: Result<(), Error>)
        ensures
            same_game_except_agents(*old(self), *final(self)),
            match r {
                Ok(_) => exists|si: int|
                    round_ok_rel(*old(self), *final(self), round_number, si),
                Err(_) => round_aborts(*old(self), round_number),
            },
    {
        if self.allow_negative_balance {
            self.allow_all_bets();
        } else {
            self.ensure_agent_funds();
        }
        let ghost m1 = *self;
        proof {
            assert(marking_rel(*old(self), m1));
        }
        if !self.collect_fits() {
            proof {
                assert(!collect_ok(m1));
            }
            return Err(
                Error::GenericError {
                    message: String::from_str(
                        "collecting the stakes would overflow an agent's balance",
                    ),
                },
            );
        }
        self.collect_bets();
        let ghost m2 = *self;
        proof {
            assert(collect_rel(m1, m2));
        }
        let winning_slot = match self.spin() {
            Ok(s) => s,
            Err(e) => {
                proof {
                    assert(old(self).board.slots@.len() == 0);
                }
                return Err(e);
            },
        };
        let ghost si = choose|i: int|
            0 <= i < m2.board.slots@.len() && m2.board.slots@[i] == winning_slot;
        proof {
            assert(old(self).board.slots@[si] == winning_slot);
        }
        if !self.settle_fits(&winning_slot) {
            proof {
                assert(!settle_ok(m2, old(self).board.slots@[si]));
            }
            return Err(
                Error::GenericError {
                    message: String::from_str(
                        "settling the winning bets would overflow an agent's balance",
                    ),
                },
            );
        }
        self.determine_bet_results(&winning_slot);
        let ghost m3 = *self;
        proof {
            assert(settle_rel(m2, m3, old(self).board.slots@[si]));
        }
        self.log_round(round_number, &winning_slot);
        let ghost m4 = *self;
        proof {
            assert(log_rel(m3, m4, round_number, old(self).board.slots@[si]));
        }
        if !self.strategies_fit() {
            proof {
                assert(!strategy_ok(m4));
            }
            return Err(
                Error::GenericError {
                    message: String::from_str(
                        "the strategy progression would overflow a bet's stake",
                    ),
                },
            );
        }
        self.play_agent_strategies();
        proof {
            assert(strategy_rel(m4, *self));
            assert(round_ok_rel(*old(self), *self, round_number, si));
        }
        Ok(())
    }

    /// Plays the whole game: consolidates and validates every agent's
    /// bets once, then plays the configured number of rounds. Fails only
    /// when consolidation or a round hits a value outside the `i64`
    /// range (or an empty board); such a game is meant to be discarded.
    pub fn play(&mut self) -> (r: Result<(), Error>)
        ensures
            same_game_except_agents(*old(self), *final(self)),
            match r {
                Ok(_) => played_rel(*old(self), *final(self)),
                Err(_) => play_aborted(*old(self)),
            },
    {
        if !self.consolidate_bets() {
            return Err(
                Error::GenericError {
                    message: String::from_str(
                        "consolidating the bets would overflow a stake",
                    ),
                },
            );
        }
        let ghost setup = *self;
        self.validate_bets();
        let ghost validated = *self;
        proof {
            assert(consolidated_rel(*old(self), setup));
            assert(validated_rel(setup, validated));
        }
        let rounds: i64 = self.number_of_rounds as i64;
        let mut round: i64 = 1;
        while round <= rounds
            invariant
                1 <= round,
                round <= if rounds < 1 {
                    1int
                } else {
                    rounds + 1
                },
                rounds == old(self).number_of_rounds as i64,
                same_game_except_agents(*old(self), *self),
                consolidated_rel(*old(self), setup),
                validated_rel(setup, validated),
                rounds_rel(validated, *self, round - 1),
            decreases rounds - round + 1,
        {
            let ghost pre = *self;
            let rn: i32 = round as i32;
            match self.play_round(rn) {
                Ok(_) => {
                    proof {
                        let k = round as int;
                        let si = choose|si: int| round_ok_rel(pre, *self, rn, si);
                        assert(rounds_rel(validated, pre, k - 1));
                        assert(k as i32 == rn);
                        assert(round_ok_rel(pre, *self, k as i32, si));
                        assert(rounds_rel(validated, *self, k));
                    }
                },
                Err(e) => {
                    proof {
                        assert(round_aborts(pre, rn));
                        assert(rounds_rel(validated, pre, round - 1));
                        assert(0 <= round - 1 < old(self).number_of_rounds as int);
                        assert(round_aborts(pre, (round - 1 + 1) as i32));
                    }
                    return Err(e);
                },
            }
            round = round + 1;
        }
        proof {
            assert(rounds_rel(validated, *self, old(self).number_of_rounds as int));
            assert(played_rel(*old(self), *self));
        }
        Ok(())
    }
}

/// Decides whether a bet value backs the winning slot.
fn wins(v: &BetValue, slot: &Slot) -> (r: bool)
    ensures
        r == bet_wins(*v, *slot),
{
    match v {
        BetValue::AdjacentNumbers(a) => {
            let m = a.numbers.len();
            let mut j: usize = 0;
            while j < m
                invariant
                    j <= m,
                    m == a.numbers@.len(),
                    *v == BetValue::AdjacentNumbers(*a),
                    forall|l: int| 0 <= l < j ==> a.numbers@[l] != slot.number,
                decreases m - j,
            {
                if a.numbers[j] == slot.number {
                    proof {
                        assert(a.numbers@.contains(slot.number)) by {
                            assert(a.numbers@[j as int] == slot.number);
                        }
                        assert(bet_wins(*v, *slot));
                    }
                    return true;
                }
                j = j + 1;
            }
            proof {
                assert(!a.numbers@.contains(slot.number));
            }
            false
        },
        BetValue::Color(c) => *c == slot.color,
        BetValue::Column(c) => *c == slot.column,
        BetValue::DoubleColumn(d) => d.columns[0] == slot.column || d.columns[1] == slot.column,
        BetValue::Dozen(d) => *d == slot.dozen,
        BetValue::EvenOdd(e) => *e == slot.even_odd,
        BetValue::Half(h) => *h == slot.half,
        BetValue::Number(n) => *n == slot.number,
        BetValue::Row(r) => *r == slot.row,
    }
}

/// The payout multiplier of a bet value (stake included).
fn multiplier(v: &BetValue) -> (r: i64)
    ensures
        r == payout_multiplier(*v),
{
    match v {
        BetValue::AdjacentNumbers(a) => {
            let m = a.numbers.len();
            if m == 2 {
                18
            } else if m == 3 {
                12
            } else if m == 4 {
                9
            } else {
                0
            }
        },
        BetValue::Color(_) => 2,
        BetValue::Column(_) => 12,
        BetValue::DoubleColumn(_) => 6,
        BetValue::Dozen(_) => 3,
        BetValue::EvenOdd(_) => 2,
        BetValue::Half(_) => 2,
        BetValue::Number(_) => 36,
        BetValue::Row(_) => 3,
    }
}

} // verus!
