use vstd::prelude::*;

use crate::agent::{fits_i64, Agent};
use crate::bet::{Bet, BetLog, BetState};
use crate::bet_value::{bet_type_name, bet_value_string};
use crate::game::RouletteGame;

verus! {

/// The signature that identifies "the same bet" across agents and games:
/// the bet's type tag, its value string, its initial stake and its
/// progression factor.
#[derive(Debug, Clone)]
pub struct BetHash {
    pub bet_type: String,
    pub bet_value: String,
    pub initial_amount_cents: i64,
    pub progression_factor: i64,
}

impl PartialEq for BetHash {
    fn eq(&self, other: &BetHash) -> (r: bool) {
        self.bet_type == other.bet_type && self.bet_value == other.bet_value
            && self.initial_amount_cents == other.initial_amount_cents
            && self.progression_factor == other.progression_factor
    }
}

impl vstd::std_specs::cmp::PartialEqSpecImpl for BetHash {
    open spec fn obeys_eq_spec() -> bool {
        true
    }

    open spec fn eq_spec(&self, other: &BetHash) -> bool {
        &&& self.bet_type@ == other.bet_type@
        &&& self.bet_value@ == other.bet_value@
        &&& self.initial_amount_cents == other.initial_amount_cents
        &&& self.progression_factor == other.progression_factor
    }
}

impl BetHash {
    /// Builds the signature of a bet.
    pub fn from_bet(b: &Bet) -> (r: BetHash)
        requires
            b.bet_value.displayable(),
        ensures
            r.bet_type@ == bet_type_name(b.bet_value),
            r.bet_value@ == bet_value_string(b.bet_value),
            r.initial_amount_cents == b.initial_amount_cents,
            r.progression_factor == b.progression_factor,
    {
        BetHash {
            bet_type: b.bet_value.get_type(),
            bet_value: b.bet_value.get_value_string(),
            initial_amount_cents: b.initial_amount_cents,
            progression_factor: b.progression_factor,
        }
    }
}

/// One per-game win ratio of a bet: how many of its logged rounds it won.
#[derive(Debug, PartialEq, Eq, Structural, Hash, Copy, Clone)]
pub struct WinRatio {
    pub wins: u64,
    pub rounds: u64,
}

/// One agent name with its final balance averaged over the games. The
/// mean is taken over the whole batch (division by the total game count),
/// not over the games naming this agent; the two coincide for batches the
/// runner produces, since every game plays a copy of the same roster.
#[derive(Debug, Clone)]
pub struct AgentBalance {
    pub agent_name: String,
    pub average_balance_cents: i64,
}

/// One (agent, bet signature) row of the report: the per-game win ratios,
/// the average income in cents, and the longest loss streak over all
/// games.
#[derive(Debug, Clone)]
pub struct BetStatEntry {
    pub agent_name: String,
    pub bet_hash: BetHash,
    pub win_ratios: Vec<WinRatio>,
    pub average_bet_income: i64,
    pub longest_loss_streak: u64,
}

/// The aggregate report built once from a batch of completed games.
#[derive(Debug, Clone)]
pub struct Stats {
    pub number_of_games: usize,
    pub average_agent_balances: Vec<AgentBalance>,
    pub bet_statistics: Vec<BetStatEntry>,
}

/// Division truncating toward zero, as the cent amounts are averaged.
pub open spec fn div_trunc(a: int, b: int) -> int {
    if a >= 0 {
        a / b
    } else {
        -((-a) / b)
    }
}

/// How many entries of a bet log are `Won`.
pub open spec fn wins_in_log(logs: Seq<BetLog>) -> int
    decreases logs.len(),
{
    if logs.len() == 0 {
        0
    } else {
        wins_in_log(logs.drop_last()) + if logs.last().bet_state is Won {
            1int
        } else {
            0int
        }
    }
}

/// The net income of a bet log: winning stakes added, losing stakes
/// subtracted, `Active`/`Inactive` entries contributing nothing.
pub open spec fn income_of_log(logs: Seq<BetLog>) -> int
    decreases logs.len(),
{
    if logs.len() == 0 {
        0
    } else {
        income_of_log(logs.drop_last()) + if logs.last().bet_state is Won {
            logs.last().amount_cents as int
        } else if logs.last().bet_state is Lost {
            -(logs.last().amount_cents as int)
        } else {
            0int
        }
    }
}

/// The longest run of consecutive `Lost` entries, carried as a running
/// (current, best) pair: a non-`Lost` entry resets the run before the
/// comparison against the best.
pub open spec fn streak_from(logs: Seq<BetLog>, cur: int, best: int) -> int
    decreases logs.len(),
{
    if logs.len() == 0 {
        best
    } else {
        let cur2 = if logs[0].bet_state is Lost {
            cur + 1
        } else {
            0int
        };
        let best2 = if cur2 > best {
            cur2
        } else {
            best
        };
        streak_from(logs.drop_first(), cur2, best2)
    }
}

/// The longest run of consecutive `Lost` entries in a bet log.
pub open spec fn longest_loss_streak_of(logs: Seq<BetLog>) -> int {
    streak_from(logs, 0, 0)
}

/// The spec-level key of a report row.
#[verifier::ext_equal]
pub struct BetKey {
    pub agent_name: Seq<char>,
    pub bet_type: Seq<char>,
    pub bet_value: Seq<char>,
    pub initial_amount_cents: int,
    pub progression_factor: int,
}

/// The spec-level accumulation of one report row, before averaging.
#[verifier::ext_equal]
pub struct BetAccum {
    pub key: BetKey,
    pub ratios: Seq<(int, int)>,
    pub income_sum: int,
    pub longest_streak: int,
}

/// The key a bet contributes under for a given agent name.
pub open spec fn bet_key_of(name: Seq<char>, b: Bet) -> BetKey {
    BetKey {
        agent_name: name,
        bet_type: bet_type_name(b.bet_value),
        bet_value: bet_value_string(b.bet_value),
        initial_amount_cents: b.initial_amount_cents as int,
        progression_factor: b.progression_factor as int,
    }
}

/// The first index of the accumulator holding the given key.
pub open spec fn find_key(acc: Seq<BetAccum>, k: BetKey) -> Option<int>
    decreases acc.len(),
{
    if acc.len() == 0 {
        None
    } else if acc[0].key == k {
        Some(0)
    } else {
        match find_key(acc.drop_first(), k) {
            Some(j) => Some(j + 1),
            None => None,
        }
    }
}

proof fn lemma_find_key_characterize(acc: Seq<BetAccum>, k: BetKey)
    ensures
        match find_key(acc, k) {
            Some(j) => 0 <= j < acc.len() && acc[j].key == k && forall|i: int|
                0 <= i < j ==> (#[trigger] acc[i]).key != k,
            None => forall|i: int| 0 <= i < acc.len() ==> (#[trigger] acc[i]).key != k,
        },
    decreases acc.len(),
{
    if acc.len() > 0 {
        lemma_find_key_characterize(acc.drop_first(), k);
        assert(forall|i: int| 1 <= i < acc.len() ==> acc.drop_first()[i - 1] == #[trigger] acc[i]);
    }
}

/// Folds one bet of one agent into the accumulator: its per-game ratio is
/// appended, its income added, and its loss streak compared against the
/// running maximum. `None` when the bet cannot be displayed or an income
/// sum leaves the `i64` range.
pub open spec fn add_bet(acc: Seq<BetAccum>, name: Seq<char>, b: Bet) -> Option<Seq<BetAccum>> {
    if !b.bet_value.displayable() {
        None
    } else {
        let k = bet_key_of(name, b);
        let w = wins_in_log(b.bet_logs@);
        let rds = b.bet_logs@.len() as int;
        let inc = income_of_log(b.bet_logs@);
        let st = longest_loss_streak_of(b.bet_logs@);
        if !fits_i64(inc) {
            None
        } else {
            match find_key(acc, k) {
                Some(j) => if fits_i64(acc[j].income_sum + inc) {
                    Some(
                        acc.update(
                            j,
                            BetAccum {
                                key: acc[j].key,
                                ratios: acc[j].ratios.push((w, rds)),
                                income_sum: acc[j].income_sum + inc,
                                longest_streak: if st > acc[j].longest_streak {
                                    st
                                } else {
                                    acc[j].longest_streak
                                },
                            },
                        ),
                    )
                } else {
                    None
                },
                None => Some(
                    acc.push(
                        BetAccum {
                            key: k,
                            ratios: seq![(w, rds)],
                            income_sum: inc,
                            longest_streak: st,
                        },
                    ),
                ),
            }
        }
    }
}

/// Folds one agent's bets, in order, into the accumulator.
pub open spec fn add_agent_bets(acc: Seq<BetAccum>, name: Seq<char>, bets: Seq<Bet>) -> Option<
    Seq<BetAccum>,
>
    decreases bets.len(),
{
    if bets.len() == 0 {
        Some(acc)
    } else {
        match add_agent_bets(acc, name, bets.drop_last()) {
            Some(a) => add_bet(a, name, bets.last()),
            None => None,
        }
    }
}

/// Folds one game's agents, in order, into the accumulator.
pub open spec fn add_game_bets(acc: Seq<BetAccum>, agents: Seq<Agent>) -> Option<Seq<BetAccum>>
    decreases agents.len(),
{
    if agents.len() == 0 {
        Some(acc)
    } else {
        match add_game_bets(acc, agents.drop_last()) {
            Some(a) => add_agent_bets(a, agents.last().name@, agents.last().strategic_bets@),
            None => None,
        }
    }
}

/// The bet-level accumulation over a batch of games, in order.
pub open spec fn bet_stats_spec(games: Seq<RouletteGame>) -> Option<Seq<BetAccum>>
    decreases games.len(),
{
    if games.len() == 0 {
        Some(Seq::empty())
    } else {
        match bet_stats_spec(games.drop_last()) {
            Some(a) => add_game_bets(a, games.last().agents@),
            None => None,
        }
    }
}

/// The first index of the balance accumulator holding the given name.
pub open spec fn find_name(acc: Seq<(Seq<char>, int)>, name: Seq<char>) -> Option<int>
    decreases acc.len(),
{
    if acc.len() == 0 {
        None
    } else if acc[0].0 == name {
        Some(0)
    } else {
        match find_name(acc.drop_first(), name) {
            Some(j) => Some(j + 1),
            None => None,
        }
    }
}

proof fn lemma_find_name_characterize(acc: Seq<(Seq<char>, int)>, name: Seq<char>)
    ensures
        match find_name(acc, name) {
            Some(j) => 0 <= j < acc.len() && acc[j].0 == name && forall|i: int|
                0 <= i < j ==> (#[trigger] acc[i]).0 != name,
            None => forall|i: int| 0 <= i < acc.len() ==> (#[trigger] acc[i]).0 != name,
        },
    decreases acc.len(),
{
    if acc.len() > 0 {
        lemma_find_name_characterize(acc.drop_first(), name);
        assert(forall|i: int| 1 <= i < acc.len() ==> acc.drop_first()[i - 1] == #[trigger] acc[i]);
    }
}

/// Folds one agent's final balance into the per-name sums. `None` when a
/// sum leaves the `i64` range.
pub open spec fn add_balance(acc: Seq<(Seq<char>, int)>, name: Seq<char>, bal: int) -> Option<
    Seq<(Seq<char>, int)>,
> {
    match find_name(acc, name) {
        Some(j) => if fits_i64(acc[j].1 + bal) {
            Some(acc.update(j, (acc[j].0, acc[j].1 + bal)))
        } else {
            None
        },
        None => Some(acc.push((name, bal))),
    }
}

/// Folds one game's agent balances, in order, into the per-name sums.
pub open spec fn add_game_balances(acc: Seq<(Seq<char>, int)>, agents: Seq<Agent>) -> Option<
    Seq<(Seq<char>, int)>,
>
    decreases agents.len(),
{
    if agents.len() == 0 {
        Some(acc)
    } else {
        match add_game_balances(acc, agents.drop_last()) {
            Some(a) => add_balance(a, agents.last().name@, agents.last().balance_cents as int),
            None => None,
        }
    }
}

/// The per-name balance sums over a batch of games, in order.
pub open spec fn balances_spec(games: Seq<RouletteGame>) -> Option<Seq<(Seq<char>, int)>>
    decreases games.len(),
{
    if games.len() == 0 {
        Some(Seq::empty())
    } else {
        match balances_spec(games.drop_last()) {
            Some(a) => add_game_balances(a, games.last().agents@),
            None => None,
        }
    }
}

pub open spec fn bal_view(es: Seq<AgentBalance>) -> Seq<(Seq<char>, int)> {
    es.map_values(|e: AgentBalance| (e.agent_name@, e.average_balance_cents as int))
}

pub open spec fn entry_key(e: BetStatEntry) -> BetKey {
    BetKey {
        agent_name: e.agent_name@,
        bet_type: e.bet_hash.bet_type@,
        bet_value: e.bet_hash.bet_value@,
        initial_amount_cents: e.bet_hash.initial_amount_cents as int,
        progression_factor: e.bet_hash.progression_factor as int,
    }
}

pub open spec fn entry_view(e: BetStatEntry) -> BetAccum {
    BetAccum {
        key: entry_key(e),
        ratios: e.win_ratios@.map_values(|w: WinRatio| (w.wins as int, w.rounds as int)),
        income_sum: e.average_bet_income as int,
        longest_streak: e.longest_loss_streak as int,
    }
}

pub open spec fn entries_view(es: Seq<BetStatEntry>) -> Seq<BetAccum> {
    es.map_values(|e: BetStatEntry| entry_view(e))
}

proof fn lemma_balances_prefix(games: Seq<RouletteGame>, k: int)
    requires
        balances_spec(games) is Some,
        0 <= k <= games.len(),
    ensures
        balances_spec(games.take(k)) is Some,
    decreases games.len(),
{
    if k == games.len() {
        assert(games.take(k) =~= games);
    } else {
        assert(games.take(k) =~= games.drop_last().take(k));
        lemma_balances_prefix(games.drop_last(), k);
    }
}

proof fn lemma_balances_none_extends(games: Seq<RouletteGame>, k: int)
    requires
        0 <= k <= games.len(),
        balances_spec(games.take(k)) is None,
    ensures
        balances_spec(games) is None,
    decreases games.len(),
{
    if k == games.len() {
        assert(games.take(k) =~= games);
    } else {
        assert(games.take(k) =~= games.drop_last().take(k));
        lemma_balances_none_extends(games.drop_last(), k);
    }
}

proof fn lemma_game_balances_prefix(acc: Seq<(Seq<char>, int)>, agents: Seq<Agent>, k: int)
    requires
        add_game_balances(acc, agents) is Some,
        0 <= k <= agents.len(),
    ensures
        add_game_balances(acc, agents.take(k)) is Some,
    decreases agents.len(),
{
    if k == agents.len() {
        assert(agents.take(k) =~= agents);
    } else {
        assert(agents.take(k) =~= agents.drop_last().take(k));
        lemma_game_balances_prefix(acc, agents.drop_last(), k);
    }
}

proof fn lemma_game_balances_none_extends(acc: Seq<(Seq<char>, int)>, agents: Seq<Agent>, k: int)
    requires
        0 <= k <= agents.len(),
        add_game_balances(acc, agents.take(k)) is None,
    ensures
        add_game_balances(acc, agents) is None,
    decreases agents.len(),
{
    if k == agents.len() {
        assert(agents.take(k) =~= agents);
    } else {
        assert(agents.take(k) =~= agents.drop_last().take(k));
        lemma_game_balances_none_extends(acc, agents.drop_last(), k);
    }
}

proof fn lemma_bet_stats_prefix(games: Seq<RouletteGame>, k: int)
    requires
        bet_stats_spec(games) is Some,
        0 <= k <= games.len(),
    ensures
        bet_stats_spec(games.take(k)) is Some,
    decreases games.len(),
{
    if k == games.len() {
        assert(games.take(k) =~= games);
    } else {
        assert(games.take(k) =~= games.drop_last().take(k));
        lemma_bet_stats_prefix(games.drop_last(), k);
    }
}

proof fn lemma_bet_stats_none_extends(games: Seq<RouletteGame>, k: int)
    requires
        0 <= k <= games.len(),
        bet_stats_spec(games.take(k)) is None,
    ensures
        bet_stats_spec(games) is None,
    decreases games.len(),
{
    if k == games.len() {
        assert(games.take(k) =~= games);
    } else {
        assert(games.take(k) =~= games.drop_last().take(k));
        lemma_bet_stats_none_extends(games.drop_last(), k);
    }
}

proof fn lemma_game_bets_prefix(acc: Seq<BetAccum>, agents: Seq<Agent>, k: int)
    requires
        add_game_bets(acc, agents) is Some,
        0 <= k <= agents.len(),
    ensures
        add_game_bets(acc, agents.take(k)) is Some,
    decreases agents.len(),
{
    if k == agents.len() {
        assert(agents.take(k) =~= agents);
    } else {
        assert(agents.take(k) =~= agents.drop_last().take(k));
        lemma_game_bets_prefix(acc, agents.drop_last(), k);
    }
}

proof fn lemma_game_bets_none_extends(acc: Seq<BetAccum>, agents: Seq<Agent>, k: int)
    requires
        0 <= k <= agents.len(),
        add_game_bets(acc, agents.take(k)) is None,
    ensures
        add_game_bets(acc, agents) is None,
    decreases agents.len(),
{
    if k == agents.len() {
        assert(agents.take(k) =~= agents);
    } else {
        assert(agents.take(k) =~= agents.drop_last().take(k));
        lemma_game_bets_none_extends(acc, agents.drop_last(), k);
    }
}

proof fn lemma_agent_bets_prefix(acc: Seq<BetAccum>, name: Seq<char>, bets: Seq<Bet>, k: int)
    requires
        add_agent_bets(acc, name, bets) is Some,
        0 <= k <= bets.len(),
    ensures
        add_agent_bets(acc, name, bets.take(k)) is Some,
    decreases bets.len(),
{
    if k == bets.len() {
        assert(bets.take(k) =~= bets);
    } else {
        assert(bets.take(k) =~= bets.drop_last().take(k));
        lemma_agent_bets_prefix(acc, name, bets.drop_last(), k);
    }
}

proof fn lemma_agent_bets_none_extends(acc: Seq<BetAccum>, name: Seq<char>, bets: Seq<Bet>, k: int)
    requires
        0 <= k <= bets.len(),
        add_agent_bets(acc, name, bets.take(k)) is None,
    ensures
        add_agent_bets(acc, name, bets) is None,
    decreases bets.len(),
{
    if k == bets.len() {
        assert(bets.take(k) =~= bets);
    } else {
        assert(bets.take(k) =~= bets.drop_last().take(k));
        lemma_agent_bets_none_extends(acc, name, bets.drop_last(), k);
    }
}

/// Counts the `Won` entries of a bet log.
fn log_wins(logs: &Vec<BetLog>) -> (r: u64)
    ensures
        r as int == wins_in_log(logs@),
{
    let n = logs.len();
    let mut w: u64 = 0;
    let mut i: usize = 0;
    proof {
        assert(logs@.take(0) =~= Seq::<BetLog>::empty());
    }
    while i < n
        invariant
            i <= n,
            n == logs@.len(),
            w as int == wins_in_log(logs@.take(i as int)),
            w <= i,
        decreases n - i,
    {
        proof {
            assert(logs@.take(i + 1).drop_last() =~= logs@.take(i as int));
            assert(logs@.take(i + 1).last() == logs@[i as int]);
        }
        if matches!(logs[i].bet_state, BetState::Won) {
            w = w + 1;
        }
        i = i + 1;
    }
    proof {
        assert(logs@.take(n as int) =~= logs@);
    }
    w
}

/// Computes the net income of a bet log.
fn log_income(logs: &Vec<BetLog>) -> (r: i128)
    ensures
        r as int == income_of_log(logs@),
{
    let n = logs.len();
    let mut acc: i128 = 0;
    let mut i: usize = 0;
    proof {
        assert(logs@.take(0) =~= Seq::<BetLog>::empty());
    }
    while i < n
        invariant
            i <= n,
            n == logs@.len(),
            acc as int == income_of_log(logs@.take(i as int)),
            acc as int <= i * 0x8000_0000_0000_0000,
            -(acc as int) <= i * 0x8000_0000_0000_0000,
        decreases n - i,
    {
        proof {
            assert(logs@.take(i + 1).drop_last() =~= logs@.take(i as int));
            assert(logs@.take(i + 1).last() == logs@[i as int]);
        }
        if matches!(logs[i].bet_state, BetState::Won) {
            acc = acc + logs[i].amount_cents as i128;
        } else if matches!(logs[i].bet_state, BetState::Lost) {
            acc = acc - logs[i].amount_cents as i128;
        }
        i = i + 1;
    }
    proof {
        assert(logs@.take(n as int) =~= logs@);
    }
    acc
}

/// Computes the longest run of consecutive `Lost` entries of a bet log.
fn log_streak(logs: &Vec<BetLog>) -> (r: u64)
    ensures
        r as int == longest_loss_streak_of(logs@),
{
    let n = logs.len();
    let mut cur: u64 = 0;
    let mut best: u64 = 0;
    let mut i: usize = 0;
    proof {
        assert(logs@.skip(0) =~= logs@);
    }
    while i < n
        invariant
            i <= n,
            n == logs@.len(),
            cur <= i,
            best <= i,
            streak_from(logs@, 0, 0) == streak_from(logs@.skip(i as int), cur as int, best as int),
        decreases n - i,
    {
        proof {
            assert(logs@.skip(i as int)[0] == logs@[i as int]);
            assert(logs@.skip(i as int).drop_first() =~= logs@.skip(i + 1));
        }
        if matches!(logs[i].bet_state, BetState::Lost) {
            cur = cur + 1;
        } else {
            cur = 0;
        }
        if cur > best {
            best = cur;
        }
        i = i + 1;
    }
    proof {
        assert(logs@.skip(n as int) =~= Seq::<BetLog>::empty());
    }
    best
}

/// Finds the first balance row of the given agent name.
fn find_balance_idx(es: &Vec<AgentBalance>, name: &String) -> (r: Option<usize>)
    ensures
        match r {
            Some(j) => find_name(bal_view(es@), name@) == Some(j as int),
            None => find_name(bal_view(es@), name@) is None,
        },
{
    let n = es.len();
    let mut i: usize = 0;
    while i < n
        invariant
            i <= n,
            n == es@.len(),
            forall|l: int| 0 <= l < i ==> (#[trigger] bal_view(es@)[l]).0 != name@,
        decreases n - i,
    {
        if es[i].agent_name == *name {
            proof {
                assert(bal_view(es@)[i as int].0 == name@);
                lemma_find_name_characterize(bal_view(es@), name@);
            }
            return Some(i);
        }
        proof {
            assert(bal_view(es@)[i as int].0 != name@);
        }
        i = i + 1;
    }
    proof {
        lemma_find_name_characterize(bal_view(es@), name@);
    }
    None
}

/// Finds the first report row of the given agent name and bet signature.
fn find_entry_idx(es: &Vec<BetStatEntry>, name: &String, hash: &BetHash) -> (r: Option<usize>)
    ensures
        match r {
            Some(j) => find_key(
                entries_view(es@),
                BetKey {
                    agent_name: name@,
                    bet_type: hash.bet_type@,
                    bet_value: hash.bet_value@,
                    initial_amount_cents: hash.initial_amount_cents as int,
                    progression_factor: hash.progression_factor as int,
                },
            ) == Some(j as int),
            None => find_key(
                entries_view(es@),
                BetKey {
                    agent_name: name@,
                    bet_type: hash.bet_type@,
                    bet_value: hash.bet_value@,
                    initial_amount_cents: hash.initial_amount_cents as int,
                    progression_factor: hash.progression_factor as int,
                },
            ) is None,
        },
{
    let ghost k = BetKey {
        agent_name: name@,
        bet_type: hash.bet_type@,
        bet_value: hash.bet_value@,
        initial_amount_cents: hash.initial_amount_cents as int,
        progression_factor: hash.progression_factor as int,
    };
    let n = es.len();
    let mut i: usize = 0;
    while i < n
        invariant
            i <= n,
            n == es@.len(),
            k == (BetKey {
                agent_name: name@,
                bet_type: hash.bet_type@,
                bet_value: hash.bet_value@,
                initial_amount_cents: hash.initial_amount_cents as int,
                progression_factor: hash.progression_factor as int,
            }),
            forall|l: int| 0 <= l < i ==> (#[trigger] entries_view(es@)[l]).key != k,
        decreases n - i,
    {
        if es[i].agent_name == *name && es[i].bet_hash == *hash {
            proof {
                assert(entries_view(es@)[i as int].key == k);
                lemma_find_key_characterize(entries_view(es@), k);
            }
            return Some(i);
        }
        proof {
            assert(entries_view(es@)[i as int].key != k);
        }
        i = i + 1;
    }
    proof {
        lemma_find_key_characterize(entries_view(es@), k);
    }
    None
}

/// What a built report states relative to the two accumulation folds: the
/// balance rows hold the averaged per-name balances and the bet rows hold
/// the per-game win ratios, the averaged income, and the maximal loss
/// streak, in first-occurrence order.
pub open spec fn stats_matches(s: Stats, games: Seq<RouletteGame>) -> bool {
    let bals = balances_spec(games).unwrap();
    let accs = bet_stats_spec(games).unwrap();
    let n = games.len() as int;
    &&& s.number_of_games == games.len()
    &&& s.average_agent_balances@.len() == bals.len()
    &&& (forall|k: int|
        0 <= k < bals.len() ==> {
            let e = #[trigger] s.average_agent_balances@[k];
            &&& e.agent_name@ == bals[k].0
            &&& e.average_balance_cents as int == div_trunc(bals[k].1, n)
        })
    &&& s.bet_statistics@.len() == accs.len()
    &&& (forall|k: int|
        0 <= k < accs.len() ==> {
            let e = #[trigger] s.bet_statistics@[k];
            &&& entry_key(e) == accs[k].key
            &&& e.win_ratios@.map_values(|w: WinRatio| (w.wins as int, w.rounds as int))
                == accs[k].ratios
            &&& e.average_bet_income as int == div_trunc(accs[k].income_sum, n)
            &&& e.longest_loss_streak as int == accs[k].longest_streak
        })
}

/// Truncating division of a cent sum by the number of games.
fn div_cents(a: i64, n: usize) -> (r: i64)
    requires
        n > 0,
    ensures
        r as int == div_trunc(a as int, n as int),
{
    let nn: i128 = n as i128;
    if a >= 0 {
        ((a as i128) / nn) as i64
    } else {
        (-((-(a as i128)) / nn)) as i64
    }
}

impl Stats {
    /// Builds the report, checking as it goes that every accumulated sum
    /// stays representable. `None` exactly when an accumulated sum leaves
    /// the `i64` range or a bet's value string is undefined.
    pub fn try_from_games(games: &Vec<RouletteGame>) -> (r: Option<Stats>)
        ensures
            match r {
                Some(s) => {
                    &&& balances_spec(games@) is Some
                    &&& bet_stats_spec(games@) is Some
                    &&& stats_matches(s, games@)
                },
                None => balances_spec(games@) is None || bet_stats_spec(games@) is None,
            },
    {
        let n_games = games.len();
        let mut balances: Vec<AgentBalance> = Vec::new();
        let mut gi: usize = 0;
        proof {
            assert(games@.take(0) =~= Seq::<RouletteGame>::empty());
        }
        while gi < n_games
            invariant
                gi <= n_games,
                n_games == games@.len(),
                balances_spec(games@.take(gi as int)) == Some(bal_view(balances@)),
            decreases n_games - gi,
        {
            let g = &games[gi];
            let ghost acc0 = bal_view(balances@);
            let m = g.agents.len();
            let mut ai: usize = 0;
            proof {
                assert(g.agents@.take(0) =~= Seq::<Agent>::empty());
            }
            while ai < m
                invariant
                    ai <= m,
                    m == g.agents@.len(),
                    gi < games@.len(),
                    n_games == games@.len(),
                    *g == games@[gi as int],
                    balances_spec(games@.take(gi as int)) == Some(acc0),
                    add_game_balances(acc0, g.agents@.take(ai as int)) == Some(
                        bal_view(balances@),
                    ),
                decreases m - ai,
            {
                proof {
                    assert(g.agents@.take(ai + 1).drop_last() =~= g.agents@.take(ai as int));
                    assert(g.agents@.take(ai + 1).last() == g.agents@[ai as int]);
                }
                let a = &g.agents[ai];
                let found = find_balance_idx(&balances, &a.name);
                match found {
                    Some(j) => {
                        proof {
                            lemma_find_name_characterize(bal_view(balances@), a.name@);
                        }
                        let s: i128 = balances[j].average_balance_cents as i128
                            + a.balance_cents as i128;
                        if s > i64::MAX as i128 || s < i64::MIN as i128 {
                            proof {
                                assert(add_balance(
                                    bal_view(balances@),
                                    a.name@,
                                    a.balance_cents as int,
                                ) is None);
                                assert(add_game_balances(acc0, g.agents@.take(ai + 1)) is None);
                                lemma_game_balances_none_extends(acc0, g.agents@, ai + 1);
                                assert(games@.take(gi + 1).drop_last() =~= games@.take(gi as int));
                                assert(games@.take(gi + 1).last() == games@[gi as int]);
                                assert(balances_spec(games@.take(gi + 1)) is None);
                                lemma_balances_none_extends(games@, gi + 1);
                            }
                            return None;
                        }
                        let ghost pre = balances@;
                        balances[j].average_balance_cents = s as i64;
                        proof {
                            assert(bal_view(balances@) =~= bal_view(pre).update(
                                j as int,
                                (bal_view(pre)[j as int].0, bal_view(pre)[j as int].1
                                    + a.balance_cents as int),
                            ));
                        }
                    },
                    None => {
                        let ghost pre = balances@;
                        balances.push(
                            AgentBalance {
                                agent_name: a.name.clone(),
                                average_balance_cents: a.balance_cents,
                            },
                        );
                        proof {
                            assert(bal_view(balances@) =~= bal_view(pre).push(
                                (a.name@, a.balance_cents as int),
                            ));
                        }
                    },
                }
                ai = ai + 1;
            }
            proof {
                assert(g.agents@.take(m as int) =~= g.agents@);
                assert(games@.take(gi + 1).drop_last() =~= games@.take(gi as int));
                assert(games@.take(gi + 1).last() == games@[gi as int]);
            }
            gi = gi + 1;
        }
        proof {
            assert(games@.take(n_games as int) =~= games@);
        }
        let ghost bal_sums = bal_view(balances@);

        let mut entries: Vec<BetStatEntry> = Vec::new();
        let mut gi2: usize = 0;
        proof {
            assert(games@.take(0) =~= Seq::<RouletteGame>::empty());
            assert(entries_view(entries@) =~= Seq::<BetAccum>::empty());
        }
        while gi2 < n_games
            invariant
                gi2 <= n_games,
                n_games == games@.len(),
                balances_spec(games@) == Some(bal_sums),
                bal_sums == bal_view(balances@),
                bet_stats_spec(games@.take(gi2 as int)) == Some(entries_view(entries@)),
            decreases n_games - gi2,
        {
            let g = &games[gi2];
            let ghost eacc0 = entries_view(entries@);
            let m = g.agents.len();
            let mut ai: usize = 0;
            proof {
                assert(g.agents@.take(0) =~= Seq::<Agent>::empty());
            }
            while ai < m
                invariant
                    ai <= m,
                    m == g.agents@.len(),
                    gi2 < games@.len(),
                    n_games == games@.len(),
                    *g == games@[gi2 as int],
                    bet_stats_spec(games@.take(gi2 as int)) == Some(eacc0),
                    add_game_bets(eacc0, g.agents@.take(ai as int)) == Some(
                        entries_view(entries@),
                    ),
                decreases m - ai,
            {
                proof {
                    assert(g.agents@.take(ai + 1).drop_last() =~= g.agents@.take(ai as int));
                    assert(g.agents@.take(ai + 1).last() == g.agents@[ai as int]);
                }
                let a = &g.agents[ai];
                let ghost aacc0 = entries_view(entries@);
                let bn = a.strategic_bets.len();
                let mut bi: usize = 0;
                proof {
                    assert(a.strategic_bets@.take(0) =~= Seq::<Bet>::empty());
                }
                while bi < bn
                    invariant
                        bi <= bn,
                        bn == a.strategic_bets@.len(),
                        gi2 < games@.len(),
                        ai < games@[gi2 as int].agents@.len(),
                        n_games == games@.len(),
                        *g == games@[gi2 as int],
                        *a == games@[gi2 as int].agents@[ai as int],
                        bet_stats_spec(games@.take(gi2 as int)) == Some(eacc0),
                        add_game_bets(eacc0, g.agents@.take(ai as int)) == Some(aacc0),
                        add_agent_bets(aacc0, a.name@, a.strategic_bets@.take(bi as int))
                            == Some(entries_view(entries@)),
                    decreases bn - bi,
                {
                    proof {
                        assert(a.strategic_bets@.take(bi + 1).drop_last() =~= a.strategic_bets@
                            .take(bi as int));
                        assert(a.strategic_bets@.take(bi + 1).last()
                            == a.strategic_bets@[bi as int]);
                    }
                    let b = &a.strategic_bets[bi];
                    let displayable = match &b.bet_value {
                        crate::bet_value::BetValue::AdjacentNumbers(x) => x.numbers.len() > 0,
                        _ => true,
                    };
                    if !displayable {
                        proof {
                            assert(add_bet(entries_view(entries@), a.name@, *b) is None);
                            assert(add_agent_bets(
                                aacc0,
                                a.name@,
                                a.strategic_bets@.take(bi + 1),
                            ) is None);
                            lemma_agent_bets_none_extends(
                                aacc0,
                                a.name@,
                                a.strategic_bets@,
                                bi + 1,
                            );
                            assert(g.agents@.take(ai + 1).drop_last() =~= g.agents@.take(
                                ai as int,
                            ));
                            assert(g.agents@.take(ai + 1).last() == g.agents@[ai as int]);
                            assert(add_game_bets(eacc0, g.agents@.take(ai + 1)) is None);
                            lemma_game_bets_none_extends(eacc0, g.agents@, ai + 1);
                            assert(games@.take(gi2 + 1).drop_last() =~= games@.take(gi2 as int));
                            assert(games@.take(gi2 + 1).last() == games@[gi2 as int]);
                            assert(bet_stats_spec(games@.take(gi2 + 1)) is None);
                            lemma_bet_stats_none_extends(games@, gi2 + 1);
                        }
                        return None;
                    }
                    let hash = BetHash::from_bet(b);
                    let w = log_wins(&b.bet_logs);
                    let rounds = b.bet_logs.len() as u64;
                    let inc = log_income(&b.bet_logs);
                    let st = log_streak(&b.bet_logs);
                    if inc > i64::MAX as i128 || inc < i64::MIN as i128 {
                        proof {
                            assert(add_bet(entries_view(entries@), a.name@, *b) is None);
                            assert(add_agent_bets(
                                aacc0,
                                a.name@,
                                a.strategic_bets@.take(bi + 1),
                            ) is None);
                            lemma_agent_bets_none_extends(
                                aacc0,
                                a.name@,
                                a.strategic_bets@,
                                bi + 1,
                            );
                            assert(g.agents@.take(ai + 1).drop_last() =~= g.agents@.take(
                                ai as int,
                            ));
                            assert(g.agents@.take(ai + 1).last() == g.agents@[ai as int]);
                            assert(add_game_bets(eacc0, g.agents@.take(ai + 1)) is None);
                            lemma_game_bets_none_extends(eacc0, g.agents@, ai + 1);
                            assert(games@.take(gi2 + 1).drop_last() =~= games@.take(gi2 as int));
                            assert(games@.take(gi2 + 1).last() == games@[gi2 as int]);
                            assert(bet_stats_spec(games@.take(gi2 + 1)) is None);
                            lemma_bet_stats_none_extends(games@, gi2 + 1);
                        }
                        return None;
                    }
                    let found = find_entry_idx(&entries, &a.name, &hash);
                    match found {
                        Some(j) => {
                            proof {
                                lemma_find_key_characterize(
                                    entries_view(entries@),
                                    bet_key_of(a.name@, *b),
                                );
                            }
                            let s: i128 = entries[j].average_bet_income as i128 + inc;
                            if s > i64::MAX as i128 || s < i64::MIN as i128 {
                                proof {
                                    assert(add_bet(entries_view(entries@), a.name@, *b)
                                        is None);
                                    assert(add_agent_bets(
                                        aacc0,
                                        a.name@,
                                        a.strategic_bets@.take(bi + 1),
                                    ) is None);
                                    lemma_agent_bets_none_extends(
                                        aacc0,
                                        a.name@,
                                        a.strategic_bets@,
                                        bi + 1,
                                    );
                                    assert(g.agents@.take(ai + 1).drop_last()
                                        =~= g.agents@.take(ai as int));
                                    assert(g.agents@.take(ai + 1).last()
                                        == g.agents@[ai as int]);
                                    assert(add_game_bets(eacc0, g.agents@.take(ai + 1))
                                        is None);
                                    lemma_game_bets_none_extends(eacc0, g.agents@, ai + 1);
                                    assert(games@.take(gi2 + 1).drop_last() =~= games@.take(
                                        gi2 as int,
                                    ));
                                    assert(games@.take(gi2 + 1).last()
                                        == games@[gi2 as int]);
                                    assert(bet_stats_spec(games@.take(gi2 + 1)) is None);
                                    lemma_bet_stats_none_extends(games@, gi2 + 1);
                                }
                                return None;
                            }
                            let ghost pre = entries@;
                            entries[j].win_ratios.push(WinRatio { wins: w, rounds });
                            entries[j].average_bet_income = s as i64;
                            if st > entries[j].longest_loss_streak {
                                entries[j].longest_loss_streak = st;
                            }
                            proof {
                                let old_acc = entries_view(pre);
                                let jj = j as int;
                                assert(entries_view(entries@) =~~= old_acc.update(
                                    jj,
                                    BetAccum {
                                        key: old_acc[jj].key,
                                        ratios: old_acc[jj].ratios.push(
                                            (w as int, rounds as int),
                                        ),
                                        income_sum: old_acc[jj].income_sum + (inc as int),
                                        longest_streak: if st as int
                                            > old_acc[jj].longest_streak {
                                            st as int
                                        } else {
                                            old_acc[jj].longest_streak
                                        },
                                    },
                                ));
                            }
                        },
                        None => {
                            let ghost pre = entries@;
                            let mut ratios: Vec<WinRatio> = Vec::new();
                            ratios.push(WinRatio { wins: w, rounds });
                            entries.push(
                                BetStatEntry {
                                    agent_name: a.name.clone(),
                                    bet_hash: hash,
                                    win_ratios: ratios,
                                    average_bet_income: inc as i64,
                                    longest_loss_streak: st,
                                },
                            );
                            proof {
                                assert(entries@.last().win_ratios@.map_values(
                                    |x: WinRatio| (x.wins as int, x.rounds as int),
                                ) =~= seq![(w as int, rounds as int)]);
                                assert(entries_view(entries@) =~~= entries_view(pre).push(
                                    BetAccum {
                                        key: bet_key_of(a.name@, *b),
                                        ratios: seq![(w as int, rounds as int)],
                                        income_sum: inc as int,
                                        longest_streak: st as int,
                                    },
                                ));
                            }
                        },
                    }
                    bi = bi + 1;
                }
                proof {
                    assert(a.strategic_bets@.take(bn as int) =~= a.strategic_bets@);
                }
                ai = ai + 1;
            }
            proof {
                assert(g.agents@.take(m as int) =~= g.agents@);
                assert(games@.take(gi2 + 1).drop_last() =~= games@.take(gi2 as int));
                assert(games@.take(gi2 + 1).last() == games@[gi2 as int]);
            }
            gi2 = gi2 + 1;
        }
        proof {
            assert(games@.take(n_games as int) =~= games@);
        }
        let ghost bet_sums = entries_view(entries@);

        if n_games > 0 {
            let nb = balances.len();
            let mut k: usize = 0;
            while k < nb
                invariant
                    k <= nb,
                    nb == balances@.len(),
                    n_games > 0,
                    n_games == games@.len(),
                    balances_spec(games@) == Some(bal_sums),
                    bal_sums.len() == nb,
                    forall|l: int|
                        k <= l < nb ==> (#[trigger] balances@[l]).agent_name@ == bal_sums[l].0
                            && balances@[l].average_balance_cents as int == bal_sums[l].1,
                    forall|l: int|
                        0 <= l < k ==> (#[trigger] balances@[l]).agent_name@ == bal_sums[l].0
                            && balances@[l].average_balance_cents as int == div_trunc(
                            bal_sums[l].1,
                            n_games as int,
                        ),
                decreases nb - k,
            {
                let s = balances[k].average_balance_cents;
                let q = div_cents(s, n_games);
                balances[k].average_balance_cents = q;
                k = k + 1;
            }
            let ne = entries.len();
            let mut k2: usize = 0;
            while k2 < ne
                invariant
                    k2 <= ne,
                    ne == entries@.len(),
                    n_games > 0,
                    n_games == games@.len(),
                    bet_stats_spec(games@) == Some(bet_sums),
                    bet_sums.len() == ne,
                    forall|l: int|
                        k2 <= l < ne ==> entry_view(#[trigger] entries@[l]) == bet_sums[l],
                    forall|l: int|
                        0 <= l < k2 ==> {
                            let e = #[trigger] entries@[l];
                            &&& entry_key(e) == bet_sums[l].key
                            &&& e.win_ratios@.map_values(
                                |x: WinRatio| (x.wins as int, x.rounds as int),
                            ) == bet_sums[l].ratios
                            &&& e.average_bet_income as int == div_trunc(
                                bet_sums[l].income_sum,
                                n_games as int,
                            )
                            &&& e.longest_loss_streak as int == bet_sums[l].longest_streak
                        },
                decreases ne - k2,
            {
                let s = entries[k2].average_bet_income;
                let q = div_cents(s, n_games);
                entries[k2].average_bet_income = q;
                k2 = k2 + 1;
            }
        }
        Some(
            Stats {
                number_of_games: n_games,
                average_agent_balances: balances,
                bet_statistics: entries,
            },
        )
    }

    /// Builds the report from a batch of completed games: a pure
    /// reduction of the game records into per-agent and per-bet metrics.
    /// The rows come in first-occurrence order of the input and each
    /// row's win ratios in game order, so permuting the input permutes
    /// the representation; the per-row sums, averages and maxima
    /// themselves do not depend on the order of the games.
    pub fn from_games(games: &Vec<RouletteGame>) -> (r: Stats)
        requires
            balances_spec(games@) is Some,
            bet_stats_spec(games@) is Some,
        ensures
            stats_matches(r, games@),
    {
        match Self::try_from_games(games) {
            Some(s) => s,
            None => {
                proof {
                    assert(false);
                }
                Stats {
                    number_of_games: 0,
                    average_agent_balances: Vec::new(),
                    bet_statistics: Vec::new(),
                }
            },
        }
    }
}

} // verus!
