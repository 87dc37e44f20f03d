use vstd::prelude::*;

use crate::agent::{consolidate_spec, Agent, AgentLog};
use crate::bet::{Bet, BetLog};
use crate::bet_value::{bet_value_matches, AdjacentNumbers, BetValue};
use crate::board::board_wf;
use crate::categories::RouletteType;
use crate::game::{play_aborted, played_rel, GameLog, RouletteGame};
use crate::slot::SlotNumber;

verus! {

/// The configuration of one batch run: how many rounds per game, how many
/// games, the negative-balance policy, and the wheel type (European when
/// none is given).
#[derive(Debug, PartialEq, Clone)]
pub struct GameConfig {
    pub number_of_rounds: i32,
    pub number_of_games: i32,
    pub allow_negative_balance: bool,
    pub roulette_type: Option<RouletteType>,
}

/// The wheel type a configuration resolves to.
pub open spec fn resolved_type(cfg: GameConfig) -> RouletteType {
    match cfg.roulette_type {
        Some(t) => t,
        None => RouletteType::European,
    }
}

/// Two bets that agree in every observable respect: same stakes, state,
/// log entries, backed value and progression factor.
pub open spec fn bet_like(a: Bet, b: Bet) -> bool {
    &&& a.amount_cents == b.amount_cents
    &&& a.bet_logs@ == b.bet_logs@
    &&& a.bet_state == b.bet_state
    &&& bet_value_matches(a.bet_value, b.bet_value)
    &&& a.initial_amount_cents == b.initial_amount_cents
    &&& a.progression_factor == b.progression_factor
}

/// Two agents that agree in every observable respect.
pub open spec fn agent_like(a: Agent, b: Agent) -> bool {
    &&& a.balance_cents == b.balance_cents
    &&& a.name == b.name
    &&& a.agent_logs@ == b.agent_logs@
    &&& a.strategic_bets@.len() == b.strategic_bets@.len()
    &&& forall|j: int|
        0 <= j < a.strategic_bets@.len() ==> bet_like(
            #[trigger] a.strategic_bets@[j],
            b.strategic_bets@[j],
        )
}

/// Two rosters whose agents agree pairwise.
pub open spec fn roster_like(a: Seq<Agent>, b: Seq<Agent>) -> bool {
    &&& a.len() == b.len()
    &&& forall|i: int| 0 <= i < a.len() ==> agent_like(#[trigger] a[i], b[i])
}

fn copy_numbers(v: &Vec<SlotNumber>) -> (r: Vec<SlotNumber>)
    ensures
        r@ == v@,
{
    let n = v.len();
    let mut out: Vec<SlotNumber> = Vec::new();
    let mut i: usize = 0;
    while i < n
        invariant
            i <= n,
            n == v@.len(),
            out@ == v@.take(i as int),
        decreases n - i,
    {
        out.push(v[i]);
        proof {
            assert(out@ =~= v@.take(i + 1));
        }
        i = i + 1;
    }
    proof {
        assert(v@.take(n as int) =~= v@);
    }
    out
}

fn copy_bet_value(v: &BetValue) -> (r: BetValue)
    ensures
        bet_value_matches(r, *v),
{
    match v {
        BetValue::AdjacentNumbers(a) => BetValue::AdjacentNumbers(
            AdjacentNumbers { numbers: copy_numbers(&a.numbers) },
        ),
        BetValue::Color(c) => BetValue::Color(*c),
        BetValue::Column(c) => BetValue::Column(*c),
        BetValue::DoubleColumn(d) => BetValue::DoubleColumn(*d),
        BetValue::Dozen(d) => BetValue::Dozen(*d),
        BetValue::EvenOdd(e) => BetValue::EvenOdd(*e),
        BetValue::Half(h) => BetValue::Half(*h),
        BetValue::Number(n) => BetValue::Number(*n),
        BetValue::Row(r) => BetValue::Row(*r),
    }
}

fn copy_bet_logs(v: &Vec<BetLog>) -> (r: Vec<BetLog>)
    ensures
        r@ == v@,
{
    let n = v.len();
    let mut out: Vec<BetLog> = Vec::new();
    let mut i: usize = 0;
    while i < n
        invariant
            i <= n,
            n == v@.len(),
            out@ == v@.take(i as int),
        decreases n - i,
    {
        out.push(v[i]);
        proof {
            assert(out@ =~= v@.take(i + 1));
        }
        i = i + 1;
    }
    proof {
        assert(v@.take(n as int) =~= v@);
    }
    out
}

fn copy_bet(b: &Bet) -> (r: Bet)
    ensures
        bet_like(r, *b),
{
    Bet {
        amount_cents: b.amount_cents,
        bet_logs: copy_bet_logs(&b.bet_logs),
        bet_state: b.bet_state,
        bet_value: copy_bet_value(&b.bet_value),
        initial_amount_cents: b.initial_amount_cents,
        progression_factor: b.progression_factor,
    }
}

fn copy_agent_logs(v: &Vec<AgentLog>) -> (r: Vec<AgentLog>)
    ensures
        r@ == v@,
{
    let n = v.len();
    let mut out: Vec<AgentLog> = Vec::new();
    let mut i: usize = 0;
    while i < n
        invariant
            i <= n,
            n == v@.len(),
            out@ == v@.take(i as int),
        decreases n - i,
    {
        out.push(v[i]);
        proof {
            assert(out@ =~= v@.take(i + 1));
        }
        i = i + 1;
    }
    proof {
        assert(v@.take(n as int) =~= v@);
    }
    out
}

fn copy_agent(a: &Agent) -> (r: Agent)
    ensures
        agent_like(r, *a),
{
    let n = a.strategic_bets.len();
    let mut bets: Vec<Bet> = Vec::new();
    let mut i: usize = 0;
    while i < n
        invariant
            i <= n,
            n == a.strategic_bets@.len(),
            bets@.len() == i,
            forall|j: int| 0 <= j < i ==> bet_like(#[trigger] bets@[j], a.strategic_bets@[j]),
        decreases n - i,
    {
        let b = copy_bet(&a.strategic_bets[i]);
        bets.push(b);
        i = i + 1;
    }
    Agent {
        balance_cents: a.balance_cents,
        strategic_bets: bets,
        name: a.name.clone(),
        agent_logs: copy_agent_logs(&a.agent_logs),
    }
}

/// Copies a roster of agents, one fresh independent copy per game.
fn copy_agents(v: &Vec<Agent>) -> (r: Vec<Agent>)
    ensures
        roster_like(r@, v@),
{
    let n = v.len();
    let mut out: Vec<Agent> = Vec::new();
    let mut i: usize = 0;
    while i < n
        invariant
            i <= n,
            n == v@.len(),
            out@.len() == i,
            forall|j: int| 0 <= j < i ==> agent_like(#[trigger] out@[j], v@[j]),
        decreases n - i,
    {
        let a = copy_agent(&v[i]);
        out.push(a);
        i = i + 1;
    }
    out
}

/// The number of games a configuration asks for (none when negative).
pub open spec fn games_requested(cfg: GameConfig) -> int {
    if cfg.number_of_games >= 0 {
        cfg.number_of_games as int
    } else {
        0
    }
}

/// A game as the batch creates it before play: numbered `gn`, configured
/// by `cfg`, with a fresh well-formed board, an empty log, and its own
/// independent copy of the input roster.
pub open spec fn fresh_game(g0: RouletteGame, cfg: GameConfig, roster: Seq<Agent>, gn: int) -> bool {
    &&& g0.game_number as int == gn
    &&& g0.number_of_rounds == cfg.number_of_rounds
    &&& g0.allow_negative_balance == cfg.allow_negative_balance
    &&& g0.roulette_type == resolved_type(cfg)
    &&& board_wf(g0.board, resolved_type(cfg))
    &&& g0.game_logs@ == Seq::<GameLog>::empty()
    &&& roster_like(g0.agents@, roster)
}

/// A returned game of one batch: it was created under the batch's
/// configuration with a fresh copy of the input roster, and then played
/// to completion.
pub open spec fn completed_game(g: RouletteGame, cfg: GameConfig, roster: Seq<Agent>) -> bool {
    &&& g.number_of_rounds == cfg.number_of_rounds
    &&& g.allow_negative_balance == cfg.allow_negative_balance
    &&& g.roulette_type == resolved_type(cfg)
    &&& board_wf(g.board, resolved_type(cfg))
    &&& 1 <= g.game_number <= cfg.number_of_games
    &&& exists|g0: RouletteGame|
        #![trigger played_rel(g0, g)]
        {
            &&& fresh_game(g0, cfg, roster, g.game_number as int)
            &&& g0.board == g.board
            &&& played_rel(g0, g)
        }
}

/// A batch game that could not be carried to completion: a fresh run of
/// game `gn` hit an abort condition (a stake, credit or balance leaving
/// the `i64` range, or an empty board).
pub open spec fn aborted_game(cfg: GameConfig, roster: Seq<Agent>, gn: int) -> bool {
    exists|g0: RouletteGame|
        #![trigger play_aborted(g0)]
        {
            &&& fresh_game(g0, cfg, roster, gn)
            &&& play_aborted(g0)
        }
}

/// Game number `gn` of a batch is accounted for: it appears among the
/// completed games, or a fresh run of it aborted and was counted failed.
pub open spec fn game_accounted(
    completed: Seq<RouletteGame>,
    cfg: GameConfig,
    roster: Seq<Agent>,
    gn: int,
) -> bool {
    (exists|i: int|
        0 <= i < completed.len() && (#[trigger] completed[i]).game_number as int == gn)
        || aborted_game(cfg, roster, gn)
}

/// Runs the configured number of games, each on its own fresh copy of the
/// agent roster, and returns the games that completed together with the
/// count of games that failed. A single game's failure never aborts the
/// batch: the game is dropped and counted. Every requested game number is
/// played: it either comes back completed (the numbers are strictly
/// increasing, so each at most once) or its run genuinely aborted; and
/// when no abort condition can arise — here: no rounds to play and
/// consolidation fits every agent — no game fails at all.
pub fn run_games(game_config: &GameConfig, agents: &Vec<Agent>) -> (r: (
    Vec<RouletteGame>,
    usize,
))
    ensures
        r.0@.len() + r.1 == games_requested(*game_config),
        forall|i: int, j: int|
            0 <= i < j < r.0@.len() ==> (#[trigger] r.0@[i]).game_number < (
            #[trigger] r.0@[j]).game_number,
        forall|gi: int|
            0 <= gi < r.0@.len() ==> completed_game(#[trigger] r.0@[gi], *game_config, agents@),
        forall|gn: int|
            1 <= gn <= games_requested(*game_config) ==> #[trigger] game_accounted(
                r.0@,
                *game_config,
                agents@,
                gn,
            ),
        (game_config.number_of_rounds <= 0 && (forall|i: int|
            0 <= i < agents@.len() ==> consolidate_spec(
                (#[trigger] agents@[i]).strategic_bets@,
            ) is Some)) ==> r.1 == 0,
{
    let mut completed: Vec<RouletteGame> = Vec::new();
    let mut failed: usize = 0;
    let n: i64 = if game_config.number_of_games >= 0 {
        game_config.number_of_games as i64
    } else {
        0
    };
    let mut game_number: i64 = 1;
    while game_number <= n
        invariant
            1 <= game_number,
            game_number <= if n < 1 {
                1int
            } else {
                n + 1
            },
            n == games_requested(*game_config),
            completed@.len() + failed == game_number - 1,
            forall|i: int, j: int|
                0 <= i < j < completed@.len() ==> (#[trigger] completed@[i]).game_number < (
                #[trigger] completed@[j]).game_number,
            forall|i: int|
                0 <= i < completed@.len() ==> ((#[trigger] completed@[i]).game_number as int)
                    < game_number,
            forall|gi: int|
                0 <= gi < completed@.len() ==> completed_game(
                    #[trigger] completed@[gi],
                    *game_config,
                    agents@,
                ),
            forall|gn: int|
                1 <= gn < game_number ==> #[trigger] game_accounted(
                    completed@,
                    *game_config,
                    agents@,
                    gn,
                ),
            (game_config.number_of_rounds <= 0 && (forall|i: int|
                0 <= i < agents@.len() ==> consolidate_spec(
                    (#[trigger] agents@[i]).strategic_bets@,
                ) is Some)) ==> failed == 0,
        decreases n - game_number + 1,
    {
        let game_agents = copy_agents(agents);
        let rt: Option<RouletteType> = match &game_config.roulette_type {
            Some(t) => Some(*t),
            None => None,
        };
        let gn: i32 = game_number as i32;
        match RouletteGame::new(
            gn,
            game_agents,
            game_config.number_of_rounds,
            game_config.allow_negative_balance,
            rt,
        ) {
            Ok(mut game) => {
                let ghost g0 = game;
                proof {
                    assert(fresh_game(g0, *game_config, agents@, game_number as int));
                }
                match game.play() {
                    Ok(_) => {
                        let ghost pre_completed = completed@;
                        proof {
                            assert(played_rel(g0, game));
                            assert(completed_game(game, *game_config, agents@));
                        }
                        completed.push(game);
                        proof {
                            assert forall|gn2: int| 1 <= gn2 <= game_number implies
                                #[trigger] game_accounted(
                                completed@,
                                *game_config,
                                agents@,
                                gn2,
                            ) by {
                                if gn2 == game_number as int {
                                    assert(completed@[completed@.len() - 1].game_number as int
                                        == gn2);
                                } else {
                                    assert(game_accounted(
                                        pre_completed,
                                        *game_config,
                                        agents@,
                                        gn2,
                                    ));
                                    if exists|i: int|
                                        0 <= i < pre_completed.len() && (
                                        #[trigger] pre_completed[i]).game_number as int == gn2 {
                                        let i = choose|i: int|
                                            0 <= i < pre_completed.len() && (
                                            #[trigger] pre_completed[i]).game_number as int
                                                == gn2;
                                        assert(completed@[i].game_number as int == gn2);
                                    }
                                }
                            }
                        }
                    },
                    Err(_) => {
                        proof {
                            assert(play_aborted(g0));
                            assert(aborted_game(*game_config, agents@, game_number as int));
                            if game_config.number_of_rounds <= 0 && (forall|i: int|
                                0 <= i < agents@.len() ==> consolidate_spec(
                                    (#[trigger] agents@[i]).strategic_bets@,
                                ) is Some) {
                                if exists|i: int|
                                    0 <= i < g0.agents@.len() && consolidate_spec(
                                        (#[trigger] g0.agents@[i]).strategic_bets@,
                                    ) is None {
                                    let i = choose|i: int|
                                        0 <= i < g0.agents@.len() && consolidate_spec(
                                            (#[trigger] g0.agents@[i]).strategic_bets@,
                                        ) is None;
                                    assert(agent_like(g0.agents@[i], agents@[i]));
                                    assert(forall|j: int|
                                        0 <= j < g0.agents@[i].strategic_bets@.len()
                                            ==> crate::agent::sig_like(
                                            #[trigger] g0.agents@[i].strategic_bets@[j],
                                            agents@[i].strategic_bets@[j],
                                        ));
                                    crate::agent::lemma_consolidate_spec_congruence(
                                        g0.agents@[i].strategic_bets@,
                                        agents@[i].strategic_bets@,
                                    );
                                    assert(false);
                                }
                                assert(g0.number_of_rounds <= 0);
                                assert(false);
                            }
                        }
                        failed = failed + 1;
                    },
                }
            },
            Err(_) => {
                proof {
                    assert(false);
                }
                failed = failed + 1;
            },
        }
        game_number = game_number + 1;
    }
    (completed, failed)
}

} // verus!
