//! The batch runner: partitions a requested number of matches into
//! contiguous per-worker ranges, runs each worker's share of
//! independent games over a cloned roster, and aggregates the winners'
//! ids into a score board.

use vstd::arithmetic::div_mod::{lemma_div_is_ordered, lemma_div_multiples_vanish};
use vstd::arithmetic::mul::lemma_mul_inequality;
use vstd::prelude::*;

use crate::game::{ids_of, same_player_identity, Game, GameError};
use crate::options::Options;
use crate::player::Player;
use crate::rules::Rules;
use crate::strategy::Strategy;

verus! {

/// The most players one 108-card deck can deal a starting hand to and
/// still leave a starter card for the pile.
pub const MAX_PLAYERS: usize = 15;

/// A roster fit to play: between one and `MAX_PLAYERS` players, all
/// hands still empty, and ids equal to the seating positions the
/// builder assigned.
pub open spec fn spec_roster_ok(players: Seq<Player>) -> bool {
    &&& 0 < players.len() <= MAX_PLAYERS
    &&& forall|i: int| 0 <= i < players.len() ==> (#[trigger] players[i]).hand@.len() == 0
    &&& forall|i: int| 0 <= i < players.len() ==> (#[trigger] players[i]).id == i
}

/// The total number of wins recorded on a score board.
pub open spec fn sum_scores(s: Seq<u32>) -> int
    decreases s.len(),
{
    if s.len() == 0 {
        0
    } else {
        s[0] + sum_scores(s.drop_first())
    }
}

/// Win counts never sum to a negative number.
pub proof fn lemma_sum_nonneg(s: Seq<u32>)
    ensures
        sum_scores(s) >= 0,
    decreases s.len(),
{
    if s.len() > 0 {
        lemma_sum_nonneg(s.drop_first());
    }
}

/// Appending one count adds exactly that count to the total.
pub proof fn lemma_sum_push(s: Seq<u32>, v: u32)
    ensures
        sum_scores(s.push(v)) == sum_scores(s) + v,
    decreases s.len(),
{
    assert(s.push(v)[s.len() as int] == v);
    if s.len() == 0 {
        assert(s.push(v)[0] == v);
        assert(s.push(v).drop_first() =~= Seq::<u32>::empty());
        assert(sum_scores(s.push(v).drop_first()) == 0);
    } else {
        assert(s.push(v).drop_first() =~= s.drop_first().push(v));
        assert(s.push(v)[0] == s[0]);
        lemma_sum_push(s.drop_first(), v);
    }
}

/// Replacing one count changes the total by exactly the difference.
pub proof fn lemma_sum_update(s: Seq<u32>, i: int, v: u32)
    requires
        0 <= i < s.len(),
    ensures
        sum_scores(s.update(i, v)) == sum_scores(s) - s[i] + v,
    decreases s.len(),
{
    if i == 0 {
        assert(s.update(0, v).drop_first() =~= s.drop_first());
        assert(s.update(0, v)[0] == v);
    } else {
        assert(s.update(i, v).drop_first() =~= s.drop_first().update(i - 1, v));
        assert(s.update(i, v)[0] == s[0]);
        lemma_sum_update(s.drop_first(), i - 1, v);
    }
}

/// No single count exceeds the total.
pub proof fn lemma_sum_entry_le(s: Seq<u32>, i: int)
    requires
        0 <= i < s.len(),
    ensures
        s[i] <= sum_scores(s),
    decreases s.len(),
{
    lemma_sum_nonneg(s.drop_first());
    if i > 0 {
        lemma_sum_entry_le(s.drop_first(), i - 1);
    }
}

/// Where worker `i` of `t` starts within a batch of `n` matches.
pub open spec fn spec_worker_start(i: int, n: int, t: int) -> int {
    i * n / t
}

/// The widths of the first `k` worker ranges, added up.
pub open spec fn spec_ranges_sum(k: int, n: int, t: int) -> int
    decreases k,
{
    if k <= 0 {
        0
    } else {
        spec_ranges_sum(k - 1, n, t) + (spec_worker_start(k, n, t) - spec_worker_start(
            k - 1,
            n,
            t,
        ))
    }
}

/// The first `k` worker ranges of a batch of `n` matches cover exactly
/// the first `k/t` share of the batch; over all `t` workers the range
/// widths sum to `n`.
pub proof fn lemma_worker_ranges_cover(n: int, t: int, k: int)
    requires
        t >= 1,
        n >= 0,
        0 <= k <= t,
    ensures
        spec_ranges_sum(k, n, t) == spec_worker_start(k, n, t),
        k == t ==> spec_ranges_sum(k, n, t) == n,
    decreases k,
{
    if k == 0 {
        assert(0 * n == 0) by (nonlinear_arith);
        vstd::arithmetic::div_mod::lemma_div_of0(t);
        assert(spec_worker_start(0, n, t) == 0);
    } else {
        lemma_worker_ranges_cover(n, t, k - 1);
        assert(spec_ranges_sum(k, n, t) == spec_ranges_sum(k - 1, n, t) + (spec_worker_start(
            k,
            n,
            t,
        ) - spec_worker_start(k - 1, n, t)));
    }
    if k == t {
        lemma_div_multiples_vanish(n, t);
        assert(t * n == n * t) by (nonlinear_arith);
        assert(spec_worker_start(t, n, t) == (n * t) / t);
    }
}

/// Computes the contiguous range of matches worker `i` of `threads`
/// runs out of a batch of `n`: matches `i*n/threads` up to (and not
/// including) `(i+1)*n/threads`.
pub fn worker_range(i: usize, n: usize, threads: usize) -> (r: (usize, usize))
    requires
        threads >= 1,
        i < threads,
        threads * n <= usize::MAX,
    ensures
        r.0 == spec_worker_start(i as int, n as int, threads as int),
        r.1 == spec_worker_start(i as int + 1, n as int, threads as int),
        r.0 <= r.1 <= n,
{
    proof {
        lemma_mul_inequality(i as int, threads as int, n as int);
        lemma_mul_inequality(i as int + 1, threads as int, n as int);
        lemma_mul_inequality(i as int, i as int + 1, n as int);
        lemma_div_is_ordered((i * n) as int, ((i + 1) * n) as int, threads as int);
        lemma_div_is_ordered(((i + 1) * n) as int, (threads * n) as int, threads as int);
        lemma_div_multiples_vanish(n as int, threads as int);
        assert(threads as int * n as int == n as int * threads as int) by (nonlinear_arith);
    }
    let start = i * n / threads;
    let end = (i + 1) * n / threads;
    (start, end)
}

/// Runs one fresh game per match over a private copy of the roster.
#[derive(Debug)]
pub struct GameDaemon {
    pub players: Vec<Player>,
    pub rules: Rules,
    pub verbose: bool,
}

/// Copies a roster so that each match starts from the same players.
fn clone_roster(players: &Vec<Player>) -> (r: Vec<Player>)
    ensures
        r@.len() == players@.len(),
        forall|i: int| 0 <= i < players@.len() ==> {
            &&& (#[trigger] r@[i]).id == players@[i].id
            &&& r@[i].name@ == players@[i].name@
            &&& r@[i].hand@ == players@[i].hand@
            &&& r@[i].strategy == players@[i].strategy
        },
{
    let mut r: Vec<Player> = Vec::new();
    let mut i: usize = 0;
    while i < players.len()
        invariant
            i <= players@.len(),
            r@.len() == i,
            forall|j: int| 0 <= j < i ==> {
                &&& (#[trigger] r@[j]).id == players@[j].id
                &&& r@[j].name@ == players@[j].name@
                &&& r@[j].hand@ == players@[j].hand@
                &&& r@[j].strategy == players@[j].strategy
            },
        decreases players@.len() - i,
    {
        let p = (&players[i]).clone();
        r.push(p);
        i = i + 1;
    }
    r
}

impl GameDaemon {
    /// Plays one complete match over a fresh copy of the roster and
    /// hands back its winner, whose id is one of the roster's.
    pub fn run(&self) -> (r: Result<Player, GameError>)
        requires
            spec_roster_ok(self.players@),
        ensures
            r matches Ok(p) ==> {
                &&& p.hand@.len() == 0
                &&& 0 <= p.id < self.players@.len()
                &&& exists|i: int| 0 <= i < self.players@.len()
                    && #[trigger] same_player_identity(self.players@[i], p)
            },
    {
        let roster = clone_roster(&self.players);
        let ghost roster_view = roster@;
        let mut game = Game::new(roster, self.rules, self.verbose);
        let r = game.play_until_winner();
        proof {
            if r is Ok {
                let p = r->Ok_0;
                let i = choose|i: int|
                    0 <= i < roster_view.len() && #[trigger] same_player_identity(
                        roster_view[i],
                        p,
                    );
                assert(same_player_identity(self.players@[i], roster_view[i]));
                assert(same_player_identity(self.players@[i], p));
                assert(self.players@[i].id == i);
            }
        }
        r
    }
}

/// The per-player win counts of one finished batch, in roster order.
#[derive(Debug)]
pub struct ScoreBoard {
    pub scores: Vec<u32>,
}

impl ScoreBoard {
    /// How many players the board covers.
    pub fn len(&self) -> (r: usize)
        ensures
            r == self.scores@.len(),
    {
        self.scores.len()
    }

    /// The number of wins recorded for the player with id `i`.
    pub fn get(&self, i: usize) -> (r: u32)
        requires
            i < self.scores@.len(),
        ensures
            r == self.scores@[i as int],
    {
        self.scores[i]
    }
}

/// Runs game simulations. Should be constructed using
/// `GameMasterBuilder`.
#[derive(Debug)]
pub struct GameMaster {
    pub players: Vec<Player>,
    pub rules: Rules,
    pub options: Options,
}

/// Adds one win to position `i` of the counters.
fn record_win(counters: &mut Vec<u32>, i: usize)
    requires
        i < old(counters)@.len(),
        old(counters)@[i as int] < u32::MAX,
    ensures
        final(counters)@ =~= old(counters)@.update(i as int, (old(counters)@[i as int]
            + 1) as u32),
{
    let c = counters[i];
    counters.push(c + 1);
    let _ = counters.swap_remove(i);
    proof {
        assert(counters@ =~= old(counters)@.update(i as int, (old(counters)@[i as int]
            + 1) as u32));
    }
}

impl GameMaster {
    fn new(players: Vec<Player>, rules: Rules, options: Options) -> (r: GameMaster)
        ensures
            r.players == players,
            r.rules == rules,
            r.options == options,
    {
        GameMaster { players, rules, options }
    }

    /// Bundles a private copy of the roster and the rules for one
    /// worker.
    fn spawn_daemon(&self) -> (r: GameDaemon)
        requires
            spec_roster_ok(self.players@),
        ensures
            spec_roster_ok(r.players@),
            r.players@.len() == self.players@.len(),
            r.rules == self.rules,
    {
        let players = clone_roster(&self.players);
        GameDaemon { players, rules: self.rules, verbose: self.options.verbose }
    }

    /// Plays `n` complete matches, split across the configured number
    /// of workers by contiguous integer-division ranges, and counts
    /// each winner. On success the counts cover every player in roster
    /// order and sum to exactly `n`. A match that faults ends the
    /// whole batch with its error.
    pub fn run(self, n: usize) -> (r: Result<ScoreBoard, GameError>)
        requires
            spec_roster_ok(self.players@),
            self.options.num_threads >= 1,
            self.options.num_threads * n <= usize::MAX,
            n <= u32::MAX,
        ensures
            r matches Ok(sb) ==> sb.scores@.len() == self.players@.len() && sum_scores(sb.scores@)
                == n,
            n == 0 ==> r is Ok,
    {
        let num_threads = self.options.num_threads;
        let mut counters: Vec<u32> = Vec::new();
        let mut k: usize = 0;
        while k < self.players.len()
            invariant
                counters@.len() == k,
                k <= self.players@.len(),
                sum_scores(counters@) == 0,
            decreases self.players@.len() - k,
        {
            proof {
                lemma_sum_push(counters@, 0);
            }
            counters.push(0);
            k = k + 1;
        }
        let mut i: usize = 0;
        while i < num_threads
            invariant
                spec_roster_ok(self.players@),
                num_threads == self.options.num_threads,
                1 <= num_threads,
                num_threads * n <= usize::MAX,
                n <= u32::MAX,
                i <= num_threads,
                counters@.len() == self.players@.len(),
                sum_scores(counters@) == spec_worker_start(i as int, n as int, num_threads as int),
                0 <= spec_worker_start(i as int, n as int, num_threads as int) <= n,
            decreases num_threads - i,
        {
            let daemon = self.spawn_daemon();
            let (start, end) = worker_range(i, n, num_threads);
            let mut g = start;
            while g < end
                invariant
                    spec_roster_ok(daemon.players@),
                    daemon.players@.len() == self.players@.len(),
                    start == spec_worker_start(i as int, n as int, num_threads as int),
                    end == spec_worker_start(i as int + 1, n as int, num_threads as int),
                    start <= g <= end,
                    end <= n,
                    n <= u32::MAX,
                    counters@.len() == self.players@.len(),
                    sum_scores(counters@) == g,
                decreases end - g,
            {
                let winner = match daemon.run() {
                    Ok(p) => p,
                    Err(e) => {
                        return Err(e);
                    },
                };
                let id = winner.id as usize;
                proof {
                    lemma_sum_entry_le(counters@, id as int);
                    lemma_sum_update(counters@, id as int, (counters@[id as int] + 1) as u32);
                }
                record_win(&mut counters, id);
                g = g + 1;
            }
            i = i + 1;
        }
        proof {
            lemma_worker_ranges_cover(n as int, num_threads as int, num_threads as int);
        }
        Ok(ScoreBoard { scores: counters })
    }
}

/// A builder for the `GameMaster`: accumulates roster entries, each
/// assigned the next sequential id, together with rules and options.
#[derive(Debug)]
pub struct GameMasterBuilder {
    pub players: Vec<Player>,
    pub rules: Rules,
    pub options: Options,
    pub last_id: u32,
}

impl GameMasterBuilder {
    /// The builder stays fit to build: ids equal seating positions,
    /// hands are empty, and the next id is the roster's length.
    pub open spec fn wf(self) -> bool {
        &&& self.last_id == self.players@.len()
        &&& forall|i: int| 0 <= i < self.players@.len() ==> (#[trigger] self.players@[i]).id == i
        &&& forall|i: int| 0 <= i < self.players@.len() ==> (
        #[trigger] self.players@[i]).hand@.len() == 0
    }

    /// An empty builder with the default rules and options.
    pub fn new() -> (r: GameMasterBuilder)
        ensures
            r.wf(),
            r.players@.len() == 0,
            r.rules.plus_stacking == crate::rules::PlusStacking::Conservative,
            r.options == (Options { num_threads: 4usize, slow: false, verbose: false }),
    {
        GameMasterBuilder {
            players: Vec::new(),
            rules: Rules::default(),
            options: Options::default(),
            last_id: 0,
        }
    }

    fn new_player(&mut self, name: String, strategy: Strategy) -> (r: Player)
        requires
            old(self).last_id < u32::MAX,
        ensures
            r.id == old(self).last_id,
            r.name@ == name@,
            r.hand@.len() == 0,
            r.strategy == strategy,
            final(self).last_id == old(self).last_id + 1,
            final(self).players == old(self).players,
            final(self).rules == old(self).rules,
            final(self).options == old(self).options,
    {
        let player = Player::new(self.last_id, name, strategy);
        self.last_id = self.last_id + 1;
        player
    }

    /// Adds a player with the given name and strategy; it receives the
    /// next sequential id.
    pub fn add_player(self, name: String, strategy: Strategy) -> (r: GameMasterBuilder)
        requires
            self.wf(),
            self.players@.len() < u32::MAX,
        ensures
            r.wf(),
            r.players@.len() == self.players@.len() + 1,
            r.players@.last().id == self.players@.len(),
            r.players@.last().name@ == name@,
            r.players@.last().strategy == strategy,
            forall|i: int| 0 <= i < self.players@.len() ==> r.players@[i] == self.players@[i],
            r.rules == self.rules,
            r.options == self.options,
    {
        let mut this = self;
        let player = this.new_player(name, strategy);
        this.players.push(player);
        this
    }

    /// Sets the options to be used.
    pub fn with_options(self, options: Options) -> (r: GameMasterBuilder)
        ensures
            r.options == options,
            r.players == self.players,
            r.rules == self.rules,
            r.last_id == self.last_id,
    {
        let mut this = self;
        this.options = options;
        this
    }

    /// Sets the rules to be used during the games.
    pub fn with_rules(self, rules: Rules) -> (r: GameMasterBuilder)
        ensures
            r.rules == rules,
            r.players == self.players,
            r.options == self.options,
            r.last_id == self.last_id,
    {
        let mut this = self;
        this.rules = rules;
        this
    }

    /// Finishes the builder into a runner.
    pub fn build(self) -> (r: GameMaster)
        ensures
            r.players == self.players,
            r.rules == self.rules,
            r.options == self.options,
    {
        GameMaster::new(self.players, self.rules, self.options)
    }
}

} // verus!
