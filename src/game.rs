use vstd::prelude::*;
use crate::deck::Deck;
use crate::evaluator::Category;
use crate::agents::Action;
use crate::cards::Card;
use crate::text::{append_decimal, char_text, decimal};
use crate::evaluator::{best_of_seven, evaluate_holdem, holdem_seven, Evaluation};
use crate::hand::{all_distinct, holdem_error, Board, HoleCards};

verus! {

#[derive(Debug, Clone, Copy, PartialEq, Eq, Structural)]
#[non_exhaustive]
pub enum PlayerStatus {
    Active,
    Folded,
    AllIn,
}

#[derive(Debug, Clone, Copy, PartialEq, Eq, Structural)]
#[non_exhaustive]
pub enum Street {
    Preflop,
    Flop,
    Turn,
    River,
    Showdown,
}

#[derive(Debug, Clone, Copy, PartialEq, Eq, Structural)]
#[non_exhaustive]
pub enum HandHistoryVerb {
    SmallBlind,
    BigBlind,
    Fold,
    Check,
    Call,
    Bet,
    RaiseTo,
    Win,
    Split,
}

impl HandHistoryVerb {
    /// Short human-readable label of the verb.
    pub fn label(self) -> (r: &'static str)
        ensures
            self == HandHistoryVerb::SmallBlind ==> r@ == "SB"@,
            self == HandHistoryVerb::BigBlind ==> r@ == "BB"@,
            self == HandHistoryVerb::Fold ==> r@ == "Fold"@,
            self == HandHistoryVerb::Check ==> r@ == "Check"@,
            self == HandHistoryVerb::Call ==> r@ == "Call"@,
            self == HandHistoryVerb::Bet ==> r@ == "Bet"@,
            self == HandHistoryVerb::RaiseTo ==> r@ == "Raise to"@,
            self == HandHistoryVerb::Win ==> r@ == "Win"@,
            self == HandHistoryVerb::Split ==> r@ == "Split"@,
    {
        match self {
            HandHistoryVerb::SmallBlind => "SB",
            HandHistoryVerb::BigBlind => "BB",
            HandHistoryVerb::Fold => "Fold",
            HandHistoryVerb::Check => "Check",
            HandHistoryVerb::Call => "Call",
            HandHistoryVerb::Bet => "Bet",
            HandHistoryVerb::RaiseTo => "Raise to",
            HandHistoryVerb::Win => "Win",
            HandHistoryVerb::Split => "Split",
        }
    }
}

#[derive(Debug, Clone, Copy, PartialEq, Eq, Structural)]
#[non_exhaustive]
pub enum ActionError {
    Showdown,
    PlayerNotActive,
    BetNotAllowed,
    RaiseNotAllowed,
    AmountTooSmall { min: u64, got: u64 },
    AmountTooLarge { max: u64, got: u64 },
    TargetTooLow { current: u64, target: u64 },
}

#[derive(Debug, Clone, Copy, PartialEq, Eq)]
#[non_exhaustive]
pub struct HandHistoryEntry {
    pub seat: usize,
    pub verb: HandHistoryVerb,
    pub amount: Option<u64>,
    pub street: Street,
}

#[derive(Debug, Clone)]
#[non_exhaustive]
pub struct Player {
    pub name: String,
    pub stack: u64,
    pub bet: u64,
    pub contributed: u64,
    pub status: PlayerStatus,
    pub hole: Option<HoleCards>,
    pub last_action: Option<String>,
}

/// The text of a player's last action: a label, a space, then an amount
/// in decimal.
pub open spec fn action_text(label: Seq<char>, amount: u64) -> Seq<char> {
    label + seq![' '] + decimal(amount as nat)
}

fn describe_action(label: &str, amount: u64) -> (r: String)
    ensures
        r@ == action_text(label@, amount),
{
    let mut t = label.to_owned();
    let space = char_text(' ');
    t.append(space.as_str());
    append_decimal(&mut t, amount);
    assert(t@ =~= action_text(label@, amount));
    t
}

/// Display name of the player with seat number `number` (one-based): "P"
/// and the number in decimal.
pub open spec fn seat_name(number: usize) -> Seq<char> {
    seq!['P'] + decimal(number as nat)
}

fn player_name(number: usize) -> (r: String)
    ensures
        r@ == seat_name(number),
{
    let mut t = char_text('P');
    append_decimal(&mut t, number as u64);
    t
}

/// How many seats clockwise from `d` seat `j` is, at a table of `n`.
pub open spec fn seat_offset(d: int, j: int, n: int) -> int {
    if j >= d {
        j - d
    } else {
        j + n - d
    }
}

proof fn lemma_seat_offset(d: int, k: int, n: int)
    requires
        0 <= d < n,
        0 <= k < n,
    ensures
        0 <= (d + k) % n < n,
        seat_offset(d, (d + k) % n, n) == k,
        forall|j: int| 0 <= j < n && seat_offset(d, j, n) == k ==> j == (d + k) % n,
{
    if d + k < n {
        assert((d + k) % n == d + k) by (nonlinear_arith)
            requires
                0 <= d + k < n,
        ;
    } else {
        assert((d + k) % n == d + k - n) by (nonlinear_arith)
            requires
                n <= d + k < 2 * n,
        ;
    }
}

/// Position of a street in the order of a hand.
pub open spec fn street_rank(st: Street) -> int {
    match st {
        Street::Preflop => 0,
        Street::Flop => 1,
        Street::Turn => 2,
        Street::River => 3,
        Street::Showdown => 4,
    }
}

proof fn lemma_single_contender_same(a: Seq<Player>, b: Seq<Player>)
    requires
        a.len() == b.len(),
        forall|i: int| 0 <= i < a.len() ==> (#[trigger] b[i]).status == a[i].status && b[i].hole == a[i].hole,
    ensures
        single_contender(a) == single_contender(b),
{
    assert forall|i: int| 0 <= i < a.len() implies is_contender(#[trigger] a[i]) == is_contender(b[i]) by {}
}

/// `b` begins with all of `a`.
pub open spec fn extends<T>(a: Seq<T>, b: Seq<T>) -> bool {
    a.len() <= b.len() && forall|i: int| 0 <= i < a.len() ==> #[trigger] b[i] == a[i]
}

/// Sum of the players' contributions to the current hand.
pub open spec fn sum_contributed(ps: Seq<Player>) -> int
    decreases ps.len(),
{
    if ps.len() == 0 {
        0
    } else {
        sum_contributed(ps.drop_last()) + ps.last().contributed
    }
}

/// Sum of the players' stacks.
pub open spec fn sum_stacks(ps: Seq<Player>) -> int
    decreases ps.len(),
{
    if ps.len() == 0 {
        0
    } else {
        sum_stacks(ps.drop_last()) + ps.last().stack
    }
}

/// Number of players whose status is Active.
pub open spec fn count_active(ps: Seq<Player>) -> int
    decreases ps.len(),
{
    if ps.len() == 0 {
        0
    } else {
        count_active(ps.drop_last()) + if ps.last().status == PlayerStatus::Active {
            1int
        } else {
            0int
        }
    }
}

/// Board size that belongs to a street during a hand.
pub open spec fn board_size(street: Street) -> int {
    match street {
        Street::Preflop => 0,
        Street::Flop => 3,
        Street::Turn => 4,
        Street::River => 5,
        Street::Showdown => 5,
    }
}

proof fn lemma_sums_update(ps: Seq<Player>, i: int, p: Player)
    requires
        0 <= i < ps.len(),
    ensures
        sum_contributed(ps.update(i, p)) == sum_contributed(ps) - ps[i].contributed + p.contributed,
        sum_stacks(ps.update(i, p)) == sum_stacks(ps) - ps[i].stack + p.stack,
        count_active(ps.update(i, p)) == count_active(ps) - (if ps[i].status
            == PlayerStatus::Active {
            1int
        } else {
            0int
        }) + (if p.status == PlayerStatus::Active {
            1int
        } else {
            0int
        }),
    decreases ps.len(),
{
    if i < ps.len() - 1 {
        lemma_sums_update(ps.drop_last(), i, p);
        assert(ps.update(i, p).drop_last() =~= ps.drop_last().update(i, p));
    } else {
        assert(ps.update(i, p).drop_last() =~= ps.drop_last());
    }
}

proof fn lemma_sum_bounds(ps: Seq<Player>, i: int)
    requires
        0 <= i < ps.len(),
    ensures
        ps[i].contributed <= sum_contributed(ps),
        ps[i].stack <= sum_stacks(ps),
        sum_contributed(ps) >= 0,
        sum_stacks(ps) >= 0,
    decreases ps.len(),
{
    lemma_sums_nonneg(ps);
    if i < ps.len() - 1 {
        lemma_sum_bounds(ps.drop_last(), i);
    } else {
        lemma_sums_nonneg(ps.drop_last());
    }
}

proof fn lemma_sums_nonneg(ps: Seq<Player>)
    ensures
        sum_contributed(ps) >= 0,
        sum_stacks(ps) >= 0,
        0 <= count_active(ps) <= ps.len(),
    decreases ps.len(),
{
    if ps.len() > 0 {
        lemma_sums_nonneg(ps.drop_last());
    }
}

/// Most players a table can seat: each needs two cards and the board five.
pub const MAX_PLAYERS: usize = 23;

#[derive(Debug)]
#[non_exhaustive]
pub struct Game {
    pub small_blind: u64,
    pub big_blind: u64,
    pub starting_stack: u64,
    pub deck: Deck,
    pub board: Board,
    pub players: Vec<Player>,
    pub pot: u64,
    pub dealer: usize,
    pub current: usize,
    pub street: Street,
    pub current_bet: u64,
    pub min_raise: u64,
    pub last_raiser: Option<usize>,
    pub round_starter: usize,
    pub sb_pos: Option<usize>,
    pub bb_pos: Option<usize>,
    /// Winners of the last completed hand (seats ordered from the left of the dealer).
    pub winners: Vec<usize>,
    /// Showdown category of each player in the last hand (None if folded/unknown).
    pub showdown_categories: Vec<Option<Category>>,
    pub hand_history: Vec<HandHistoryEntry>,
}

impl Game {
    /// The append-only log of the current hand.
    pub open spec fn history(&self) -> Seq<HandHistoryEntry> {
        self.hand_history@
    }

    /// Seats, indices and chip totals are in range.
    pub open spec fn seats_ok(&self) -> bool {
        let n = self.players@.len();
        &&& 2 <= n <= MAX_PLAYERS
        &&& self.dealer < n
        &&& self.current < n
        &&& self.round_starter < n
        &&& self.showdown_categories@.len() == n
        &&& sum_stacks(self.players@) + self.pot <= u64::MAX
    }

    /// Preflop, the small blind may have posted more than a big blind who was
    /// short of chips; until someone raises, that small blind is the one
    /// Active player whose bet is above the current bet.
    pub open spec fn short_big_blind_seat(&self, i: int) -> bool {
        &&& self.street == Street::Preflop
        &&& self.sb_pos == Some(i as usize)
        &&& self.players@[i].bet <= self.small_blind
    }

    /// The table invariants that hold after every action and at every street
    /// boundary: seats in range; while the hand runs, the pot holds exactly
    /// the contributions, an all-in player has no chips, every Active bet is
    /// within the current bet, and the board has the size of its street;
    /// after the showdown the pot is empty. A bet never exceeds the
    /// player's contribution.
    pub open spec fn wf(&self) -> bool {
        let ps = self.players@;
        &&& self.seats_ok()
        &&& self.street != Street::Showdown ==> self.pot == sum_contributed(ps)
        &&& self.street == Street::Showdown ==> self.pot == 0
        &&& forall|i: int| 0 <= i < ps.len() ==> (#[trigger] ps[i]).bet <= ps[i].contributed
        &&& self.street != Street::Showdown ==> forall|i: int|
            0 <= i < ps.len() && (#[trigger] ps[i]).status == PlayerStatus::AllIn ==> ps[i].stack == 0
        &&& self.street != Street::Showdown ==> forall|i: int|
            0 <= i < ps.len() && (#[trigger] ps[i]).status == PlayerStatus::Active ==> ps[i].bet
                <= self.current_bet || self.short_big_blind_seat(i)
        &&& self.street != Street::Showdown ==> self.board@.len() == board_size(self.street)
        &&& self.street != Street::Showdown ==> self.deck@.len() + self.board@.len() >= 5
        &&& self.board@.len() <= 5
    }

    /// A table of `num_players` seats, each with `starting_stack` chips,
    /// before the first hand.
    pub fn new(num_players: usize, starting_stack: u64, small_blind: u64, big_blind: u64) -> (r: Self)
        requires
            2 <= num_players <= MAX_PLAYERS,
            1 <= small_blind <= big_blind,
            num_players * starting_stack <= u64::MAX,
        ensures
            r.players@.len() == num_players,
            forall|i: int|
                0 <= i < num_players ==> {
                    let p = #[trigger] r.players@[i];
                    &&& p.stack == starting_stack
                    &&& p.bet == 0
                    &&& p.contributed == 0
                    &&& p.status == PlayerStatus::Active
                    &&& p.hole is None
                    &&& p.last_action is None
                    &&& p.name@ == seat_name((i + 1) as usize)
                },
            r.small_blind == small_blind,
            r.big_blind == big_blind,
            r.starting_stack == starting_stack,
            r.pot == 0,
            r.dealer == 0,
            r.current == 0,
            r.street == Street::Preflop,
            r.current_bet == 0,
            r.min_raise == big_blind,
            r.last_raiser is None,
            r.board@.len() == 0,
            r.deck@.len() == 52,
            r.history().len() == 0,
            r.winners@.len() == 0,
            r.wf(),
    {
        let mut players: Vec<Player> = Vec::new();
        let mut showdown_categories: Vec<Option<Category>> = Vec::new();
        let mut i: usize = 0;
        while i < num_players
            invariant
                i <= num_players <= MAX_PLAYERS,
                players@.len() == i,
                showdown_categories@.len() == i,
                num_players * starting_stack <= u64::MAX,
                sum_stacks(players@) == i * starting_stack,
                sum_contributed(players@) == 0,
                forall|k: int|
                    0 <= k < i ==> {
                        let p = #[trigger] players@[k];
                        &&& p.stack == starting_stack
                        &&& p.bet == 0
                        &&& p.contributed == 0
                        &&& p.status == PlayerStatus::Active
                        &&& p.hole is None
                        &&& p.last_action is None
                        &&& p.name@ == seat_name((k + 1) as usize)
                    },
            decreases num_players - i,
        {
            let p = Player {
                name: player_name(i + 1),
                stack: starting_stack,
                bet: 0,
                contributed: 0,
                status: PlayerStatus::Active,
                hole: None,
                last_action: None,
            };
            let ghost before = players@;
            players.push(p);
            proof {
                assert(players@.drop_last() =~= before);
                assert((i + 1) * starting_stack == i * starting_stack + starting_stack)
                    by (nonlinear_arith);
                assert((i + 1) * starting_stack <= num_players * starting_stack)
                    by (nonlinear_arith)
                    requires
                        i + 1 <= num_players,
                ;
            }
            showdown_categories.push(None);
            i = i + 1;
        }
        Game {
            small_blind,
            big_blind,
            starting_stack,
            deck: Deck::standard(),
            board: Board::new(Vec::new()),
            players,
            pot: 0,
            dealer: 0,
            current: 0,
            street: Street::Preflop,
            current_bet: 0,
            min_raise: big_blind,
            last_raiser: None,
            round_starter: 0,
            sb_pos: None,
            bb_pos: None,
            winners: Vec::new(),
            showdown_categories,
            hand_history: Vec::new(),
        }
    }

    /// The last `n` history entries (all of them when fewer), oldest first.
    pub fn history_recent(&self, n: usize) -> (r: Vec<HandHistoryEntry>)
        ensures
            r@ == self.history().skip(
                if n >= self.history().len() {
                    0
                } else {
                    self.history().len() - n
                },
            ),
    {
        let len = self.hand_history.len();
        let start = if n >= len {
            0
        } else {
            len - n
        };
        self.slice_history(start, len)
    }

    fn slice_history(&self, start: usize, end: usize) -> (r: Vec<HandHistoryEntry>)
        requires
            start <= end <= self.history().len(),
        ensures
            r@ == self.history().subrange(start as int, end as int),
    {
        let mut out: Vec<HandHistoryEntry> = Vec::new();
        let mut i: usize = start;
        while i < end
            invariant
                start <= i <= end <= self.history().len(),
                out@ == self.history().subrange(start as int, i as int),
            decreases end - i,
        {
            out.push(self.hand_history[i]);
            i = i + 1;
            assert(out@ =~= self.history().subrange(start as int, i as int));
        }
        out
    }

    /// A window of `n` entries ending `offset` entries before the newest;
    /// the offset is capped so that the window stays full when the log holds
    /// at least `n` entries.
    pub fn history_recent_offset(&self, n: usize, offset: usize) -> (r: Vec<HandHistoryEntry>)
        ensures
            ({
                let len = self.history().len();
                let max_offset = if len >= n {
                    len - n
                } else {
                    0
                };
                let off = if offset <= max_offset {
                    offset as int
                } else {
                    max_offset
                };
                let end = len - off;
                let start = if end >= n {
                    end - n
                } else {
                    0
                };
                r@ == if n == 0 {
                    Seq::empty()
                } else {
                    self.history().subrange(start, end)
                }
            }),
    {
        if n == 0 {
            return Vec::new();
        }
        let len = self.hand_history.len();
        let max_offset = if len >= n {
            len - n
        } else {
            0
        };
        let off = if offset <= max_offset {
            offset
        } else {
            max_offset
        };
        let end = len - off;
        let start = if end >= n {
            end - n
        } else {
            0
        };
        self.slice_history(start, end)
    }

    pub fn history_len(&self) -> (r: usize)
        ensures
            r == self.history().len(),
    {
        self.hand_history.len()
    }
}

} // verus!

verus! {

/// The first seat after `start` (cyclically, looking `k` seats ahead and
/// further) whose player is Active; `start + 1` when there is none.
pub open spec fn next_active_from(ps: Seq<Player>, start: int, k: int) -> int
    decreases ps.len() + 1 - k,
{
    if k > ps.len() || ps.len() == 0 {
        (start + 1) % (ps.len() as int)
    } else if ps[(start + k) % (ps.len() as int)].status == PlayerStatus::Active {
        (start + k) % (ps.len() as int)
    } else {
        next_active_from(ps, start, k + 1)
    }
}

/// The next Active seat after `start`.
pub open spec fn next_active(ps: Seq<Player>, start: int) -> int {
    next_active_from(ps, start, 1)
}

proof fn lemma_next_active_from_facts(ps: Seq<Player>, start: int, k: int)
    requires
        ps.len() > 0,
        0 <= start < ps.len(),
        1 <= k,
    ensures
        0 <= next_active_from(ps, start, k) < ps.len(),
        (exists|j: int| k <= j <= ps.len() && #[trigger] ps[(start + j) % (ps.len() as int)].status
            == PlayerStatus::Active) ==> ps[next_active_from(ps, start, k)].status
            == PlayerStatus::Active,
    decreases ps.len() + 1 - k,
{
    if k > ps.len() {
    } else if ps[(start + k) % (ps.len() as int)].status == PlayerStatus::Active {
    } else {
        lemma_next_active_from_facts(ps, start, k + 1);
        if exists|j: int|
            k <= j <= ps.len() && #[trigger] ps[(start + j) % (ps.len() as int)].status
                == PlayerStatus::Active {
            let j = choose|j: int|
                k <= j <= ps.len() && #[trigger] ps[(start + j) % (ps.len() as int)].status
                    == PlayerStatus::Active;
            assert(j != k);
            assert(k + 1 <= j <= ps.len());
        }
    }
}

/// Some Active seat exists, then the next Active seat is Active.
pub proof fn lemma_next_active_is_active(ps: Seq<Player>, start: int, a: int)
    requires
        0 <= start < ps.len(),
        0 <= a < ps.len(),
        ps[a].status == PlayerStatus::Active,
    ensures
        0 <= next_active(ps, start) < ps.len(),
        ps[next_active(ps, start)].status == PlayerStatus::Active,
{
    let n = ps.len() as int;
    let j = if a > start {
        a - start
    } else {
        a - start + n
    };
    assert((start + j) % n == a) by {
        if a > start {
            assert((start + j) == a);
            assert(a % n == a) by (nonlinear_arith)
                requires
                    0 <= a < n,
            ;
        } else {
            assert(start + j == a + n);
            assert((a + n) % n == a) by (nonlinear_arith)
                requires
                    0 <= a < n,
            ;
        }
    }
    assert(1 <= j <= n);
    lemma_next_active_from_facts(ps, start, 1);
}

proof fn lemma_next_active_from_within(ps: Seq<Player>, start: int, k: int, j: int)
    requires
        0 <= start < ps.len(),
        1 <= k <= j < ps.len(),
        ps[(start + j) % (ps.len() as int)].status == PlayerStatus::Active,
    ensures
        exists|m: int|
            k <= m <= j && next_active_from(ps, start, k) == #[trigger] seat_after(
                start,
                m,
                ps.len() as int,
            ),
    decreases j - k,
{
    if ps[(start + k) % (ps.len() as int)].status == PlayerStatus::Active {
        assert(next_active_from(ps, start, k) == seat_after(start, k, ps.len() as int));
    } else {
        assert(k != j);
        lemma_next_active_from_within(ps, start, k + 1, j);
        let m = choose|m: int|
            k + 1 <= m <= j && next_active_from(ps, start, k + 1) == #[trigger] seat_after(
                start,
                m,
                ps.len() as int,
            );
        assert(next_active_from(ps, start, k) == next_active_from(ps, start, k + 1));
    }
}

/// With another Active seat at the table, the next Active seat after
/// `start` is a different, Active seat.
pub proof fn lemma_next_active_other(ps: Seq<Player>, start: int, a: int)
    requires
        0 <= start < ps.len(),
        0 <= a < ps.len(),
        a != start,
        ps[a].status == PlayerStatus::Active,
    ensures
        0 <= next_active(ps, start) < ps.len(),
        next_active(ps, start) != start,
        ps[next_active(ps, start)].status == PlayerStatus::Active,
{
    let n = ps.len() as int;
    lemma_next_active_is_active(ps, start, a);
    let j = if a > start {
        a - start
    } else {
        a - start + n
    };
    assert((start + j) % n == a) by {
        if a > start {
            assert(a % n == a) by (nonlinear_arith)
                requires
                    0 <= a < n,
            ;
        } else {
            assert((a + n) % n == a) by (nonlinear_arith)
                requires
                    0 <= a < n,
            ;
        }
    }
    lemma_next_active_from_within(ps, start, 1, j);
    let m = choose|m: int|
        1 <= m <= j && next_active_from(ps, start, 1) == #[trigger] seat_after(start, m, n);
    assert((start + m) % n != start) by (nonlinear_arith)
        requires
            0 <= start < n,
            1 <= m < n,
    ;
}

impl Game {
    fn is_eligible(&self, idx: usize) -> (r: bool)
        requires
            idx < self.players@.len(),
        ensures
            r == (self.players@[idx as int].status == PlayerStatus::Active),
    {
        self.players[idx].status == PlayerStatus::Active
    }

    fn count_eligible(&self) -> (r: usize)
        ensures
            r == count_active(self.players@),
    {
        let mut c: usize = 0;
        let mut i: usize = 0;
        assert(self.players@.take(0) =~= Seq::<Player>::empty());
        while i < self.players.len()
            invariant
                i <= self.players@.len(),
                c == count_active(self.players@.take(i as int)),
                c <= i,
            decreases self.players@.len() - i,
        {
            assert(self.players@.take(i as int + 1).drop_last() =~= self.players@.take(i as int));
            if self.players[i].status == PlayerStatus::Active {
                c = c + 1;
            }
            i = i + 1;
        }
        assert(self.players@.take(i as int) =~= self.players@);
        c
    }

    fn next_eligible_from(&self, start: usize) -> (r: usize)
        requires
            start < self.players@.len(),
            self.players@.len() <= MAX_PLAYERS,
        ensures
            r == next_active(self.players@, start as int),
            r < self.players@.len(),
    {
        let n = self.players.len();
        let mut k: usize = 1;
        proof {
            lemma_next_active_from_facts(self.players@, start as int, 1);
        }
        while k <= n
            invariant
                1 <= k <= n + 1,
                n == self.players@.len(),
                n <= MAX_PLAYERS,
                start < n,
                next_active_from(self.players@, start as int, k as int) == next_active(
                    self.players@,
                    start as int,
                ),
            decreases n + 1 - k,
        {
            let idx = (start + k) % n;
            if self.players[idx].status == PlayerStatus::Active {
                return idx;
            }
            k = k + 1;
        }
        (start + 1) % n
    }

    fn record_history(&mut self, seat: usize, verb: HandHistoryVerb, amount: Option<u64>)
        ensures
            final(self).history() == old(self).history().push(
                HandHistoryEntry { seat, verb, amount, street: old(self).street },
            ),
            final(self).players == old(self).players,
            final(self).pot == old(self).pot,
            final(self).street == old(self).street,
            final(self).board == old(self).board,
            final(self).deck == old(self).deck,
            final(self).dealer == old(self).dealer,
            final(self).current == old(self).current,
            final(self).round_starter == old(self).round_starter,
            final(self).current_bet == old(self).current_bet,
            final(self).min_raise == old(self).min_raise,
            final(self).last_raiser == old(self).last_raiser,
            final(self).showdown_categories == old(self).showdown_categories,
            final(self).winners == old(self).winners,
            final(self).sb_pos == old(self).sb_pos,
            final(self).bb_pos == old(self).bb_pos,
            final(self).small_blind == old(self).small_blind,
            final(self).big_blind == old(self).big_blind,
    {
        let entry = HandHistoryEntry { seat, verb, amount, street: self.street };
        self.hand_history.push(entry);
    }

    /// Move up to `amount` chips from the stack of seat `idx` into its bet,
    /// its contribution and the pot; a player left with no chips is all-in.
    fn pay_chips(&mut self, idx: usize, amount: u64) -> (paid: u64)
        requires
            idx < old(self).players@.len(),
            old(self).seats_ok(),
            old(self).pot == sum_contributed(old(self).players@),
            old(self).players@[idx as int].bet <= old(self).players@[idx as int].contributed,
        ensures
            paid == if amount <= old(self).players@[idx as int].stack {
                amount
            } else {
                old(self).players@[idx as int].stack
            },
            final(self).players@ == old(self).players@.update(
                idx as int,
                Player {
                    stack: (old(self).players@[idx as int].stack - paid) as u64,
                    bet: (old(self).players@[idx as int].bet + paid) as u64,
                    contributed: (old(self).players@[idx as int].contributed + paid) as u64,
                    status: if old(self).players@[idx as int].stack == paid {
                        PlayerStatus::AllIn
                    } else {
                        old(self).players@[idx as int].status
                    },
                    ..old(self).players@[idx as int]
                },
            ),
            final(self).pot == old(self).pot + paid,
            final(self).players@[idx as int].bet == old(self).players@[idx as int].bet + paid,
            final(self).players@[idx as int].contributed == old(self).players@[idx as int].contributed
                + paid,
            final(self).players@[idx as int].stack == old(self).players@[idx as int].stack - paid,
            final(self).pot == sum_contributed(final(self).players@),
            count_active(final(self).players@) >= count_active(old(self).players@) - 1,
            sum_stacks(final(self).players@) + final(self).pot == sum_stacks(old(self).players@)
                + old(self).pot,
            final(self).seats_ok(),
            final(self).history() == old(self).history(),
            final(self).street == old(self).street,
            final(self).board == old(self).board,
            final(self).deck == old(self).deck,
            final(self).dealer == old(self).dealer,
            final(self).current == old(self).current,
            final(self).round_starter == old(self).round_starter,
            final(self).current_bet == old(self).current_bet,
            final(self).min_raise == old(self).min_raise,
            final(self).last_raiser == old(self).last_raiser,
            final(self).showdown_categories == old(self).showdown_categories,
            final(self).winners == old(self).winners,
            final(self).sb_pos == old(self).sb_pos,
            final(self).bb_pos == old(self).bb_pos,
            final(self).small_blind == old(self).small_blind,
            final(self).big_blind == old(self).big_blind,
    {
        let ghost ps = self.players@;
        proof {
            lemma_sum_bounds(ps, idx as int);
        }
        let stack = self.players[idx].stack;
        let paid = if amount <= stack {
            amount
        } else {
            stack
        };
        let mut p = self.players.remove(idx);
        p.stack = stack - paid;
        p.bet = p.bet + paid;
        p.contributed = p.contributed + paid;
        if p.stack == 0 {
            p.status = PlayerStatus::AllIn;
        }
        self.players.insert(idx, p);
        self.pot = self.pot + paid;
        proof {
            assert(self.players@ =~= ps.update(idx as int, p));
            lemma_sums_update(ps, idx as int, p);
        }
        paid
    }
}

} // verus!

verus! {

/// Sum of a sequence of chip amounts.
pub open spec fn chip_sum(s: Seq<u64>) -> int
    decreases s.len(),
{
    if s.len() == 0 {
        0
    } else {
        chip_sum(s.drop_last()) + s.last()
    }
}

proof fn lemma_chip_sum_update(s: Seq<u64>, i: int, v: u64)
    requires
        0 <= i < s.len(),
    ensures
        chip_sum(s.update(i, v)) == chip_sum(s) - s[i] + v,
    decreases s.len(),
{
    if i < s.len() - 1 {
        lemma_chip_sum_update(s.drop_last(), i, v);
        assert(s.update(i, v).drop_last() =~= s.drop_last().update(i, v));
    } else {
        assert(s.update(i, v).drop_last() =~= s.drop_last());
    }
}

proof fn lemma_chip_sum_bound(s: Seq<u64>, i: int)
    requires
        0 <= i < s.len(),
    ensures
        s[i] <= chip_sum(s),
    decreases s.len(),
{
    lemma_chip_sum_nonneg(s);
    if i < s.len() - 1 {
        lemma_chip_sum_bound(s.drop_last(), i);
    } else {
        lemma_chip_sum_nonneg(s.drop_last());
    }
}

proof fn lemma_chip_sum_nonneg(s: Seq<u64>)
    ensures
        chip_sum(s) >= 0,
    decreases s.len(),
{
    if s.len() > 0 {
        lemma_chip_sum_nonneg(s.drop_last());
    }
}

proof fn lemma_chip_sum_zeros(n: int)
    requires
        n >= 0,
    ensures
        chip_sum(Seq::new(n as nat, |i: int| 0u64)) == 0,
    decreases n,
{
    if n > 0 {
        lemma_chip_sum_zeros(n - 1);
        assert(Seq::new(n as nat, |i: int| 0u64).drop_last() =~= Seq::new(
            (n - 1) as nat,
            |i: int| 0u64,
        ));
    }
}

/// Contributions of the players, seat by seat.
pub open spec fn contributions(ps: Seq<Player>) -> Seq<u64> {
    ps.map_values(|p: Player| p.contributed)
}

proof fn lemma_contributions_sum(ps: Seq<Player>)
    ensures
        chip_sum(contributions(ps)) == sum_contributed(ps),
    decreases ps.len(),
{
    if ps.len() > 0 {
        lemma_contributions_sum(ps.drop_last());
        assert(contributions(ps).drop_last() =~= contributions(ps.drop_last()));
    }
}

/// A player who can win chips at showdown: not folded and holding cards.
pub open spec fn is_contender(p: Player) -> bool {
    p.status != PlayerStatus::Folded && p.hole is Some
}

/// Seat `i` in clockwise order starting at `start`, `k` seats along.
pub open spec fn seat_after(start: int, k: int, n: int) -> int {
    (start + k) % n
}

/// Players sharing a pot of `amount` chips, listed in seat order from the
/// left of the dealer: each gets the even share, and the first
/// `amount % count` get one odd chip more.
pub open spec fn share_of(amount: u64, count: int, pos: int) -> int {
    amount as int / count + if pos < amount as int % count {
        1int
    } else {
        0int
    }
}

/// The two shares add up to the pot.
pub proof fn lemma_shares_sum(amount: u64, count: int)
    requires
        count > 0,
    ensures
        amount as int == (amount as int / count) * count + amount as int % count,
        0 <= amount as int % count < count,
{
    vstd::arithmetic::div_mod::lemma_fundamental_div_mod(amount as int, count);
    vstd::arithmetic::div_mod::lemma_mod_bound(amount as int, count);
    vstd::arithmetic::mul::lemma_mul_is_commutative(amount as int / count, count);
}

impl Game {
    fn total_contributed(&self) -> (r: u64)
        requires
            sum_contributed(self.players@) <= u64::MAX,
        ensures
            r == sum_contributed(self.players@),
    {
        let mut total: u64 = 0;
        let mut i: usize = 0;
        proof {
            lemma_sums_nonneg(self.players@);
            assert(self.players@.take(0) =~= Seq::<Player>::empty());
        }
        while i < self.players.len()
            invariant
                sum_contributed(self.players@) <= u64::MAX,
                i <= self.players@.len(),
                total == sum_contributed(self.players@.take(i as int)),
            decreases self.players@.len() - i,
        {
            proof {
                assert(self.players@.take(i as int + 1).drop_last() =~= self.players@.take(
                    i as int,
                ));
                lemma_sums_nonneg(self.players@);
                assert(self.players@.take(i as int + 1).last() == self.players@[i as int]);
                lemma_contributions_prefix(self.players@, i as int + 1);
            }
            total = total + self.players[i].contributed;
            i = i + 1;
        }
        assert(self.players@.take(i as int) =~= self.players@);
        total
    }
}

proof fn lemma_contributions_prefix(ps: Seq<Player>, k: int)
    requires
        0 <= k <= ps.len(),
    ensures
        sum_contributed(ps.take(k)) <= sum_contributed(ps),
    decreases ps.len() - k,
{
    if k < ps.len() {
        lemma_contributions_prefix(ps, k + 1);
        assert(ps.take(k + 1).drop_last() =~= ps.take(k));
    } else {
        assert(ps.take(k) =~= ps);
    }
}

} // verus!

verus! {

/// The smallest of `c[0..i]` above `prev`, if any.
pub open spec fn level_above(c: Seq<u64>, prev: u64, i: int) -> Option<u64>
    decreases i,
{
    if i <= 0 {
        None
    } else {
        let r = level_above(c, prev, i - 1);
        if c[i - 1] > prev {
            match r {
                None => Some(c[i - 1]),
                Some(l) => if c[i - 1] < l {
                    Some(c[i - 1])
                } else {
                    r
                },
            }
        } else {
            r
        }
    }
}

/// Number of seats among the first `i` that contributed at least `lvl`.
pub open spec fn count_at_least(c: Seq<u64>, lvl: u64, i: int) -> int
    decreases i,
{
    if i <= 0 {
        0
    } else {
        count_at_least(c, lvl, i - 1) + if c[i - 1] >= lvl {
            1int
        } else {
            0int
        }
    }
}

/// The best value held by a seat among the first `i` that contributed at
/// least `lvl`, if any seat there holds one.
pub open spec fn best_upto(c: Seq<u64>, values: Seq<Option<u64>>, lvl: u64, i: int) -> Option<u64>
    decreases i,
{
    if i <= 0 {
        None
    } else {
        let b = best_upto(c, values, lvl, i - 1);
        if c[i - 1] >= lvl && values[i - 1] is Some {
            let v = values[i - 1]->Some_0;
            match b {
                None => Some(v),
                Some(x) => if v > x {
                    Some(v)
                } else {
                    b
                },
            }
        } else {
            b
        }
    }
}

/// The seats that contributed at least `lvl` and hold `best`, among the
/// first `k` seats clockwise from `start`, in that order.
pub open spec fn winners_upto(
    c: Seq<u64>,
    values: Seq<Option<u64>>,
    lvl: u64,
    best: u64,
    start: int,
    k: int,
) -> Seq<usize>
    decreases k,
{
    if k <= 0 {
        Seq::empty()
    } else {
        let i = (start + k - 1) % (c.len() as int);
        let w = winners_upto(c, values, lvl, best, start, k - 1);
        if c[i] >= lvl && values[i] == Some(best) {
            w.push(i as usize)
        } else {
            w
        }
    }
}

/// `w` after the winners `ws[m..]` of a pot of `amount` chips took their
/// shares: the even share, plus one odd chip for each of the first
/// `amount % ws.len()` winners.
pub open spec fn add_shares(w: Seq<int>, ws: Seq<usize>, amount: u64, m: int) -> Seq<int>
    decreases ws.len() - m,
{
    if m < 0 || m >= ws.len() {
        w
    } else {
        add_shares(
            w.update(ws[m] as int, w[ws[m] as int] + share_of(amount, ws.len() as int, m)),
            ws,
            amount,
            m + 1,
        )
    }
}

/// `w` after the pot between levels `prev` and `lvl` was paid: it holds
/// (lvl - prev) chips from each seat that contributed at least `lvl`, and
/// goes to the seats among them with the best value, split evenly, odd
/// chips clockwise from `start`. A pot nobody can win stays unpaid.
pub open spec fn pay_level(
    c: Seq<u64>,
    values: Seq<Option<u64>>,
    start: int,
    prev: u64,
    lvl: u64,
    w: Seq<int>,
) -> Seq<int> {
    let n = c.len() as int;
    let amount = ((lvl - prev) * count_at_least(c, lvl, n)) as u64;
    match best_upto(c, values, lvl, n) {
        None => w,
        Some(b) => add_shares(w, winners_upto(c, values, lvl, b, start, n), amount, 0),
    }
}

/// `w` after every pot above level `prev` was paid, lowest level first.
pub open spec fn payouts_from(
    c: Seq<u64>,
    values: Seq<Option<u64>>,
    start: int,
    prev: u64,
    w: Seq<int>,
) -> Seq<int>
    decreases u64::MAX - prev,
{
    match level_above(c, prev, c.len() as int) {
        None => w,
        Some(l) => if l <= prev {
            w
        } else {
            payouts_from(c, values, start, l, pay_level(c, values, start, prev, l, w))
        },
    }
}

/// Chips each seat wins at showdown: the pots of every distinct positive
/// contribution level, from the lowest, paid as `pay_level` says.
pub open spec fn side_pot_payouts(c: Seq<u64>, values: Seq<Option<u64>>, start: int) -> Seq<int> {
    payouts_from(c, values, start, 0, Seq::new(c.len(), |i: int| 0int))
}

/// The non-empty pots of every distinct contribution level above `prev`,
/// lowest first: (level - previous level) chips from each seat that
/// contributed at least the level.
pub open spec fn level_pots_from(c: Seq<u64>, prev: u64) -> Seq<int>
    decreases u64::MAX - prev,
{
    match level_above(c, prev, c.len() as int) {
        None => Seq::empty(),
        Some(l) => if l <= prev {
            Seq::empty()
        } else {
            let amount = (l - prev) * count_at_least(c, l, c.len() as int);
            (if amount > 0 {
                seq![amount]
            } else {
                Seq::empty()
            }) + level_pots_from(c, l)
        },
    }
}

/// Chip amounts as integers.
pub open spec fn as_ints(s: Seq<u64>) -> Seq<int> {
    s.map_values(|x: u64| x as int)
}

/// The smallest amount in `c` above `prev`, if any.
pub fn next_level(c: &Vec<u64>, prev: u64) -> (r: Option<u64>)
    ensures
        r == level_above(c@, prev, c@.len() as int),
        r is None ==> forall|i: int| 0 <= i < c@.len() ==> #[trigger] c@[i] <= prev,
        r matches Some(l) ==> l > prev && (exists|i: int| 0 <= i < c@.len() && #[trigger] c@[i] == l)
            && forall|i: int| 0 <= i < c@.len() ==> !(prev < #[trigger] c@[i] < l),
{
    let mut best: Option<u64> = None;
    let mut i: usize = 0;
    while i < c.len()
        invariant
            best == level_above(c@, prev, i as int),
            i <= c@.len(),
            best is None ==> forall|k: int| 0 <= k < i ==> #[trigger] c@[k] <= prev,
            best matches Some(l) ==> l > prev && (exists|k: int| 0 <= k < i && #[trigger] c@[k] == l)
                && forall|k: int| 0 <= k < i ==> !(prev < #[trigger] c@[k] < l),
        decreases c@.len() - i,
    {
        let v = c[i];
        if v > prev {
            match best {
                None => {
                    best = Some(v);
                },
                Some(l) => {
                    if v < l {
                        best = Some(v);
                    }
                },
            }
        }
        i = i + 1;
    }
    best
}

/// Every positive contribution is matched or exceeded by a contender's.
pub open spec fn every_level_contested(c: Seq<u64>, values: Seq<Option<u64>>) -> bool {
    forall|p: int|
        0 <= p < c.len() && c[p] > 0 ==> exists|q: int|
            0 <= q < c.len() && (#[trigger] values[q]) is Some && c[q] >= #[trigger] c[p]
}

/// Seat `i` holds the best value among the seats that contributed at least
/// `lvl` (a positive level it reached itself).
pub open spec fn best_at_level(c: Seq<u64>, values: Seq<Option<u64>>, lvl: u64, i: int) -> bool {
    &&& 0 < lvl <= c[i]
    &&& values[i] is Some
    &&& forall|j: int|
        0 <= j < c.len() && c[j] >= lvl && (#[trigger] values[j]) is Some ==> values[j]->Some_0
            <= values[i]->Some_0
}

/// Best value among the seats that contributed at least `lvl` and hold a value.
fn best_value_at(c: &Vec<u64>, values: &Vec<Option<u64>>, lvl: u64) -> (r: Option<u64>)
    requires
        c@.len() == values@.len(),
    ensures
        r == best_upto(c@, values@, lvl, c@.len() as int),
        r is None <==> forall|i: int|
            0 <= i < c@.len() && c@[i] >= lvl ==> #[trigger] values@[i] is None,
        r matches Some(b) ==> (exists|i: int|
            0 <= i < c@.len() && c@[i] >= lvl && #[trigger] values@[i] == Some(b)) && forall|i: int|
            0 <= i < c@.len() && c@[i] >= lvl && (#[trigger] values@[i]) is Some
                ==> values@[i]->Some_0 <= b,
{
    let mut best: Option<u64> = None;
    let mut i: usize = 0;
    while i < c.len()
        invariant
            best == best_upto(c@, values@, lvl, i as int),
            i <= c@.len(),
            c@.len() == values@.len(),
            best is None <==> forall|k: int|
                0 <= k < i && c@[k] >= lvl ==> #[trigger] values@[k] is None,
            best matches Some(b) ==> (exists|k: int|
                0 <= k < i && c@[k] >= lvl && #[trigger] values@[k] == Some(b)) && forall|k: int|
                0 <= k < i && c@[k] >= lvl && (#[trigger] values@[k]) is Some ==> values@[k]->Some_0
                    <= b,
        decreases c@.len() - i,
    {
        if c[i] >= lvl {
            match values[i] {
                Some(v) => {
                    match best {
                        None => {
                            best = Some(v);
                        },
                        Some(b) => {
                            if v > b {
                                best = Some(v);
                            }
                        },
                    }
                },
                None => {},
            }
        }
        i = i + 1;
    }
    best
}

/// Seats that contributed at least `lvl` and hold exactly `value`, in
/// clockwise order starting at `start`.
fn seats_with_value(c: &Vec<u64>, values: &Vec<Option<u64>>, lvl: u64, value: u64, start: usize) -> (r: Vec<usize>)
    requires
        c@.len() == values@.len(),
        start < c@.len() <= MAX_PLAYERS,
    ensures
        r@ == winners_upto(c@, values@, lvl, value, start as int, c@.len() as int),
        r@.len() <= c@.len(),
        forall|j: int| 0 <= j < r@.len() ==> #[trigger] r@[j] < c@.len(),
        forall|j: int|
            0 <= j < r@.len() ==> c@[#[trigger] r@[j] as int] >= lvl && values@[r@[j] as int] == Some(
                value,
            ),
        (exists|i: int| 0 <= i < c@.len() && c@[i] >= lvl && #[trigger] values@[i] == Some(value))
            ==> r@.len() > 0,
{
    let n = c.len();
    let mut out: Vec<usize> = Vec::new();
    let mut k: usize = 0;
    while k < n
        invariant
            k <= n,
            n == c@.len(),
            c@.len() == values@.len(),
            start < n <= MAX_PLAYERS,
            out@ == winners_upto(c@, values@, lvl, value, start as int, k as int),
            out@.len() <= k,
            forall|j: int| 0 <= j < out@.len() ==> #[trigger] out@[j] < n,
            forall|j: int|
                0 <= j < out@.len() ==> c@[#[trigger] out@[j] as int] >= lvl && values@[out@[j] as int]
                    == Some(value),
            (exists|m: int|
                0 <= m < k && c@[(start + m) % (n as int)] >= lvl && #[trigger] values@[(start + m)
                    % (n as int)] == Some(value)) ==> out@.len() > 0,
        decreases n - k,
    {
        let i = (start + k) % n;
        if c[i] >= lvl && values[i] == Some(value) {
            out.push(i);
        }
        k = k + 1;
    }
    proof {
        if exists|i: int| 0 <= i < c@.len() && c@[i] >= lvl && #[trigger] values@[i] == Some(value) {
            let i = choose|i: int| 0 <= i < c@.len() && c@[i] >= lvl && #[trigger] values@[i] == Some(value);
            let m = if i >= start { i - start } else { i - start + n };
            assert((start + m) % (n as int) == i) by {
                if i >= start {
                    assert(i % (n as int) == i) by (nonlinear_arith)
                        requires 0 <= i < n;
                } else {
                    assert((i + n) % (n as int) == i) by (nonlinear_arith)
                        requires 0 <= i < n;
                }
            }
            assert(0 <= m < n);
            assert(c@[(start + m) % (n as int)] >= lvl && values@[(start + m) % (n as int)] == Some(value));
        }
    }
    out
}

} // verus!

verus! {

/// Side-pot distribution. `c` holds each seat's contribution to the hand,
/// `values` each contender's hand value (None for seats that cannot win),
/// `start` the seat left of the dealer. For each distinct positive
/// contribution level, from the lowest, a pot of (level - previous level)
/// times the number of seats that contributed at least the level goes to
/// the seats among them with the best value; a tie splits the pot evenly,
/// odd chips going one at a time clockwise from `start`. Returns the chips
/// won by each seat and whether a seat shared a pot.
pub fn distribute_pots(c: &Vec<u64>, values: &Vec<Option<u64>>, start: usize) -> (r: (
    Vec<u64>,
    Vec<bool>,
))
    requires
        c@.len() == values@.len(),
        start < c@.len() <= MAX_PLAYERS,
        chip_sum(c@) <= u64::MAX,
    ensures
        r.0@.len() == c@.len(),
        r.1@.len() == c@.len(),
        chip_sum(r.0@) <= chip_sum(c@),
        every_level_contested(c@, values@) ==> chip_sum(r.0@) == chip_sum(c@),
        forall|i: int| 0 <= i < c@.len() && #[trigger] r.0@[i] > 0 ==> values@[i] is Some,
        forall|i: int|
            0 <= i < c@.len() && #[trigger] r.0@[i] > 0 ==> exists|l: u64| best_at_level(c@, values@, l, i),
        as_ints(r.0@) == side_pot_payouts(c@, values@, start as int),
        every_level_contested(c@, values@) && chip_sum(c@) > 0 ==> exists|i: int|
            0 <= i < r.0@.len() && #[trigger] r.0@[i] > 0,
{
    let n = c.len();
    let mut left: Vec<u64> = Vec::new();
    let mut winnings: Vec<u64> = Vec::new();
    let mut split: Vec<bool> = Vec::new();
    let mut i: usize = 0;
    while i < n
        invariant
            i <= n,
            n == c@.len(),
            left@ == c@.take(i as int),
            winnings@ == Seq::new(i as nat, |k: int| 0u64),
            split@.len() == i,
        decreases n - i,
    {
        left.push(c[i]);
        winnings.push(0);
        split.push(false);
        i = i + 1;
        assert(left@ =~= c@.take(i as int));
        assert(winnings@ =~= Seq::new(i as nat, |k: int| 0u64));
    }
    proof {
        assert(left@ =~= c@);
        lemma_chip_sum_zeros(n as int);
    }
    let mut prev: u64 = 0;
    let ghost mut unclaimed: int = 0;
    assert(as_ints(winnings@) =~= Seq::new(n as nat, |i: int| 0int));
    loop
        invariant
            n == c@.len(),
            c@.len() == values@.len(),
            start < n <= MAX_PLAYERS,
            chip_sum(c@) <= u64::MAX,
            left@.len() == n,
            winnings@.len() == n,
            split@.len() == n,
            forall|k: int|
                0 <= k < n ==> #[trigger] left@[k] == if c@[k] >= prev {
                    c@[k] - prev
                } else {
                    0
                },
            chip_sum(left@) + chip_sum(winnings@) + unclaimed == chip_sum(c@),
            unclaimed >= 0,
            every_level_contested(c@, values@) ==> unclaimed == 0,
            forall|k: int| 0 <= k < n && #[trigger] winnings@[k] > 0 ==> values@[k] is Some,
            forall|k: int|
                0 <= k < n && #[trigger] winnings@[k] > 0 ==> exists|l: u64| best_at_level(c@, values@, l, k),
            payouts_from(c@, values@, start as int, prev, as_ints(winnings@)) == side_pot_payouts(c@, values@, start as int),
        ensures
            chip_sum(left@) == 0,
            as_ints(winnings@) == side_pot_payouts(c@, values@, start as int),
        decreases u64::MAX - prev,
    {
        let lvl = match next_level(c, prev) {
            None => {
                proof {
                    assert forall|k: int| 0 <= k < n implies #[trigger] left@[k] == 0u64 by {}
                    assert(left@ =~= Seq::new(n as nat, |k: int| 0u64));
                    lemma_chip_sum_zeros(n as int);
                }
                break;
            },
            Some(l) => l,
        };
        proof {
            lemma_chip_sum_nonneg(winnings@);
        }
        let amount = collect_level(c, &mut left, prev, lvl);
        let best = best_value_at(c, values, lvl);
        let ghost w0 = as_ints(winnings@);
        match best {
            None => {
                proof {
                    unclaimed = unclaimed + amount;
                    if every_level_contested(c@, values@) {
                        let p = choose|p: int| 0 <= p < n && #[trigger] c@[p] == lvl;
                        assert(c@[p] > 0);
                        let q = choose|q: int|
                            0 <= q < c@.len() && (#[trigger] values@[q]) is Some && c@[q] >= c@[p];
                        assert(values@[q] is None);
                    }
                }
            },
            Some(b) => {
                let ws = seats_with_value(c, values, lvl, b, start);
                let cnt = ws.len();
                let per = amount / (cnt as u64);
                let rem = amount % (cnt as u64);
                proof {
                    lemma_shares_sum(amount, cnt as int);
                }
                let mut given: u64 = 0;
                let mut m: usize = 0;
                while m < cnt
                    invariant
                        m <= cnt,
                        cnt == ws@.len(),
                        cnt > 0,
                        n == c@.len(),
                        winnings@.len() == n,
                        split@.len() == n,
                        per == amount as int / cnt as int,
                        rem == amount as int % cnt as int,
                        amount as int == per * cnt + rem,
                        rem < cnt,
                        given == per * m + if m < rem {
                            m as int
                        } else {
                            rem as int
                        },
                        forall|k: int| 0 <= k < ws@.len() ==> #[trigger] ws@[k] < n,
                        forall|k: int|
                            0 <= k < ws@.len() ==> values@[#[trigger] ws@[k] as int] == Some(b),
                        chip_sum(left@) + chip_sum(winnings@) + amount - given + unclaimed
                            == chip_sum(c@),
                        chip_sum(c@) <= u64::MAX,
                        unclaimed >= 0,
                        forall|k: int|
                            0 <= k < n && #[trigger] winnings@[k] > 0 ==> values@[k] is Some,
                        forall|k: int|
                            0 <= k < n && #[trigger] winnings@[k] > 0 ==> exists|l: u64| best_at_level(c@, values@, l, k),
                        forall|k: int| 0 <= k < ws@.len() ==> c@[#[trigger] ws@[k] as int] >= lvl,
                        add_shares(as_ints(winnings@), ws@, amount, m as int) == pay_level(c@, values@, start as int, prev, lvl, w0),
                        lvl > 0,
                        forall|j: int|
                            0 <= j < c@.len() && c@[j] >= lvl && (#[trigger] values@[j]) is Some
                                ==> values@[j]->Some_0 <= b,
                    decreases cnt - m,
                {
                    proof {
                        assert(per * (m + 1) == per * m + per) by (nonlinear_arith);
                        assert(per * m <= per * cnt) by (nonlinear_arith)
                            requires
                                m <= cnt,
                        ;
                        assert(per * (m + 1) <= per * cnt) by (nonlinear_arith)
                            requires
                                m + 1 <= cnt,
                        ;
                        lemma_chip_sum_nonneg(left@);
                        assert(per * cnt >= per) by (nonlinear_arith)
                            requires
                                cnt >= 1,
                                per >= 0,
                        ;
                    }
                    let amt = if (m as u64) < rem {
                        per + 1
                    } else {
                        per
                    };
                    let w = ws[m];
                    let ghost before = winnings@;
                    proof {
                        lemma_chip_sum_bound(before, w as int);
                    }
                    let nv = winnings[w] + amt;
                    winnings.set(w, nv);
                    proof {
                        lemma_chip_sum_update(before, w as int, nv);
                        assert(best_at_level(c@, values@, lvl, w as int));
                        assert(amt as int == share_of(amount, cnt as int, m as int));
                        assert(as_ints(winnings@) =~= as_ints(before).update(w as int, as_ints(before)[w as int] + share_of(amount, cnt as int, m as int)));
                    }
                    if cnt > 1 {
                        split.set(w, true);
                    }
                    given = given + amt;
                    m = m + 1;
                }
            },
        }
        proof {
            assert(as_ints(winnings@) == pay_level(c@, values@, start as int, prev, lvl, w0));
        }
        prev = lvl;
    }
    proof {
        if every_level_contested(c@, values@) && chip_sum(c@) > 0 {
            lemma_chip_sum_positive(winnings@);
        }
    }
    (winnings, split)
}

} // verus!

verus! {

/// `b` is `a` after chips were paid out: same seats, contributions, statuses
/// and cards, and no stack smaller.
pub open spec fn paid_out(a: Seq<Player>, b: Seq<Player>) -> bool {
    &&& a.len() == b.len()
    &&& forall|i: int|
        0 <= i < a.len() ==> {
            &&& (#[trigger] b[i]).contributed == a[i].contributed
            &&& b[i].status == a[i].status
            &&& b[i].hole == a[i].hole
            &&& b[i].stack >= a[i].stack
        }
}

impl Game {
    fn contender_seats(&self) -> (r: Vec<usize>)
        ensures
            forall|j: int| 0 <= j < r@.len() ==> #[trigger] r@[j] < self.players@.len(),
            forall|j: int| 0 <= j < r@.len() ==> is_contender(self.players@[#[trigger] r@[j] as int]),
            r@.len() == 0 ==> forall|i: int|
                0 <= i < self.players@.len() ==> !is_contender(#[trigger] self.players@[i]),
            forall|k: int| 0 <= k < self.players@.len() && is_contender(#[trigger] self.players@[k]) ==> r@.contains(k as usize),
            forall|j: int, k: int| 0 <= j < k < r@.len() ==> #[trigger] r@[j] < #[trigger] r@[k],
    {
        let mut out: Vec<usize> = Vec::new();
        let mut i: usize = 0;
        while i < self.players.len()
            invariant
                i <= self.players@.len(),
                forall|j: int| 0 <= j < out@.len() ==> #[trigger] out@[j] < self.players@.len(),
                forall|j: int|
                    0 <= j < out@.len() ==> is_contender(self.players@[#[trigger] out@[j] as int]),
                out@.len() == 0 ==> forall|k: int|
                    0 <= k < i ==> !is_contender(#[trigger] self.players@[k]),
                forall|k: int| 0 <= k < i && is_contender(#[trigger] self.players@[k]) ==> out@.contains(k as usize),
                forall|j: int| 0 <= j < out@.len() ==> #[trigger] out@[j] < i,
                forall|j: int, k: int| 0 <= j < k < out@.len() ==> #[trigger] out@[j] < #[trigger] out@[k],
            decreases self.players@.len() - i,
        {
            if self.players[i].status != PlayerStatus::Folded && self.players[i].hole.is_some() {
                let ghost before = out@;
                out.push(i);
                proof {
                    assert forall|k: int| 0 <= k < i && is_contender(#[trigger] self.players@[k]) implies out@.contains(k as usize) by {
                        let j = choose|j: int| 0 <= j < before.len() && before[j] == k as usize;
                        assert(out@[j] == k as usize);
                    }
                    assert(out@[out@.len() - 1] == i);
                }
            }
            i = i + 1;
        }
        out
    }

    /// Set every player's bet of the round to zero.
    fn clear_bets(&mut self)
        ensures
            final(self).players@.len() == old(self).players@.len(),
            forall|i: int|
                0 <= i < old(self).players@.len() ==> #[trigger] final(self).players@[i] == (Player {
                    bet: 0,
                    ..old(self).players@[i]
                }),
            sum_stacks(final(self).players@) == sum_stacks(old(self).players@),
            sum_contributed(final(self).players@) == sum_contributed(old(self).players@),
            count_active(final(self).players@) == count_active(old(self).players@),
            final(self).pot == old(self).pot,
            final(self).history() == old(self).history(),
            final(self).street == old(self).street,
            final(self).board == old(self).board,
            final(self).deck == old(self).deck,
            final(self).dealer == old(self).dealer,
            final(self).current == old(self).current,
            final(self).round_starter == old(self).round_starter,
            final(self).current_bet == old(self).current_bet,
            final(self).min_raise == old(self).min_raise,
            final(self).last_raiser == old(self).last_raiser,
            final(self).showdown_categories == old(self).showdown_categories,
            final(self).winners == old(self).winners,
            final(self).sb_pos == old(self).sb_pos,
            final(self).bb_pos == old(self).bb_pos,
            final(self).small_blind == old(self).small_blind,
            final(self).big_blind == old(self).big_blind,
    {
        let mut i: usize = 0;
        while i < self.players.len()
            invariant
                i <= self.players@.len(),
                self.players@.len() == old(self).players@.len(),
                forall|k: int|
                    0 <= k < i ==> #[trigger] self.players@[k] == (Player {
                        bet: 0,
                        ..old(self).players@[k]
                    }),
                forall|k: int|
                    i <= k < self.players@.len() ==> #[trigger] self.players@[k] == old(self).players@[k],
                sum_stacks(self.players@) == sum_stacks(old(self).players@),
                sum_contributed(self.players@) == sum_contributed(old(self).players@),
                count_active(self.players@) == count_active(old(self).players@),
                self.pot == old(self).pot,
                self.history() == old(self).history(),
                self.street == old(self).street,
                self.board == old(self).board,
                self.deck == old(self).deck,
                self.dealer == old(self).dealer,
                self.current == old(self).current,
                self.round_starter == old(self).round_starter,
                self.current_bet == old(self).current_bet,
                self.min_raise == old(self).min_raise,
                self.last_raiser == old(self).last_raiser,
                self.showdown_categories == old(self).showdown_categories,
                self.winners == old(self).winners,
                self.sb_pos == old(self).sb_pos,
                self.bb_pos == old(self).bb_pos,
                self.small_blind == old(self).small_blind,
                self.big_blind == old(self).big_blind,
            decreases self.players@.len() - i,
        {
            let ghost before = self.players@;
            let mut p = self.players.remove(i);
            p.bet = 0;
            self.players.insert(i, p);
            proof {
                assert(self.players@ =~= before.update(i as int, p));
                lemma_sums_update(before, i as int, p);
            }
            i = i + 1;
        }
    }

    /// Give the whole pot to `seat` and record the win.
    fn award_pot(&mut self, seat: usize)
        requires
            seat < old(self).players@.len(),
            old(self).seats_ok(),
        ensures
            final(self).players@ == old(self).players@.update(
                seat as int,
                Player {
                    stack: (old(self).players@[seat as int].stack + old(self).pot) as u64,
                    last_action: final(self).players@[seat as int].last_action,
                    ..old(self).players@[seat as int]
                },
            ),
            final(self).pot == 0,
            final(self).winners@ == seq![seat],
            final(self).players@[seat as int].stack == old(self).players@[seat as int].stack + old(self).pot,
            sum_stacks(final(self).players@) == sum_stacks(old(self).players@) + old(self).pot,
            sum_contributed(final(self).players@) == sum_contributed(old(self).players@),
            count_active(final(self).players@) == count_active(old(self).players@),
            paid_out(old(self).players@, final(self).players@),
            final(self).seats_ok(),
            final(self).history() == old(self).history().push(
                HandHistoryEntry {
                    seat,
                    verb: HandHistoryVerb::Win,
                    amount: Some(old(self).pot),
                    street: old(self).street,
                },
            ),
            final(self).street == old(self).street,
            final(self).board == old(self).board,
            final(self).deck == old(self).deck,
            final(self).dealer == old(self).dealer,
            final(self).current == old(self).current,
            final(self).round_starter == old(self).round_starter,
            final(self).current_bet == old(self).current_bet,
            final(self).min_raise == old(self).min_raise,
            final(self).last_raiser == old(self).last_raiser,
            final(self).showdown_categories == old(self).showdown_categories,
            final(self).small_blind == old(self).small_blind,
            final(self).big_blind == old(self).big_blind,
    {
        let ghost before = self.players@;
        proof {
            lemma_sum_bounds(before, seat as int);
        }
        let amount = self.pot;
        let mut p = self.players.remove(seat);
        p.stack = p.stack + amount;
        p.last_action = Some(describe_action("Win", amount));
        self.players.insert(seat, p);
        proof {
            assert(self.players@ =~= before.update(seat as int, p));
            lemma_sums_update(before, seat as int, p);
        }
        self.record_history(seat, HandHistoryVerb::Win, Some(amount));
        self.pot = 0;
        self.winners = vec![seat];
    }

    /// Deal board cards from the deck until the board has five or the deck
    /// is empty.
    fn fill_board(&mut self)
        requires
            old(self).board@.len() <= 5,
        ensures
            final(self).board@.len() <= 5,
            final(self).board@.len() == 5 || final(self).deck@.len() == 0,
            old(self).deck@.len() + old(self).board@.len() >= 5 ==> final(self).board@.len() == 5,
            final(self).deck@.len() + final(self).board@.len() == old(self).deck@.len() + old(self).board@.len(),
            old(self).board@.len() <= final(self).board@.len(),
            final(self).board@.take(old(self).board@.len() as int) == old(self).board@,
            final(self).players == old(self).players,
            final(self).pot == old(self).pot,
            final(self).history() == old(self).history(),
            final(self).street == old(self).street,
            final(self).dealer == old(self).dealer,
            final(self).current == old(self).current,
            final(self).round_starter == old(self).round_starter,
            final(self).current_bet == old(self).current_bet,
            final(self).min_raise == old(self).min_raise,
            final(self).last_raiser == old(self).last_raiser,
            final(self).showdown_categories == old(self).showdown_categories,
            final(self).winners == old(self).winners,
            final(self).small_blind == old(self).small_blind,
            final(self).big_blind == old(self).big_blind,
    {
        while self.board.len() < 5
            invariant
                self.board@.len() <= 5,
                self.deck@.len() + self.board@.len() == old(self).deck@.len() + old(self).board@.len(),
                old(self).board@.len() <= self.board@.len(),
                self.board@.take(old(self).board@.len() as int) == old(self).board@,
                self.players == old(self).players,
                self.pot == old(self).pot,
                self.history() == old(self).history(),
                self.street == old(self).street,
                self.dealer == old(self).dealer,
                self.current == old(self).current,
                self.round_starter == old(self).round_starter,
                self.current_bet == old(self).current_bet,
                self.min_raise == old(self).min_raise,
                self.last_raiser == old(self).last_raiser,
                self.showdown_categories == old(self).showdown_categories,
                self.winners == old(self).winners,
                self.small_blind == old(self).small_blind,
                self.big_blind == old(self).big_blind,
            ensures
                old(self).board@.len() <= self.board@.len(),
                self.board@.take(old(self).board@.len() as int) == old(self).board@,
                self.board@.len() <= 5,
                self.board@.len() == 5 || self.deck@.len() == 0,
                self.deck@.len() + self.board@.len() == old(self).deck@.len() + old(self).board@.len(),
            decreases 5 - self.board@.len(),
        {
            match self.deck.draw() {
                Some(c) => {
                    let ghost b0 = self.board@;
                    self.board.push(c);
                    assert(self.board@.take(old(self).board@.len() as int) =~= b0.take(old(self).board@.len() as int));
                },
                None => {
                    break;
                },
            }
        }
    }
}

} // verus!

verus! {

proof fn lemma_chip_sum_prefix(s: Seq<u64>, k: int)
    requires
        0 <= k < s.len(),
    ensures
        chip_sum(s.take(k + 1)) == chip_sum(s.take(k)) + s[k],
        chip_sum(s.take(k + 1)) <= chip_sum(s),
    decreases s.len() - k,
{
    assert(s.take(k + 1).drop_last() =~= s.take(k));
    if k + 1 < s.len() {
        lemma_chip_sum_prefix(s, k + 1);
    } else {
        assert(s.take(k + 1) =~= s);
    }
    lemma_chip_sum_nonneg(s.take(k));
}

/// The value at seat `i` is known: it is a contender whose cards and the
/// five-card board evaluate.
pub open spec fn evaluable(p: Player, board: Seq<Card>) -> bool {
    is_contender(p) && board.len() == 5 && holdem_error(p.hole->Some_0@, board) is None
}

/// `values` holds, seat by seat, the hand value a showdown on `board`
/// gives: the best five-card value of the seat's two cards and the board for
/// a player who can win, None for the others.
pub open spec fn showdown_values(ps: Seq<Player>, board: Seq<Card>, values: Seq<Option<u64>>) -> bool {
    &&& values.len() == ps.len()
    &&& forall|i: int|
        0 <= i < ps.len() ==> ((#[trigger] values[i]) is Some <==> evaluable(ps[i], board))
    &&& forall|i: int|
        0 <= i < ps.len() && (#[trigger] values[i]) is Some ==> exists|e: Evaluation|
            best_of_seven(holdem_seven(ps[i].hole->Some_0@, board), e) && e.strength()
                == values[i]->Some_0
}

/// The seats among the first `k` clockwise from `start` that won chips.
pub open spec fn paid_clockwise(w: Seq<int>, start: int, k: int) -> Seq<usize>
    decreases k,
{
    if k <= 0 {
        Seq::empty()
    } else {
        let i = (start + k - 1) % (w.len() as int);
        let rest = paid_clockwise(w, start, k - 1);
        if w[i] > 0 {
            rest.push(i as usize)
        } else {
            rest
        }
    }
}

proof fn lemma_chip_sum_positive(s: Seq<u64>)
    requires
        chip_sum(s) > 0,
    ensures
        exists|i: int| 0 <= i < s.len() && #[trigger] s[i] > 0,
    decreases s.len(),
{
    if s.last() == 0 {
        lemma_chip_sum_positive(s.drop_last());
        let i = choose|i: int| 0 <= i < s.drop_last().len() && #[trigger] s.drop_last()[i] > 0;
        assert(s[i] > 0);
    } else {
        assert(s[s.len() - 1] > 0);
    }
}

proof fn lemma_paid_clockwise_nonempty(w: Seq<int>, start: int, k: int, m: int)
    requires
        0 <= m < k,
        w.len() > 0,
        w[(start + m) % (w.len() as int)] > 0,
    ensures
        paid_clockwise(w, start, k).len() > 0,
    decreases k,
{
    if m < k - 1 {
        lemma_paid_clockwise_nonempty(w, start, k - 1, m);
    }
}

proof fn lemma_showdown_values_same(a: Seq<Player>, b: Seq<Player>, board: Seq<Card>, values: Seq<Option<u64>>)
    requires
        a.len() == b.len(),
        forall|i: int| 0 <= i < a.len() ==> (#[trigger] b[i]).status == a[i].status && b[i].hole == a[i].hole,
        showdown_values(a, board, values),
    ensures
        showdown_values(b, board, values),
{
    assert forall|i: int| 0 <= i < b.len() implies ((#[trigger] values[i]) is Some <==> evaluable(b[i], board)) by {
        assert(evaluable(b[i], board) == evaluable(a[i], board));
    }
    assert forall|i: int|
        0 <= i < b.len() && (#[trigger] values[i]) is Some implies exists|e: Evaluation|
            best_of_seven(holdem_seven(b[i].hole->Some_0@, board), e) && e.strength() == values[i]->Some_0 by {
        assert(b[i].hole == a[i].hole);
    }
}

impl Game {
    /// Evaluate every contender against the board, record their categories,
    /// and return each seat's hand value (None where there is none).
    fn evaluate_contenders(&mut self) -> (r: Vec<Option<u64>>)
        requires
            old(self).showdown_categories@.len() == old(self).players@.len(),
        ensures
            r@.len() == old(self).players@.len(),
            forall|i: int|
                0 <= i < r@.len() ==> ((#[trigger] r@[i]) is Some <==> evaluable(
                    old(self).players@[i],
                    old(self).board@,
                )),
            showdown_values(old(self).players@, old(self).board@, r@),
            final(self).showdown_categories@.len() == old(self).players@.len(),
            final(self).players == old(self).players,
            final(self).pot == old(self).pot,
            final(self).history() == old(self).history(),
            final(self).street == old(self).street,
            final(self).board == old(self).board,
            final(self).deck == old(self).deck,
            final(self).dealer == old(self).dealer,
            final(self).current == old(self).current,
            final(self).round_starter == old(self).round_starter,
            final(self).current_bet == old(self).current_bet,
            final(self).min_raise == old(self).min_raise,
            final(self).last_raiser == old(self).last_raiser,
            final(self).winners == old(self).winners,
            final(self).small_blind == old(self).small_blind,
            final(self).big_blind == old(self).big_blind,
    {
        let mut values: Vec<Option<u64>> = Vec::new();
        let mut i: usize = 0;
        while i < self.players.len()
            invariant
                i <= self.players@.len(),
                values@.len() == i,
                self.showdown_categories@.len() == self.players@.len(),
                forall|k: int|
                    0 <= k < i ==> ((#[trigger] values@[k]) is Some <==> evaluable(
                        self.players@[k],
                        self.board@,
                    )),
                forall|k: int|
                    0 <= k < i && (#[trigger] values@[k]) is Some ==> exists|e: Evaluation|
                        best_of_seven(holdem_seven(self.players@[k].hole->Some_0@, self.board@), e)
                            && e.strength() == values@[k]->Some_0,
                self.players == old(self).players,
                self.pot == old(self).pot,
                self.history() == old(self).history(),
                self.street == old(self).street,
                self.board == old(self).board,
                self.deck == old(self).deck,
                self.dealer == old(self).dealer,
                self.current == old(self).current,
                self.round_starter == old(self).round_starter,
                self.current_bet == old(self).current_bet,
                self.min_raise == old(self).min_raise,
                self.last_raiser == old(self).last_raiser,
                self.winners == old(self).winners,
                self.small_blind == old(self).small_blind,
                self.big_blind == old(self).big_blind,
            decreases self.players@.len() - i,
        {
            let ghost mut found: Option<Evaluation> = None;
            let mut v: Option<u64> = None;
            if self.players[i].status != PlayerStatus::Folded {
                match self.players[i].hole {
                    Some(h) => {
                        match evaluate_holdem(&h, &self.board) {
                            Ok(ev) => {
                                v = Some(ev.value().raw());
                                self.showdown_categories.set(i, Some(ev.category));
                                assert(best_of_seven(holdem_seven(h@, self.board@), ev));
                                proof {
                                    found = Some(ev);
                                }
                            },
                            Err(_) => {},
                        }
                    },
                    None => {},
                }
            }
            proof {
                if v is Some {
                    assert(found is Some);
                }
            }
            values.push(v);
            proof {
                if v is Some {
                    let e = found->Some_0;
                    assert(values@[i as int] == v);
                    assert(best_of_seven(holdem_seven(self.players@[i as int].hole->Some_0@, self.board@), e)
                        && e.strength() == values@[i as int]->Some_0);
                }
            }
            i = i + 1;
        }
        values
    }

    /// Add each seat's winnings to its stack, record a Win (or Split) for
    /// each paid seat in seat order, and list the paid seats clockwise from
    /// `start`.
    fn apply_winnings(&mut self, winnings: &Vec<u64>, split: &Vec<bool>, start: usize)
        requires
            winnings@.len() == old(self).players@.len(),
            split@.len() == old(self).players@.len(),
            start < old(self).players@.len() <= MAX_PLAYERS,
            sum_stacks(old(self).players@) + chip_sum(winnings@) <= u64::MAX,
        ensures
            paid_out(old(self).players@, final(self).players@),
            forall|i: int|
                0 <= i < winnings@.len() ==> (#[trigger] final(self).players@[i]).stack == old(self).players@[i].stack + winnings@[i],
            forall|i: int|
                0 <= i < winnings@.len() ==> (#[trigger] final(self).players@[i]).bet == old(self).players@[i].bet,
            sum_stacks(final(self).players@) == sum_stacks(old(self).players@) + chip_sum(
                winnings@,
            ),
            forall|j: int|
                0 <= j < final(self).winners@.len() ==> winnings@[#[trigger] final(self).winners@[j] as int] > 0,
            forall|j: int|
                0 <= j < final(self).winners@.len() ==> #[trigger] final(self).winners@[j] < final(self).players@.len(),
            final(self).winners@ == paid_clockwise(as_ints(winnings@), start as int, winnings@.len() as int),
            extends(old(self).history(), final(self).history()),
            final(self).pot == old(self).pot,
            final(self).street == old(self).street,
            final(self).board == old(self).board,
            final(self).deck == old(self).deck,
            final(self).dealer == old(self).dealer,
            final(self).current == old(self).current,
            final(self).round_starter == old(self).round_starter,
            final(self).current_bet == old(self).current_bet,
            final(self).min_raise == old(self).min_raise,
            final(self).last_raiser == old(self).last_raiser,
            final(self).showdown_categories == old(self).showdown_categories,
            final(self).small_blind == old(self).small_blind,
            final(self).big_blind == old(self).big_blind,
            (exists|i: int| 0 <= i < winnings@.len() && #[trigger] winnings@[i] > 0) ==> final(self).winners@.len() > 0,
    {
        let n = self.players.len();
        let mut i: usize = 0;
        assert(winnings@.take(0) =~= Seq::<u64>::empty());
        while i < n
            invariant
                i <= n,
                n == self.players@.len(),
                n == old(self).players@.len(),
                winnings@.len() == n,
                split@.len() == n,
                sum_stacks(old(self).players@) + chip_sum(winnings@) <= u64::MAX,
                sum_stacks(self.players@) == sum_stacks(old(self).players@) + chip_sum(
                    winnings@.take(i as int),
                ),
                paid_out(old(self).players@, self.players@),
                forall|k: int|
                    0 <= k < i ==> (#[trigger] self.players@[k]).stack == old(self).players@[k].stack
                        + winnings@[k],
                forall|k: int|
                    i <= k < n ==> (#[trigger] self.players@[k]).stack == old(self).players@[k].stack,
                forall|k: int|
                    0 <= k < n ==> (#[trigger] self.players@[k]).bet == old(self).players@[k].bet,
                extends(old(self).history(), self.history()),
                self.pot == old(self).pot,
                self.street == old(self).street,
                self.board == old(self).board,
                self.deck == old(self).deck,
                self.dealer == old(self).dealer,
                self.current == old(self).current,
                self.round_starter == old(self).round_starter,
                self.current_bet == old(self).current_bet,
                self.min_raise == old(self).min_raise,
                self.last_raiser == old(self).last_raiser,
                self.showdown_categories == old(self).showdown_categories,
                self.small_blind == old(self).small_blind,
                self.big_blind == old(self).big_blind,
            decreases n - i,
        {
            let w = winnings[i];
            proof {
                lemma_chip_sum_prefix(winnings@, i as int);
                lemma_sum_bounds(self.players@, i as int);
            }
            if w > 0 {
                let ghost before = self.players@;
                let mut p = self.players.remove(i);
                p.stack = p.stack + w;
                let verb = if split[i] {
                    HandHistoryVerb::Split
                } else {
                    HandHistoryVerb::Win
                };
                p.last_action = Some(describe_action(verb.label(), w));
                self.players.insert(i, p);
                proof {
                    assert(self.players@ =~= before.update(i as int, p));
                    lemma_sums_update(before, i as int, p);
                }
                self.record_history(i, verb, Some(w));
            }
            i = i + 1;
        }
        assert(winnings@.take(n as int) =~= winnings@);
        let mut winners: Vec<usize> = Vec::new();
        let mut k: usize = 0;
        while k < n
            invariant
                k <= n,
                n == winnings@.len(),
                start < n <= MAX_PLAYERS,
                winners@ == paid_clockwise(as_ints(winnings@), start as int, k as int),
                forall|j: int| 0 <= j < winners@.len() ==> #[trigger] winners@[j] < n,
                forall|j: int|
                    0 <= j < winners@.len() ==> winnings@[#[trigger] winners@[j] as int] > 0,
            decreases n - k,
        {
            let s = (start + k) % n;
            if winnings[s] > 0 {
                winners.push(s);
            }
            k = k + 1;
        }
        proof {
            if exists|i: int| 0 <= i < winnings@.len() && #[trigger] winnings@[i] > 0 {
                let i = choose|i: int| 0 <= i < winnings@.len() && #[trigger] winnings@[i] > 0;
                lemma_seat_offset(start as int, seat_offset(start as int, i, n as int), n as int);
                let m = seat_offset(start as int, i, n as int);
                assert(0 <= m < n);
                assert(as_ints(winnings@)[i] > 0);
                lemma_paid_clockwise_nonempty(as_ints(winnings@), start as int, n as int, m);
            }
        }
        self.winners = winners;
    }
}

} // verus!

verus! {

proof fn lemma_paid_out_sums(a: Seq<Player>, b: Seq<Player>)
    requires
        paid_out(a, b),
    ensures
        sum_contributed(a) == sum_contributed(b),
        count_active(a) == count_active(b),
        sum_stacks(a) <= sum_stacks(b),
    decreases a.len(),
{
    if a.len() > 0 {
        let a2 = a.drop_last();
        let b2 = b.drop_last();
        assert forall|i: int| 0 <= i < a2.len() implies {
            &&& (#[trigger] b2[i]).contributed == a2[i].contributed
            &&& b2[i].status == a2[i].status
            &&& b2[i].hole == a2[i].hole
            &&& b2[i].stack >= a2[i].stack
        } by {
            assert(b2[i] == b[i]);
            assert(a2[i] == a[i]);
        }
        lemma_paid_out_sums(a2, b2);
        assert(b[a.len() - 1] == b.last());
    }
}

/// Every positive contribution is matched or exceeded by a player whose
/// hand can be evaluated on `board`.
pub open spec fn contested_on(ps: Seq<Player>, board: Seq<Card>) -> bool {
    forall|p: int|
        0 <= p < ps.len() && ps[p].contributed > 0 ==> exists|q: int|
            0 <= q < ps.len() && #[trigger] evaluable(ps[q], board) && ps[q].contributed
                >= #[trigger] ps[p].contributed
}

proof fn lemma_contested_same(a: Seq<Player>, b: Seq<Player>, board: Seq<Card>)
    requires
        a.len() == b.len(),
        forall|i: int|
            0 <= i < a.len() ==> (#[trigger] b[i]).contributed == a[i].contributed && b[i].status
                == a[i].status && b[i].hole == a[i].hole,
    ensures
        contested_on(a, board) ==> contested_on(b, board),
{
    if contested_on(a, board) {
        assert forall|p: int|
            0 <= p < b.len() && b[p].contributed > 0 implies exists|q: int|
            0 <= q < b.len() && #[trigger] evaluable(b[q], board) && b[q].contributed
                >= #[trigger] b[p].contributed by {
            assert(a[p].contributed > 0);
            let q = choose|q: int|
                0 <= q < a.len() && #[trigger] evaluable(a[q], board) && a[q].contributed
                    >= #[trigger] a[p].contributed;
            assert(evaluable(b[q], board));
        }
    }
}

/// At most one player can still win chips.
pub open spec fn single_contender(ps: Seq<Player>) -> bool {
    forall|i: int, j: int|
        0 <= i < ps.len() && 0 <= j < ps.len() && is_contender(#[trigger] ps[i]) && is_contender(
            #[trigger] ps[j],
        ) ==> i == j
}

impl Game {
    /// Evaluate the contenders on the full board and pay out every side pot.
    #[verifier::rlimit(60)]
    fn settle_side_pots(&mut self, start: usize)
        requires
            start < old(self).players@.len() <= MAX_PLAYERS,
            old(self).showdown_categories@.len() == old(self).players@.len(),
            sum_stacks(old(self).players@) + sum_contributed(old(self).players@) <= u64::MAX,
        ensures
            paid_out(old(self).players@, final(self).players@),
            forall|i: int|
                0 <= i < final(self).players@.len() ==> (#[trigger] final(self).players@[i]).bet
                    == old(self).players@[i].bet,
            sum_stacks(final(self).players@) <= sum_stacks(old(self).players@) + sum_contributed(
                old(self).players@,
            ),
            contested_on(old(self).players@, old(self).board@) ==> sum_stacks(final(self).players@)
                == sum_stacks(old(self).players@) + sum_contributed(old(self).players@),
            forall|j: int|
                0 <= j < final(self).winners@.len() ==> #[trigger] final(self).winners@[j]
                    < final(self).players@.len(),
            exists|values: Seq<Option<u64>>|
                showdown_values(old(self).players@, old(self).board@, values) && (forall|i: int|
                    0 <= i < old(self).players@.len() ==> (#[trigger] final(self).players@[i]).stack
                        == old(self).players@[i].stack + side_pot_payouts(
                        contributions(old(self).players@),
                        values,
                        start as int,
                    )[i]) && final(self).winners@ == paid_clockwise(
                    side_pot_payouts(contributions(old(self).players@), values, start as int),
                    start as int,
                    old(self).players@.len() as int,
                ),
            contested_on(old(self).players@, old(self).board@) && sum_contributed(old(self).players@) > 0
                ==> final(self).winners@.len() > 0,
            final(self).showdown_categories@.len() == old(self).players@.len(),
            extends(old(self).history(), final(self).history()),
            final(self).pot == old(self).pot,
            final(self).street == old(self).street,
            final(self).board == old(self).board,
            final(self).deck == old(self).deck,
            final(self).dealer == old(self).dealer,
            final(self).current == old(self).current,
            final(self).small_blind == old(self).small_blind,
            final(self).big_blind == old(self).big_blind,
    {
        let n = self.players.len();
        let values = self.evaluate_contenders();
        let mut c: Vec<u64> = Vec::new();
        let mut k: usize = 0;
        while k < n
            invariant
                k <= n,
                n == self.players@.len(),
                c@ == contributions(self.players@).take(k as int),
            decreases n - k,
        {
            c.push(self.players[k].contributed);
            k = k + 1;
            assert(c@ =~= contributions(self.players@).take(k as int));
        }
        proof {
            assert(c@ =~= contributions(self.players@));
            lemma_contributions_sum(self.players@);
            lemma_sums_nonneg(self.players@);
            if contested_on(old(self).players@, self.board@) {
                assert forall|p: int|
                    0 <= p < c@.len() && c@[p] > 0 implies exists|q: int|
                    0 <= q < c@.len() && (#[trigger] values@[q]) is Some && c@[q]
                        >= #[trigger] c@[p] by {
                    assert(self.players@[p].contributed == old(self).players@[p].contributed);
                    let q = choose|q: int|
                        0 <= q < old(self).players@.len() && #[trigger] evaluable(
                            old(self).players@[q],
                            self.board@,
                        ) && old(self).players@[q].contributed >= #[trigger] old(self).players@[p].contributed;
                    assert(evaluable(self.players@[q], self.board@));
                    assert(values@[q] is Some);
                }
            }
        }
        let (winnings, split) = distribute_pots(&c, &values, start);
        self.apply_winnings(&winnings, &split, start);
        proof {
            lemma_chip_sum_nonneg(winnings@);
            let pay = side_pot_payouts(contributions(old(self).players@), values@, start as int);
            assert(contributions(old(self).players@) == c@);
            assert(as_ints(winnings@) == pay);
            assert forall|i: int| 0 <= i < old(self).players@.len() implies (#[trigger] self.players@[i]).stack
                == old(self).players@[i].stack + pay[i] by {
                assert(as_ints(winnings@)[i] == winnings@[i] as int);
            }
            assert(showdown_values(old(self).players@, old(self).board@, values@));
            assert forall|i: int| 0 <= i < self.players@.len() implies (#[trigger] self.players@[i]).bet
                == old(self).players@[i].bet by {}
        }
    }

    /// Showdown: hand the chips committed this hand to the winners.
    ///
    /// With no contender (no player who has not folded and holds cards) the
    /// pot goes to the seat left of the dealer; with one, to that player.
    /// Otherwise the board is completed from the deck (if the deck runs out,
    /// the first contender takes the pot) and the pot is split into side
    /// pots by contribution level, each won by the best hand among the
    /// contenders who contributed to it.
    pub fn finish_showdown(&mut self)
        requires
            old(self).seats_ok(),
            old(self).board@.len() <= 5,
            sum_stacks(old(self).players@) + sum_contributed(old(self).players@) <= u64::MAX,
        ensures
            final(self).seats_ok(),
            final(self).board@.len() <= 5,
            old(self).board@.len() <= final(self).board@.len(),
            paid_out(old(self).players@, final(self).players@),
            sum_contributed(final(self).players@) == sum_contributed(old(self).players@),
            count_active(final(self).players@) == count_active(old(self).players@),
            sum_contributed(old(self).players@) == 0 ==> final(self).pot == old(self).pot
                && final(self).players == old(self).players,
            sum_contributed(old(self).players@) > 0 ==> final(self).pot == 0,
            sum_contributed(old(self).players@) > 0 ==> forall|i: int|
                0 <= i < final(self).players@.len() ==> (#[trigger] final(self).players@[i]).bet
                    == 0,
            sum_stacks(final(self).players@) <= sum_stacks(old(self).players@) + sum_contributed(
                old(self).players@,
            ),
            single_contender(old(self).players@) ==> sum_stacks(final(self).players@) == sum_stacks(
                old(self).players@,
            ) + sum_contributed(old(self).players@),
            contested_on(old(self).players@, final(self).board@) ==> sum_stacks(
                final(self).players@,
            ) == sum_stacks(old(self).players@) + sum_contributed(old(self).players@),
            contested_on(final(self).players@, final(self).board@) ==> sum_stacks(
                final(self).players@,
            ) == sum_stacks(old(self).players@) + sum_contributed(old(self).players@),
            sum_contributed(old(self).players@) > 0 && (forall|i: int|
                0 <= i < old(self).players@.len() ==> !is_contender(#[trigger] old(self).players@[i]))
                ==> final(self).winners@ == seq![((old(self).dealer + 1) % (old(self).players@.len() as int)) as usize]
                && final(self).players@[(old(self).dealer + 1) % old(self).players@.len() as int].stack
                == old(self).players@[(old(self).dealer + 1) % old(self).players@.len() as int].stack
                + sum_contributed(old(self).players@),
            forall|i: int|
                0 <= i < old(self).players@.len() && sum_contributed(old(self).players@) > 0
                    && single_contender(old(self).players@) && is_contender(
                    #[trigger] old(self).players@[i],
                ) ==> final(self).winners@ == seq![i as usize] && final(self).players@[i].stack
                    == old(self).players@[i].stack + sum_contributed(old(self).players@),
            contested_on(final(self).players@, final(self).board@) && sum_contributed(old(self).players@) > 0
                ==> final(self).winners@.len() > 0,
            extends(old(self).board@, final(self).board@),
            old(self).board@.len() == 5 ==> final(self).board == old(self).board,
            final(self).board@.take(old(self).board@.len() as int) == old(self).board@,
            sum_contributed(old(self).players@) > 0 && !single_contender(old(self).players@)
                && old(self).deck@.len() + old(self).board@.len() >= 5 ==> final(self).board@.len() == 5,
            sum_contributed(old(self).players@) > 0 && !single_contender(old(self).players@)
                && final(self).board@.len() == 5 ==> exists|values: Seq<Option<u64>>|
                showdown_values(old(self).players@, final(self).board@, values) && (forall|i: int|
                    0 <= i < old(self).players@.len() ==> (#[trigger] final(self).players@[i]).stack
                        == old(self).players@[i].stack + side_pot_payouts(
                        contributions(old(self).players@),
                        values,
                        (old(self).dealer + 1) % (old(self).players@.len() as int),
                    )[i]) && final(self).winners@ == paid_clockwise(
                    side_pot_payouts(
                        contributions(old(self).players@),
                        values,
                        (old(self).dealer + 1) % (old(self).players@.len() as int),
                    ),
                    (old(self).dealer + 1) % (old(self).players@.len() as int),
                    old(self).players@.len() as int,
                ),
            extends(old(self).history(), final(self).history()),
            final(self).street == old(self).street,
            final(self).dealer == old(self).dealer,
            final(self).current == old(self).current,
            final(self).small_blind == old(self).small_blind,
            final(self).big_blind == old(self).big_blind,
            sum_contributed(old(self).players@) > 0 ==> forall|j: int|
                0 <= j < final(self).winners@.len() ==> #[trigger] final(self).winners@[j]
                    < final(self).players@.len(),
    {
        self.settle_hand();
        proof {
            lemma_contested_same(self.players@, old(self).players@, self.board@);
        }
    }

    /// Pay out the hand (see `finish_showdown`).
    #[verifier::rlimit(100)]
    fn settle_hand(&mut self)
        requires
            old(self).seats_ok(),
            old(self).board@.len() <= 5,
            sum_stacks(old(self).players@) + sum_contributed(old(self).players@) <= u64::MAX,
        ensures
            final(self).seats_ok(),
            final(self).board@.len() <= 5,
            old(self).board@.len() <= final(self).board@.len(),
            paid_out(old(self).players@, final(self).players@),
            sum_contributed(final(self).players@) == sum_contributed(old(self).players@),
            count_active(final(self).players@) == count_active(old(self).players@),
            sum_contributed(old(self).players@) == 0 ==> final(self).pot == old(self).pot
                && final(self).players == old(self).players,
            sum_contributed(old(self).players@) > 0 ==> final(self).pot == 0,
            sum_contributed(old(self).players@) > 0 ==> forall|i: int|
                0 <= i < final(self).players@.len() ==> (#[trigger] final(self).players@[i]).bet
                    == 0,
            sum_stacks(final(self).players@) <= sum_stacks(old(self).players@) + sum_contributed(
                old(self).players@,
            ),
            single_contender(old(self).players@) ==> sum_stacks(final(self).players@) == sum_stacks(
                old(self).players@,
            ) + sum_contributed(old(self).players@),
            contested_on(old(self).players@, final(self).board@) ==> sum_stacks(
                final(self).players@,
            ) == sum_stacks(old(self).players@) + sum_contributed(old(self).players@),
            sum_contributed(old(self).players@) > 0 && (forall|i: int|
                0 <= i < old(self).players@.len() ==> !is_contender(#[trigger] old(self).players@[i]))
                ==> final(self).winners@ == seq![((old(self).dealer + 1) % (old(self).players@.len() as int)) as usize]
                && final(self).players@[(old(self).dealer + 1) % old(self).players@.len() as int].stack
                == old(self).players@[(old(self).dealer + 1) % old(self).players@.len() as int].stack
                + sum_contributed(old(self).players@),
            forall|i: int|
                0 <= i < old(self).players@.len() && sum_contributed(old(self).players@) > 0
                    && single_contender(old(self).players@) && is_contender(
                    #[trigger] old(self).players@[i],
                ) ==> final(self).winners@ == seq![i as usize] && final(self).players@[i].stack
                    == old(self).players@[i].stack + sum_contributed(old(self).players@),
            contested_on(final(self).players@, final(self).board@) && sum_contributed(old(self).players@) > 0
                ==> final(self).winners@.len() > 0,
            extends(old(self).board@, final(self).board@),
            old(self).board@.len() == 5 ==> final(self).board == old(self).board,
            final(self).board@.take(old(self).board@.len() as int) == old(self).board@,
            sum_contributed(old(self).players@) > 0 && !single_contender(old(self).players@)
                && old(self).deck@.len() + old(self).board@.len() >= 5 ==> final(self).board@.len() == 5,
            sum_contributed(old(self).players@) > 0 && !single_contender(old(self).players@)
                && final(self).board@.len() == 5 ==> exists|values: Seq<Option<u64>>|
                showdown_values(old(self).players@, final(self).board@, values) && (forall|i: int|
                    0 <= i < old(self).players@.len() ==> (#[trigger] final(self).players@[i]).stack
                        == old(self).players@[i].stack + side_pot_payouts(
                        contributions(old(self).players@),
                        values,
                        (old(self).dealer + 1) % (old(self).players@.len() as int),
                    )[i]) && final(self).winners@ == paid_clockwise(
                    side_pot_payouts(
                        contributions(old(self).players@),
                        values,
                        (old(self).dealer + 1) % (old(self).players@.len() as int),
                    ),
                    (old(self).dealer + 1) % (old(self).players@.len() as int),
                    old(self).players@.len() as int,
                ),
            extends(old(self).history(), final(self).history()),
            final(self).street == old(self).street,
            final(self).dealer == old(self).dealer,
            final(self).current == old(self).current,
            final(self).small_blind == old(self).small_blind,
            final(self).big_blind == old(self).big_blind,
            sum_contributed(old(self).players@) > 0 ==> forall|j: int|
                0 <= j < final(self).winners@.len() ==> #[trigger] final(self).winners@[j]
                    < final(self).players@.len(),
    {
        proof {
            lemma_sums_nonneg(self.players@);
        }
        let total = self.total_contributed();
        if total == 0 {
            return;
        }
        self.pot = total;
        let contenders = self.contender_seats();
        proof {
            if contenders@.len() >= 2 {
                let i = contenders@[0] as int;
                let j = contenders@[1] as int;
                assert(i < j);
                assert(is_contender(old(self).players@[i]) && is_contender(old(self).players@[j]));
                assert(!single_contender(old(self).players@));
            }
        }
        let ghost before_clear = self.players@;
        self.clear_bets();
        let n = self.players.len();
        let start = (self.dealer + 1) % n;
        if contenders.len() == 0 {
            let ghost cleared = self.players@;
            self.award_pot(start);
            self.showdown_categories.set(start, None);
            proof {
                assert(cleared[start as int].stack == old(self).players@[start as int].stack);
                assert(start as int == (old(self).dealer + 1) % (old(self).players@.len() as int));
            }
            return;
        }
        if contenders.len() == 1 {
            let i = contenders[0];
            proof {
                assert forall|a: int, b: int|
                    0 <= a < old(self).players@.len() && 0 <= b < old(self).players@.len() && is_contender(
                        #[trigger] old(self).players@[a],
                    ) && is_contender(#[trigger] old(self).players@[b]) implies a == b by {
                    assert(contenders@.contains(a as usize));
                    assert(contenders@.contains(b as usize));
                }
                assert(single_contender(old(self).players@));
                assert forall|k: int|
                    0 <= k < old(self).players@.len() && single_contender(old(self).players@)
                        && is_contender(#[trigger] old(self).players@[k]) implies k == i as int by {
                    assert(is_contender(old(self).players@[i as int]));
                }
            }
            let ghost cleared = self.players@;
            self.award_pot(i);
            proof {
                assert(cleared[i as int].stack == old(self).players@[i as int].stack);
            }
            if self.board.len() >= 5 {
                match self.players[i].hole {
                    Some(h) => {
                        match evaluate_holdem(&h, &self.board) {
                            Ok(ev) => {
                                self.showdown_categories.set(i, Some(ev.category));
                            },
                            Err(_) => {},
                        }
                    },
                    None => {},
                }
            }
            return;
        }
        if self.board.len() < 5 {
            self.fill_board();
            if self.board.len() < 5 {
                let i = contenders[0];
                self.award_pot(i);
                return;
            }
        }
        let ghost mid = self.players@;
        proof {
            lemma_contested_same(old(self).players@, mid, self.board@);
        }
        let ghost cleared = self.players@;
        proof {
            assert(contributions(cleared) =~= contributions(old(self).players@));
        }
        self.settle_side_pots(start);
        proof {
            let values = choose|values: Seq<Option<u64>>|
                showdown_values(cleared, self.board@, values) && (forall|i: int|
                    0 <= i < cleared.len() ==> (#[trigger] self.players@[i]).stack
                        == cleared[i].stack + side_pot_payouts(contributions(cleared), values, start as int)[i])
                    && self.winners@ == paid_clockwise(
                    side_pot_payouts(contributions(cleared), values, start as int),
                    start as int,
                    cleared.len() as int,
                );
            lemma_showdown_values_same(cleared, old(self).players@, self.board@, values);
            lemma_contested_same(self.players@, cleared, self.board@);
            assert(start as int == (old(self).dealer + 1) % (old(self).players@.len() as int));
            assert forall|i: int| 0 <= i < old(self).players@.len() implies (#[trigger] self.players@[i]).stack
                == old(self).players@[i].stack + side_pot_payouts(
                contributions(old(self).players@),
                values,
                (old(self).dealer + 1) % (old(self).players@.len() as int),
            )[i] by {
                assert(cleared[i].stack == old(self).players@[i].stack);
            }
        }
        proof {
            lemma_paid_out_sums(mid, self.players@);
        }
        self.pot = 0;
        self.current_bet = 0;
        self.min_raise = self.big_blind;
        self.last_raiser = None;
        self.round_starter = self.current;
    }
}

} // verus!

verus! {

/// Relies on rand's `random`: a fresh u64 from the thread-local generator.
#[verifier::external_body]
fn fresh_seed() -> u64 {
    rand::random::<u64>()
}

/// The first Active seat at or after `start` (cyclically); `start` when
/// there is none.
pub open spec fn first_active_at_or_after(ps: Seq<Player>, start: int) -> int {
    if ps[start].status == PlayerStatus::Active {
        start
    } else if ps[next_active(ps, start)].status == PlayerStatus::Active {
        next_active(ps, start)
    } else {
        start
    }
}

/// The first seat after `start` (cyclically, looking `k` seats ahead and
/// further) whose player has chips; `start + 1` when there is none.
pub open spec fn next_funded_from(ps: Seq<Player>, start: int, k: int) -> int
    decreases ps.len() + 1 - k,
{
    if k > ps.len() || ps.len() == 0 {
        (start + 1) % (ps.len() as int)
    } else if ps[(start + k) % (ps.len() as int)].stack > 0 {
        (start + k) % (ps.len() as int)
    } else {
        next_funded_from(ps, start, k + 1)
    }
}

/// The next seat after `start` whose player has chips.
pub open spec fn next_funded(ps: Seq<Player>, start: int) -> int {
    next_funded_from(ps, start, 1)
}

/// The first seat from `start` on (itself included) whose player has chips.
pub open spec fn first_funded_from(ps: Seq<Player>, start: int) -> int {
    if ps[start].stack > 0 {
        start
    } else if ps[next_funded(ps, start)].stack > 0 {
        next_funded(ps, start)
    } else {
        start
    }
}

proof fn lemma_next_active_funded(a: Seq<Player>, b: Seq<Player>, start: int, k: int)
    requires
        a.len() == b.len(),
        forall|i: int| 0 <= i < a.len() ==> (#[trigger] b[i]).status == fresh_status(a[i]),
    ensures
        next_active_from(b, start, k) == next_funded_from(a, start, k),
    decreases a.len() + 1 - k,
{
    if k <= a.len() && a.len() > 0 {
        let i = (start + k) % (a.len() as int);
        if 0 <= i {
            lemma_next_active_funded(a, b, start, k + 1);
        } else {
            lemma_next_active_funded(a, b, start, k + 1);
        }
    }
}

/// Number of players who have chips.
pub open spec fn count_funded(ps: Seq<Player>) -> int
    decreases ps.len(),
{
    if ps.len() == 0 {
        0
    } else {
        count_funded(ps.drop_last()) + if ps.last().stack > 0 {
            1int
        } else {
            0int
        }
    }
}

proof fn lemma_count_fresh(a: Seq<Player>, b: Seq<Player>)
    requires
        a.len() == b.len(),
        forall|i: int| 0 <= i < a.len() ==> (#[trigger] b[i]).status == fresh_status(a[i]),
    ensures
        count_active(b) == count_funded(a),
    decreases a.len(),
{
    if a.len() > 0 {
        let a2 = a.drop_last();
        let b2 = b.drop_last();
        assert forall|i: int| 0 <= i < a2.len() implies (#[trigger] b2[i]).status == fresh_status(
            a2[i],
        ) by {
            assert(b2[i] == b[i]);
            assert(a2[i] == a[i]);
        }
        lemma_count_fresh(a2, b2);
        assert(b.last() == b[b.len() - 1]);
    }
}

/// The status a player gets at the start of a hand.
pub open spec fn fresh_status(p: Player) -> PlayerStatus {
    if p.stack == 0 {
        PlayerStatus::Folded
    } else {
        PlayerStatus::Active
    }
}

impl Game {
    /// Reset every player for a new hand: no bet, no contribution, no cards,
    /// no last action; players without chips sit out (Folded).
    fn reset_players_for_new_hand(&mut self)
        ensures
            final(self).players@.len() == old(self).players@.len(),
            forall|i: int|
                0 <= i < old(self).players@.len() ==> #[trigger] final(self).players@[i] == (Player {
                    bet: 0,
                    contributed: 0,
                    hole: None,
                    last_action: None,
                    status: fresh_status(old(self).players@[i]),
                    ..old(self).players@[i]
                }),
            sum_stacks(final(self).players@) == sum_stacks(old(self).players@),
            sum_contributed(final(self).players@) == 0,
            final(self).pot == old(self).pot,
            final(self).history() == old(self).history(),
            final(self).street == old(self).street,
            final(self).board == old(self).board,
            final(self).deck == old(self).deck,
            final(self).dealer == old(self).dealer,
            final(self).current == old(self).current,
            final(self).round_starter == old(self).round_starter,
            final(self).current_bet == old(self).current_bet,
            final(self).min_raise == old(self).min_raise,
            final(self).last_raiser == old(self).last_raiser,
            final(self).sb_pos == old(self).sb_pos,
            final(self).bb_pos == old(self).bb_pos,
            final(self).showdown_categories == old(self).showdown_categories,
            final(self).winners == old(self).winners,
            final(self).small_blind == old(self).small_blind,
            final(self).big_blind == old(self).big_blind,
    {
        let n = self.players.len();
        let mut i: usize = 0;
        while i < n
            invariant
                i <= n,
                n == self.players@.len(),
                n == old(self).players@.len(),
                forall|k: int|
                    0 <= k < i ==> #[trigger] self.players@[k] == (Player {
                        bet: 0,
                        contributed: 0,
                        hole: None,
                        last_action: None,
                        status: fresh_status(old(self).players@[k]),
                        ..old(self).players@[k]
                    }),
                forall|k: int| i <= k < n ==> #[trigger] self.players@[k] == old(self).players@[k],
                sum_stacks(self.players@) == sum_stacks(old(self).players@),
                sum_contributed(self.players@) == sum_contributed(old(self).players@) - sum_contributed(
                    old(self).players@.take(i as int),
                ),
                self.pot == old(self).pot,
                self.history() == old(self).history(),
                self.street == old(self).street,
                self.board == old(self).board,
                self.deck == old(self).deck,
                self.dealer == old(self).dealer,
                self.current == old(self).current,
                self.round_starter == old(self).round_starter,
                self.current_bet == old(self).current_bet,
                self.min_raise == old(self).min_raise,
                self.last_raiser == old(self).last_raiser,
                self.sb_pos == old(self).sb_pos,
                self.bb_pos == old(self).bb_pos,
                self.showdown_categories == old(self).showdown_categories,
                self.winners == old(self).winners,
                self.small_blind == old(self).small_blind,
                self.big_blind == old(self).big_blind,
            decreases n - i,
        {
            let ghost before = self.players@;
            let mut p = self.players.remove(i);
            p.bet = 0;
            p.contributed = 0;
            p.hole = None;
            p.last_action = None;
            if p.stack == 0 {
                p.status = PlayerStatus::Folded;
            } else {
                p.status = PlayerStatus::Active;
            }
            self.players.insert(i, p);
            proof {
                assert(self.players@ =~= before.update(i as int, p));
                lemma_sums_update(before, i as int, p);
                assert(old(self).players@.take(i as int + 1).drop_last() =~= old(self).players@.take(i as int));
            }
            i = i + 1;
        }
        proof {
            assert(old(self).players@.take(n as int) =~= old(self).players@);
        }
    }

    /// Deal two cards to every Active seat, in order from the dealer.
    fn deal_hole_cards(&mut self)
        requires
            old(self).dealer < old(self).players@.len() <= MAX_PLAYERS,
            all_distinct(old(self).deck@),
            old(self).deck@.len() >= 2 * old(self).players@.len(),
        ensures
            final(self).players@.len() == old(self).players@.len(),
            forall|i: int|
                0 <= i < old(self).players@.len() ==> #[trigger] final(self).players@[i] == (Player {
                    hole: final(self).players@[i].hole,
                    ..old(self).players@[i]
                }),
            forall|i: int|
                0 <= i < old(self).players@.len() && old(self).players@[i].status
                    != PlayerStatus::Active ==> #[trigger] final(self).players@[i].hole == old(self).players@[i].hole,
            forall|i: int|
                0 <= i < old(self).players@.len() && old(self).players@[i].status
                    == PlayerStatus::Active ==> (#[trigger] final(self).players@[i]).hole is Some,
            sum_stacks(final(self).players@) == sum_stacks(old(self).players@),
            sum_contributed(final(self).players@) == sum_contributed(old(self).players@),
            count_active(final(self).players@) == count_active(old(self).players@),
            final(self).deck@.len() + 2 * old(self).players@.len() >= old(self).deck@.len(),
            final(self).pot == old(self).pot,
            final(self).history() == old(self).history(),
            final(self).street == old(self).street,
            final(self).board == old(self).board,
            final(self).dealer == old(self).dealer,
            final(self).current == old(self).current,
            final(self).round_starter == old(self).round_starter,
            final(self).current_bet == old(self).current_bet,
            final(self).min_raise == old(self).min_raise,
            final(self).last_raiser == old(self).last_raiser,
            final(self).sb_pos == old(self).sb_pos,
            final(self).bb_pos == old(self).bb_pos,
            final(self).showdown_categories == old(self).showdown_categories,
            final(self).winners == old(self).winners,
            final(self).small_blind == old(self).small_blind,
            final(self).big_blind == old(self).big_blind,
    {
        let n = self.players.len();
        let d = self.dealer;
        let mut k: usize = 0;
        while k < n
            invariant
                k <= n,
                d == old(self).dealer,
                d < n,
                n == self.players@.len(),
                n == old(self).players@.len(),
                n <= MAX_PLAYERS,
                all_distinct(self.deck@),
                self.deck@.len() >= 2 * (n - k),
                self.deck@.len() + 2 * k >= old(self).deck@.len(),
                forall|j: int|
                    0 <= j < n ==> #[trigger] self.players@[j] == (Player {
                        hole: self.players@[j].hole,
                        ..old(self).players@[j]
                    }),
                forall|j: int|
                    0 <= j < n && (seat_offset(d as int, j, n as int) >= k || old(self).players@[j].status
                        != PlayerStatus::Active) ==> #[trigger] self.players@[j].hole == old(self).players@[j].hole,
                forall|j: int|
                    0 <= j < n && seat_offset(d as int, j, n as int) < k && old(self).players@[j].status
                        == PlayerStatus::Active ==> (#[trigger] self.players@[j]).hole is Some,
                sum_stacks(self.players@) == sum_stacks(old(self).players@),
                sum_contributed(self.players@) == sum_contributed(old(self).players@),
                count_active(self.players@) == count_active(old(self).players@),
                self.pot == old(self).pot,
                self.history() == old(self).history(),
                self.street == old(self).street,
                self.board == old(self).board,
                self.dealer == old(self).dealer,
                self.current == old(self).current,
                self.round_starter == old(self).round_starter,
                self.current_bet == old(self).current_bet,
                self.min_raise == old(self).min_raise,
                self.last_raiser == old(self).last_raiser,
                self.sb_pos == old(self).sb_pos,
                self.bb_pos == old(self).bb_pos,
                self.showdown_categories == old(self).showdown_categories,
                self.winners == old(self).winners,
                self.small_blind == old(self).small_blind,
                self.big_blind == old(self).big_blind,
            decreases n - k,
        {
            let i = (d + k) % n;
            proof {
                lemma_seat_offset(d as int, k as int, n as int);
            }
            if self.players[i].status == PlayerStatus::Active {
                let ghost deck0 = self.deck@;
                let a = self.deck.draw();
                let b = self.deck.draw();
                proof {
                    assert(deck0.drop_last().drop_last() =~= deck0.take(deck0.len() - 2));
                    assert(a == Some(deck0[deck0.len() - 1]));
                    assert(b == Some(deck0[deck0.len() - 2]));
                    assert(deck0[deck0.len() - 2] != deck0[deck0.len() - 1]);
                    assert forall|x: int, y: int| 0 <= x < y < self.deck@.len() implies self.deck@[x] != self.deck@[y] by {
                        assert(self.deck@[x] == deck0[x]);
                        assert(self.deck@[y] == deck0[y]);
                    }
                }
                match (a, b) {
                    (Some(x), Some(y)) => {
                        match HoleCards::try_new(x, y) {
                            Ok(h) => {
                                let ghost before = self.players@;
                                let mut p = self.players.remove(i);
                                p.hole = Some(h);
                                self.players.insert(i, p);
                                proof {
                                    assert(self.players@ =~= before.update(i as int, p));
                                    lemma_sums_update(before, i as int, p);
                                }
                            },
                            Err(_) => {},
                        }
                    },
                    _ => {},
                }
            }
            k = k + 1;
        }
    }

    /// Move the dealer button forward to the first Active seat, the current
    /// one included.
    fn align_dealer_to_eligible(&mut self)
        requires
            old(self).dealer < old(self).players@.len() <= MAX_PLAYERS,
        ensures
            final(self).dealer == first_active_at_or_after(old(self).players@, old(self).dealer as int),
            final(self).players == old(self).players,
            final(self).current == old(self).current,
            final(self).pot == old(self).pot,
            final(self).street == old(self).street,
            final(self).board == old(self).board,
            final(self).deck == old(self).deck,
            final(self).history() == old(self).history(),
            final(self).round_starter == old(self).round_starter,
            final(self).showdown_categories == old(self).showdown_categories,
            final(self).small_blind == old(self).small_blind,
            final(self).big_blind == old(self).big_blind,
    {
        if !self.is_eligible(self.dealer) {
            let d = self.next_eligible_from(self.dealer);
            if self.is_eligible(d) {
                self.dealer = d;
            }
        }
    }
}

} // verus!

verus! {

proof fn lemma_count_active_exists(ps: Seq<Player>)
    requires
        count_active(ps) >= 1,
    ensures
        exists|a: int| 0 <= a < ps.len() && (#[trigger] ps[a]).status == PlayerStatus::Active,
    decreases ps.len(),
{
    let l = ps.len() - 1;
    if ps[l].status == PlayerStatus::Active {
        assert(ps[l].status == PlayerStatus::Active);
    } else {
        lemma_count_active_exists(ps.drop_last());
        let a = choose|a: int|
            0 <= a < ps.drop_last().len() && (#[trigger] ps.drop_last()[a]).status
                == PlayerStatus::Active;
        assert(ps[a] == ps.drop_last()[a]);
    }
}

proof fn lemma_count_active_pos(ps: Seq<Player>, a: int)
    requires
        0 <= a < ps.len(),
        ps[a].status == PlayerStatus::Active,
    ensures
        count_active(ps) >= 1,
    decreases ps.len(),
{
    lemma_sums_nonneg(ps.drop_last());
    if a < ps.len() - 1 {
        lemma_count_active_pos(ps.drop_last(), a);
    }
}

proof fn lemma_count_active_other(ps: Seq<Player>, s: int)
    requires
        count_active(ps) >= 2,
    ensures
        exists|a: int|
            0 <= a < ps.len() && a != s && (#[trigger] ps[a]).status == PlayerStatus::Active,
    decreases ps.len(),
{
    let l = ps.len() - 1;
    lemma_sums_nonneg(ps.drop_last());
    if ps[l].status == PlayerStatus::Active && l != s {
        assert(ps[l].status == PlayerStatus::Active);
    } else if ps[l].status == PlayerStatus::Active {
        lemma_count_active_exists(ps.drop_last());
        let a = choose|a: int|
            0 <= a < ps.drop_last().len() && (#[trigger] ps.drop_last()[a]).status
                == PlayerStatus::Active;
        assert(ps[a] == ps.drop_last()[a]);
    } else {
        lemma_count_active_other(ps.drop_last(), s);
        let a = choose|a: int|
            0 <= a < ps.drop_last().len() && a != s && (#[trigger] ps.drop_last()[a]).status
                == PlayerStatus::Active;
        assert(ps[a] == ps.drop_last()[a]);
    }
}

impl Game {
    fn set_last_action(&mut self, idx: usize, text: Option<String>)
        requires
            idx < old(self).players@.len(),
        ensures
            final(self).players@ == old(self).players@.update(
                idx as int,
                Player { last_action: text, ..old(self).players@[idx as int] },
            ),
            sum_stacks(final(self).players@) == sum_stacks(old(self).players@),
            sum_contributed(final(self).players@) == sum_contributed(old(self).players@),
            count_active(final(self).players@) == count_active(old(self).players@),
            final(self).pot == old(self).pot,
            final(self).history() == old(self).history(),
            final(self).street == old(self).street,
            final(self).board == old(self).board,
            final(self).deck == old(self).deck,
            final(self).dealer == old(self).dealer,
            final(self).current == old(self).current,
            final(self).round_starter == old(self).round_starter,
            final(self).current_bet == old(self).current_bet,
            final(self).min_raise == old(self).min_raise,
            final(self).last_raiser == old(self).last_raiser,
            final(self).sb_pos == old(self).sb_pos,
            final(self).bb_pos == old(self).bb_pos,
            final(self).showdown_categories == old(self).showdown_categories,
            final(self).winners == old(self).winners,
            final(self).small_blind == old(self).small_blind,
            final(self).big_blind == old(self).big_blind,
    {
        let ghost before = self.players@;
        let mut p = self.players.remove(idx);
        p.last_action = text;
        self.players.insert(idx, p);
        proof {
            assert(self.players@ =~= before.update(idx as int, p));
            lemma_sums_update(before, idx as int, p);
        }
    }
}

} // verus!

verus! {

impl Game {
    /// Blinds, first actor and betting state for the preflop round.
    fn setup_preflop(&mut self)
        requires
            old(self).seats_ok(),
            old(self).pot == 0,
            sum_contributed(old(self).players@) == 0,
            forall|i: int|
                0 <= i < old(self).players@.len() ==> (#[trigger] old(self).players@[i]).bet == 0
                    && old(self).players@[i].contributed == 0 && old(self).players@[i].status
                    != PlayerStatus::AllIn,
            count_active(old(self).players@) >= 1 ==> old(self).players@[old(self).dealer as int].status
                == PlayerStatus::Active,
            old(self).street == Street::Preflop,
            old(self).board@.len() == 0,
            old(self).deck@.len() >= 5,
        ensures
            count_active(old(self).players@) < 2 ==> final(self).street == Street::Showdown,
            count_active(old(self).players@) >= 2 ==> {
                &&& final(self).street == Street::Preflop
                &&& final(self).history() == old(self).history() + seq![
                    HandHistoryEntry {
                        seat: final(self).sb_pos->Some_0,
                        verb: HandHistoryVerb::SmallBlind,
                        amount: Some(final(self).players@[final(self).sb_pos->Some_0 as int].bet),
                        street: Street::Preflop,
                    },
                    HandHistoryEntry {
                        seat: final(self).bb_pos->Some_0,
                        verb: HandHistoryVerb::BigBlind,
                        amount: Some(final(self).current_bet),
                        street: Street::Preflop,
                    },
                ]
                &&& final(self).sb_pos is Some
                &&& final(self).bb_pos is Some
                &&& final(self).sb_pos != final(self).bb_pos
                &&& final(self).current_bet <= final(self).big_blind
                &&& final(self).min_raise == final(self).current_bet
                &&& final(self).last_raiser is None
                &&& final(self).round_starter == final(self).current
                &&& final(self).pot == final(self).players@[final(self).sb_pos->Some_0 as int].bet
                    + final(self).current_bet
            },
            count_active(old(self).players@) == 2 ==> final(self).sb_pos == Some(old(self).dealer)
                && final(self).bb_pos == Some(next_active(old(self).players@, old(self).dealer as int) as usize)
                && final(self).current == old(self).dealer,
            count_active(old(self).players@) >= 3 ==> final(self).sb_pos == Some(
                next_active(old(self).players@, old(self).dealer as int) as usize,
            ) && final(self).bb_pos == Some(
                next_active(
                    old(self).players@,
                    next_active(old(self).players@, old(self).dealer as int),
                ) as usize,
            ) && final(self).current == next_active(final(self).players@, final(self).bb_pos->Some_0 as int),
            count_active(old(self).players@) >= 2 ==> {
                let sb = final(self).sb_pos->Some_0 as int;
                let bb = final(self).bb_pos->Some_0 as int;
                &&& final(self).players@[sb].bet == if old(self).players@[sb].stack <= old(self).small_blind {
                    old(self).players@[sb].stack
                } else {
                    old(self).small_blind
                }
                &&& final(self).current_bet == if old(self).players@[bb].stack <= old(self).big_blind {
                    old(self).players@[bb].stack
                } else {
                    old(self).big_blind
                }
                &&& final(self).players@[bb].bet == final(self).current_bet
            },
            forall|i: int|
                0 <= i < old(self).players@.len() ==> (#[trigger] final(self).players@[i]).hole
                    == old(self).players@[i].hole,
            final(self).wf(),
            final(self).dealer == old(self).dealer,
            count_active(old(self).players@) >= 1 ==> old(self).players@[final(self).current as int].status
                == PlayerStatus::Active,
            forall|i: int|
                0 <= i < old(self).players@.len() && old(self).players@[i].status
                    == PlayerStatus::Folded ==> #[trigger] final(self).players@[i] == old(self).players@[i],
            final(self).players@.len() == old(self).players@.len(),
            final(self).deck == old(self).deck,
            final(self).winners == old(self).winners,
            final(self).small_blind == old(self).small_blind,
            final(self).big_blind == old(self).big_blind,
    {
        let eligible_count = self.count_eligible();
        let ghost ps = self.players@;
        let ghost h0 = self.history();
        if eligible_count < 2 {
            self.street = Street::Showdown;
            self.round_starter = self.dealer;
            self.current = self.dealer;
            self.sb_pos = None;
            self.bb_pos = None;
            return;
        }
        proof {
            lemma_count_active_other(ps, self.dealer as int);
            let a = choose|a: int|
                0 <= a < ps.len() && a != self.dealer as int && (#[trigger] ps[a]).status
                    == PlayerStatus::Active;
            lemma_next_active_other(ps, self.dealer as int, a);
        }
        let (sb_pos, bb_pos) = if eligible_count == 2 {
            let sb = self.dealer;
            let bb = self.next_eligible_from(sb);
            (sb, bb)
        } else {
            let sb = self.next_eligible_from(self.dealer);
            proof {
                lemma_count_active_other(ps, sb as int);
                let a = choose|a: int|
                    0 <= a < ps.len() && a != sb as int && (#[trigger] ps[a]).status
                        == PlayerStatus::Active;
                lemma_next_active_other(ps, sb as int, a);
            }
            let bb = self.next_eligible_from(sb);
            (sb, bb)
        };
        assert(sb_pos != bb_pos);
        self.sb_pos = Some(sb_pos);
        self.bb_pos = Some(bb_pos);
        let sb_paid = self.pay_chips(sb_pos, self.small_blind);
        let t = describe_action("SB", sb_paid);
        self.set_last_action(sb_pos, Some(t));
        self.record_history(sb_pos, HandHistoryVerb::SmallBlind, Some(sb_paid));
        let ghost p1 = self.players@;
        assert(p1[sb_pos as int].bet == sb_paid);
        assert(sb_paid <= self.small_blind);
        let bb_paid = self.pay_chips(bb_pos, self.big_blind);
        let t = describe_action("BB", bb_paid);
        self.set_last_action(bb_pos, Some(t));
        self.record_history(bb_pos, HandHistoryVerb::BigBlind, Some(bb_paid));
        assert(self.players@[bb_pos as int].bet == bb_paid);
        assert(self.players@[sb_pos as int] == p1[sb_pos as int]);
        self.current_bet = bb_paid;
        self.min_raise = bb_paid;
        self.last_raiser = None;
        let ghost after = self.players@;
        if eligible_count == 2 {
            self.current = self.dealer;
        } else {
            proof {
                if count_active(after) >= 1 {
                    lemma_count_active_exists(after);
                    let a = choose|a: int|
                        0 <= a < after.len() && (#[trigger] after[a]).status == PlayerStatus::Active;
                    lemma_next_active_is_active(after, bb_pos as int, a);
                }
            }
            self.current = self.next_eligible_from(bb_pos);
        }
        self.round_starter = self.current;
        proof {
            let fs = self.players@;
            assert(self.pot == sum_contributed(fs));
            assert forall|i: int| 0 <= i < fs.len() implies (#[trigger] fs[i]).bet <= fs[i].contributed
                && (fs[i].status == PlayerStatus::AllIn ==> fs[i].stack == 0) by {
                if i != sb_pos as int && i != bb_pos as int {
                    assert(fs[i] == ps[i]);
                }
            }
            assert(self.history() =~= h0 + seq![
                HandHistoryEntry {
                    seat: sb_pos,
                    verb: HandHistoryVerb::SmallBlind,
                    amount: Some(fs[sb_pos as int].bet),
                    street: Street::Preflop,
                },
                HandHistoryEntry {
                    seat: bb_pos,
                    verb: HandHistoryVerb::BigBlind,
                    amount: Some(self.current_bet),
                    street: Street::Preflop,
                },
            ]);
            assert forall|i: int|
                0 <= i < fs.len() && (#[trigger] fs[i]).status == PlayerStatus::Active implies fs[i].bet
                <= self.current_bet || self.short_big_blind_seat(i) by {
                if i != sb_pos as int && i != bb_pos as int {
                    assert(fs[i] == ps[i]);
                } else if i == sb_pos as int {
                    assert(self.short_big_blind_seat(i));
                }
            }
        }
    }
}

} // verus!

verus! {

impl Game {
    /// Start a new hand, shuffling with a fresh random seed.
    pub fn new_hand(&mut self)
        requires
            old(self).seats_ok(),
        ensures
            count_funded(old(self).players@) < 2 ==> final(self).street == Street::Showdown,
            count_funded(old(self).players@) >= 2 ==> {
                &&& final(self).street == Street::Preflop
                &&& final(self).history() == seq![
                    HandHistoryEntry {
                        seat: final(self).sb_pos->Some_0,
                        verb: HandHistoryVerb::SmallBlind,
                        amount: Some(final(self).players@[final(self).sb_pos->Some_0 as int].bet),
                        street: Street::Preflop,
                    },
                    HandHistoryEntry {
                        seat: final(self).bb_pos->Some_0,
                        verb: HandHistoryVerb::BigBlind,
                        amount: Some(final(self).current_bet),
                        street: Street::Preflop,
                    },
                ]
                &&& final(self).sb_pos is Some
                &&& final(self).bb_pos is Some
                &&& final(self).sb_pos != final(self).bb_pos
                &&& final(self).current_bet <= final(self).big_blind
                &&& final(self).min_raise == final(self).current_bet
                &&& final(self).last_raiser is None
                &&& final(self).round_starter == final(self).current
                &&& final(self).pot == final(self).players@[final(self).sb_pos->Some_0 as int].bet
                    + final(self).current_bet
            },
            count_funded(old(self).players@) >= 1 ==> final(self).dealer == first_funded_from(
                old(self).players@,
                (old(self).dealer + 1) % (old(self).players@.len() as int),
            ),
            count_funded(old(self).players@) == 2 ==> final(self).sb_pos == Some(final(self).dealer)
                && final(self).bb_pos == Some(next_funded(old(self).players@, final(self).dealer as int) as usize)
                && final(self).current == final(self).dealer,
            count_funded(old(self).players@) >= 3 ==> final(self).sb_pos == Some(
                next_funded(old(self).players@, final(self).dealer as int) as usize,
            ) && final(self).bb_pos == Some(
                next_funded(
                    old(self).players@,
                    next_funded(old(self).players@, final(self).dealer as int),
                ) as usize,
            ) && final(self).current == next_active(final(self).players@, final(self).bb_pos->Some_0 as int),
            count_funded(old(self).players@) >= 2 ==> {
                let sb = final(self).sb_pos->Some_0 as int;
                let bb = final(self).bb_pos->Some_0 as int;
                &&& final(self).players@[sb].bet == if old(self).players@[sb].stack <= old(self).small_blind {
                    old(self).players@[sb].stack
                } else {
                    old(self).small_blind
                }
                &&& final(self).current_bet == if old(self).players@[bb].stack <= old(self).big_blind {
                    old(self).players@[bb].stack
                } else {
                    old(self).big_blind
                }
                &&& final(self).players@[bb].bet == final(self).current_bet
            },
            forall|i: int|
                0 <= i < old(self).players@.len() && old(self).players@[i].stack > 0 ==> (
                #[trigger] final(self).players@[i]).hole is Some,
            final(self).wf(),
            final(self).players@.len() == old(self).players@.len(),
            forall|i: int|
                0 <= i < old(self).players@.len() && old(self).players@[i].stack == 0 ==> {
                    let p = #[trigger] final(self).players@[i];
                    &&& p.status == PlayerStatus::Folded
                    &&& p.hole is None
                    &&& p.bet == 0
                    &&& p.contributed == 0
                },
            (exists|i: int| 0 <= i < old(self).players@.len() && #[trigger] old(self).players@[i].stack > 0)
                ==> old(self).players@[final(self).dealer as int].stack > 0 && old(self).players@[final(self).current as int].stack > 0,
    {
        let seed = fresh_seed();
        self.new_hand_with_seed(seed);
    }

    /// Start a new hand whose deck is shuffled with `seed`: move the button,
    /// reset the table and the players (players without chips sit out),
    /// align the button on a seated player, deal two cards to each seated
    /// player in seat order, and post the blinds.
    pub fn new_hand_with_seed(&mut self, seed: u64)
        requires
            old(self).seats_ok(),
        ensures
            count_funded(old(self).players@) < 2 ==> final(self).street == Street::Showdown,
            count_funded(old(self).players@) >= 2 ==> {
                &&& final(self).street == Street::Preflop
                &&& final(self).history() == seq![
                    HandHistoryEntry {
                        seat: final(self).sb_pos->Some_0,
                        verb: HandHistoryVerb::SmallBlind,
                        amount: Some(final(self).players@[final(self).sb_pos->Some_0 as int].bet),
                        street: Street::Preflop,
                    },
                    HandHistoryEntry {
                        seat: final(self).bb_pos->Some_0,
                        verb: HandHistoryVerb::BigBlind,
                        amount: Some(final(self).current_bet),
                        street: Street::Preflop,
                    },
                ]
                &&& final(self).sb_pos is Some
                &&& final(self).bb_pos is Some
                &&& final(self).sb_pos != final(self).bb_pos
                &&& final(self).current_bet <= final(self).big_blind
                &&& final(self).min_raise == final(self).current_bet
                &&& final(self).last_raiser is None
                &&& final(self).round_starter == final(self).current
                &&& final(self).pot == final(self).players@[final(self).sb_pos->Some_0 as int].bet
                    + final(self).current_bet
            },
            count_funded(old(self).players@) >= 1 ==> final(self).dealer == first_funded_from(
                old(self).players@,
                (old(self).dealer + 1) % (old(self).players@.len() as int),
            ),
            count_funded(old(self).players@) == 2 ==> final(self).sb_pos == Some(final(self).dealer)
                && final(self).bb_pos == Some(next_funded(old(self).players@, final(self).dealer as int) as usize)
                && final(self).current == final(self).dealer,
            count_funded(old(self).players@) >= 3 ==> final(self).sb_pos == Some(
                next_funded(old(self).players@, final(self).dealer as int) as usize,
            ) && final(self).bb_pos == Some(
                next_funded(
                    old(self).players@,
                    next_funded(old(self).players@, final(self).dealer as int),
                ) as usize,
            ) && final(self).current == next_active(final(self).players@, final(self).bb_pos->Some_0 as int),
            count_funded(old(self).players@) >= 2 ==> {
                let sb = final(self).sb_pos->Some_0 as int;
                let bb = final(self).bb_pos->Some_0 as int;
                &&& final(self).players@[sb].bet == if old(self).players@[sb].stack <= old(self).small_blind {
                    old(self).players@[sb].stack
                } else {
                    old(self).small_blind
                }
                &&& final(self).current_bet == if old(self).players@[bb].stack <= old(self).big_blind {
                    old(self).players@[bb].stack
                } else {
                    old(self).big_blind
                }
                &&& final(self).players@[bb].bet == final(self).current_bet
            },
            forall|i: int|
                0 <= i < old(self).players@.len() && old(self).players@[i].stack > 0 ==> (
                #[trigger] final(self).players@[i]).hole is Some,
            final(self).wf(),
            final(self).players@.len() == old(self).players@.len(),
            forall|i: int|
                0 <= i < old(self).players@.len() && old(self).players@[i].stack == 0 ==> {
                    let p = #[trigger] final(self).players@[i];
                    &&& p.status == PlayerStatus::Folded
                    &&& p.hole is None
                    &&& p.bet == 0
                    &&& p.contributed == 0
                },
            (exists|i: int| 0 <= i < old(self).players@.len() && #[trigger] old(self).players@[i].stack > 0)
                ==> old(self).players@[final(self).dealer as int].stack > 0 && old(self).players@[final(self).current as int].stack > 0,
            final(self).winners@.len() == 0,
            final(self).small_blind == old(self).small_blind,
            final(self).big_blind == old(self).big_blind,
    {
        let n = self.players.len();
        self.dealer = (self.dealer + 1) % n;
        let mut deck = Deck::standard();
        let ghost std_cards = deck@;
        deck.shuffle_seeded(seed);
        proof {
            crate::deck::lemma_standard_distinct();
            crate::deck::lemma_permutation_distinct(std_cards, deck@);
        }
        self.deck = deck;
        self.board = Board::new(Vec::new());
        self.pot = 0;
        self.street = Street::Preflop;
        self.hand_history = Vec::new();
        self.current_bet = 0;
        self.min_raise = self.big_blind;
        self.last_raiser = None;
        self.round_starter = self.dealer;
        self.current = self.dealer;
        self.sb_pos = None;
        self.bb_pos = None;
        proof {
            lemma_sums_nonneg(self.players@);
        }
        self.reset_players_for_new_hand();
        let ghost reset = self.players@;
        proof {
            if exists|i: int| 0 <= i < old(self).players@.len() && #[trigger] old(self).players@[i].stack > 0 {
                let a = choose|a: int| 0 <= a < old(self).players@.len() && #[trigger] old(self).players@[a].stack > 0;
                assert(reset[a].status == PlayerStatus::Active);
                lemma_next_active_is_active(reset, self.dealer as int, a);
                lemma_count_active_pos(reset, a);
            }
            lemma_next_active_from_facts(reset, self.dealer as int, 1);
            lemma_sums_nonneg(reset);
            assert forall|i: int| 0 <= i < reset.len() && #[trigger] reset[i].status == PlayerStatus::Active
                implies old(self).players@[i].stack > 0 by {}
        }
        self.align_dealer_to_eligible();
        self.winners = Vec::new();
        let mut cats: Vec<Option<Category>> = Vec::new();
        let mut k: usize = 0;
        while k < n
            invariant
                k <= n,
                cats@.len() == k,
            decreases n - k,
        {
            cats.push(None);
            k = k + 1;
        }
        self.showdown_categories = cats;
        self.deal_hole_cards();
        proof {
            if count_active(reset) >= 1 {
                lemma_count_active_exists(reset);
                let a = choose|a: int| 0 <= a < reset.len() && (#[trigger] reset[a]).status == PlayerStatus::Active;
                lemma_next_active_is_active(reset, old(self).dealer as int, a);
            }
            assert(self.deck@.len() >= 5);
            assert forall|i: int| 0 <= i < reset.len() implies (#[trigger] self.players@[i]).status == reset[i].status by {}
        }
        let ghost dealt = self.players@;
        proof {
            lemma_count_fresh(old(self).players@, reset);
            assert(self.history() =~= Seq::<HandHistoryEntry>::empty());
            let d1 = (old(self).dealer + 1) % (old(self).players@.len() as int);
            lemma_next_active_funded(old(self).players@, reset, d1, 1);
            assert forall|i: int| 0 <= i < reset.len() implies (#[trigger] dealt[i]).status == reset[i].status
                && dealt[i].stack == old(self).players@[i].stack by {}
            assert forall|i: int| 0 <= i < reset.len() implies (#[trigger] dealt[i]).status == fresh_status(
                old(self).players@[i],
            ) by {}
            lemma_next_active_funded(old(self).players@, dealt, self.dealer as int, 1);
            lemma_next_active_funded(old(self).players@, dealt, next_active(dealt, self.dealer as int), 1);
            lemma_count_fresh(old(self).players@, dealt);
        }
        self.setup_preflop();
        proof {
            if count_funded(old(self).players@) >= 2 {
                let sb = self.sb_pos->Some_0 as int;
                let bb = self.bb_pos->Some_0 as int;
                lemma_next_active_from_facts(dealt, self.dealer as int, 1);
                lemma_next_active_from_facts(dealt, next_active(dealt, self.dealer as int), 1);
                assert(0 <= sb < dealt.len());
                assert(0 <= bb < dealt.len());
                assert(dealt[sb].stack == old(self).players@[sb].stack);
                assert(dealt[bb].stack == old(self).players@[bb].stack);
            }
            if exists|i: int| 0 <= i < old(self).players@.len() && #[trigger] old(self).players@[i].stack > 0 {
                assert(dealt[self.current as int].status == PlayerStatus::Active);
                assert(reset[self.current as int].status == PlayerStatus::Active);
                assert(reset[self.dealer as int].status == PlayerStatus::Active);
            }
        }
    }
}

} // verus!

verus! {

/// Every Active player's bet equals `cb`.
pub open spec fn all_active_matched(ps: Seq<Player>, cb: u64) -> bool {
    forall|i: int|
        0 <= i < ps.len() && (#[trigger] ps[i]).status == PlayerStatus::Active ==> ps[i].bet == cb
}

impl Game {
    /// The betting round is over: every Active player has matched the
    /// current bet, and either at most one Active player remains or the
    /// turn is back at the seat that opened the round.
    pub open spec fn round_over(&self) -> bool {
        all_active_matched(self.players@, self.current_bet) && (count_active(self.players@) <= 1
            || self.current == self.round_starter)
    }

    fn all_matched(&self) -> (r: bool)
        ensures
            r == all_active_matched(self.players@, self.current_bet),
    {
        let mut i: usize = 0;
        while i < self.players.len()
            invariant
                i <= self.players@.len(),
                forall|k: int|
                    0 <= k < i && (#[trigger] self.players@[k]).status == PlayerStatus::Active
                        ==> self.players@[k].bet == self.current_bet,
            decreases self.players@.len() - i,
        {
            if self.players[i].status == PlayerStatus::Active && self.players[i].bet != self.current_bet {
                return false;
            }
            i = i + 1;
        }
        true
    }

    fn should_end_round(&self) -> (r: bool)
        ensures
            r == self.round_over(),
    {
        self.all_matched() && (self.count_eligible() <= 1 || self.current == self.round_starter)
    }

    /// Start a betting round after new board cards: bets and last actions
    /// cleared, action at the first Active seat left of the dealer.
    fn reset_round(&mut self)
        requires
            old(self).seats_ok(),
        ensures
            final(self).players@.len() == old(self).players@.len(),
            forall|i: int|
                0 <= i < old(self).players@.len() ==> #[trigger] final(self).players@[i] == (Player {
                    bet: 0,
                    last_action: None,
                    ..old(self).players@[i]
                }),
            final(self).current == first_active_at_or_after(
                final(self).players@,
                (old(self).dealer as int + 1) % (old(self).players@.len() as int),
            ),
            final(self).round_starter == final(self).current,
            final(self).current_bet == 0,
            final(self).min_raise == old(self).big_blind,
            final(self).last_raiser is None,
            final(self).seats_ok(),
            sum_stacks(final(self).players@) == sum_stacks(old(self).players@),
            sum_contributed(final(self).players@) == sum_contributed(old(self).players@),
            count_active(final(self).players@) == count_active(old(self).players@),
            final(self).pot == old(self).pot,
            final(self).history() == old(self).history(),
            final(self).street == old(self).street,
            final(self).board == old(self).board,
            final(self).deck == old(self).deck,
            final(self).dealer == old(self).dealer,
            final(self).sb_pos == old(self).sb_pos,
            final(self).bb_pos == old(self).bb_pos,
            final(self).showdown_categories == old(self).showdown_categories,
            final(self).winners == old(self).winners,
            final(self).small_blind == old(self).small_blind,
            final(self).big_blind == old(self).big_blind,
    {
        self.clear_bets();
        let n = self.players.len();
        let mut i: usize = 0;
        while i < n
            invariant
                i <= n,
                n == self.players@.len(),
                n == old(self).players@.len(),
                forall|k: int|
                    0 <= k < i ==> #[trigger] self.players@[k] == (Player {
                        bet: 0,
                        last_action: None,
                        ..old(self).players@[k]
                    }),
                forall|k: int|
                    i <= k < n ==> #[trigger] self.players@[k] == (Player {
                        bet: 0,
                        ..old(self).players@[k]
                    }),
                sum_stacks(self.players@) == sum_stacks(old(self).players@),
                sum_contributed(self.players@) == sum_contributed(old(self).players@),
                count_active(self.players@) == count_active(old(self).players@),
                self.pot == old(self).pot,
                self.history() == old(self).history(),
                self.street == old(self).street,
                self.board == old(self).board,
                self.deck == old(self).deck,
                self.dealer == old(self).dealer,
                self.current == old(self).current,
                self.round_starter == old(self).round_starter,
                self.sb_pos == old(self).sb_pos,
                self.bb_pos == old(self).bb_pos,
                self.showdown_categories == old(self).showdown_categories,
                self.winners == old(self).winners,
                self.small_blind == old(self).small_blind,
                self.big_blind == old(self).big_blind,
            decreases n - i,
        {
            self.set_last_action(i, None);
            i = i + 1;
        }
        let start = (self.dealer + 1) % n;
        let mut cur = start;
        if !self.is_eligible(start) {
            let d = self.next_eligible_from(start);
            if self.is_eligible(d) {
                cur = d;
            }
        }
        self.current = cur;
        self.current_bet = 0;
        self.min_raise = self.big_blind;
        self.last_raiser = None;
        self.round_starter = cur;
    }

    /// Deal the next street, or go to showdown after the river.
    fn deal_next_street(&mut self)
        requires
            old(self).wf(),
            old(self).street != Street::Showdown,
        ensures
            final(self).wf(),
            extends(old(self).board@, final(self).board@),
            final(self).street == Street::Showdown ==> final(self).board@.len() == 5,
            old(self).street == Street::Preflop ==> final(self).street == Street::Flop,
            old(self).street == Street::Flop ==> final(self).street == Street::Turn,
            old(self).street == Street::Turn ==> final(self).street == Street::River,
            old(self).street == Street::River ==> final(self).street == Street::Showdown,
            final(self).street != Street::Showdown ==> sum_stacks(final(self).players@) + final(self).pot
                == sum_stacks(old(self).players@) + old(self).pot,
            sum_stacks(final(self).players@) + final(self).pot <= sum_stacks(old(self).players@)
                + old(self).pot,
            contested_on(final(self).players@, final(self).board@) ==> chips_on_table(final(self))
                == chips_on_table(old(self)),
            final(self).players@.len() == old(self).players@.len(),
            forall|i: int|
                0 <= i < old(self).players@.len() ==> (#[trigger] final(self).players@[i]).contributed
                    == old(self).players@[i].contributed,
            forall|i: int|
                0 <= i < old(self).players@.len() ==> (#[trigger] final(self).players@[i]).status
                    == old(self).players@[i].status,
            extends(old(self).history(), final(self).history()),
            final(self).small_blind == old(self).small_blind,
            final(self).big_blind == old(self).big_blind,
    {
        proof {
            lemma_sums_nonneg(self.players@);
        }
        match self.street {
            Street::Preflop => {
                let drawn = self.deck.draw_n(3);
                let mut i: usize = 0;
                while i < drawn.len()
                    invariant
                        i <= drawn@.len(),
                        drawn@.len() == 3,
                        self.board@.len() == i,
                        self.players == old(self).players,
                        self.pot == old(self).pot,
                        self.street == old(self).street,
                        self.dealer == old(self).dealer,
                        self.current == old(self).current,
                        self.round_starter == old(self).round_starter,
                        self.showdown_categories == old(self).showdown_categories,
                        self.deck@.len() + 3 == old(self).deck@.len(),
                        self.history() == old(self).history(),
                        self.small_blind == old(self).small_blind,
                        self.big_blind == old(self).big_blind,
                    decreases drawn@.len() - i,
                {
                    self.board.push(drawn[i]);
                    i = i + 1;
                }
                self.street = Street::Flop;
                self.reset_round();
            },
            Street::Flop => {
                match self.deck.draw() {
                    Some(c) => {
                        self.board.push(c);
                    },
                    None => {},
                }
                self.street = Street::Turn;
                self.reset_round();
            },
            Street::Turn => {
                match self.deck.draw() {
                    Some(c) => {
                        self.board.push(c);
                    },
                    None => {},
                }
                self.street = Street::River;
                self.reset_round();
            },
            Street::River => {
                self.street = Street::Showdown;
                self.finish_showdown();
            },
            Street::Showdown => {},
        }
        if self.street != Street::Showdown {
            proof {
                let ps = self.players@;
                assert forall|i: int| 0 <= i < ps.len() implies (#[trigger] ps[i]).bet <= ps[i].contributed
                    && (ps[i].status == PlayerStatus::AllIn ==> ps[i].stack == 0) by {
                    assert(ps[i] == (Player { bet: 0, last_action: None, ..old(self).players@[i] }));
                }
                assert forall|i: int| 0 <= i < ps.len() && (#[trigger] ps[i]).status == PlayerStatus::Active
                    implies ps[i].bet <= self.current_bet || self.short_big_blind_seat(i) by {
                    assert(ps[i] == (Player { bet: 0, last_action: None, ..old(self).players@[i] }));
                }
            }
        }
    }
}

} // verus!

verus! {

/// Chips in stacks plus the pot.
pub open spec fn chips_on_table(g: &Game) -> int {
    sum_stacks(g.players@) + g.pot
}

/// What an action leaves true of the table: the invariants hold, no chip
/// is created, and none is lost while the hand goes on, nor at a showdown
/// where every contribution level has a player who can win it.
pub open spec fn step_ok(old_g: &Game, new_g: &Game) -> bool {
    &&& new_g.wf()
    &&& new_g.players@.len() == old_g.players@.len()
    &&& chips_on_table(new_g) <= chips_on_table(old_g)
    &&& new_g.street != Street::Showdown ==> chips_on_table(new_g) == chips_on_table(old_g)
    &&& contested_on(new_g.players@, new_g.board@) ==> chips_on_table(new_g) == chips_on_table(old_g)
    &&& old_g.history().len() < new_g.history().len()
    &&& extends(old_g.history(), new_g.history())
    &&& extends(old_g.board@, new_g.board@)
    &&& street_rank(new_g.street) >= street_rank(old_g.street)
    &&& new_g.street != Street::Showdown ==> count_active(new_g.players@) > 0
    &&& new_g.street == Street::Showdown && !single_contender(new_g.players@) && sum_contributed(
        new_g.players@,
    ) > 0 ==> new_g.board@.len() == 5
    &&& new_g.small_blind == old_g.small_blind
    &&& new_g.big_blind == old_g.big_blind
}

impl Game {
    fn set_status(&mut self, idx: usize, status: PlayerStatus)
        requires
            idx < old(self).players@.len(),
        ensures
            final(self).players@ == old(self).players@.update(
                idx as int,
                Player { status, ..old(self).players@[idx as int] },
            ),
            sum_stacks(final(self).players@) == sum_stacks(old(self).players@),
            sum_contributed(final(self).players@) == sum_contributed(old(self).players@),
            final(self).pot == old(self).pot,
            final(self).history() == old(self).history(),
            final(self).street == old(self).street,
            final(self).board == old(self).board,
            final(self).deck == old(self).deck,
            final(self).dealer == old(self).dealer,
            final(self).current == old(self).current,
            final(self).round_starter == old(self).round_starter,
            final(self).current_bet == old(self).current_bet,
            final(self).min_raise == old(self).min_raise,
            final(self).last_raiser == old(self).last_raiser,
            final(self).sb_pos == old(self).sb_pos,
            final(self).bb_pos == old(self).bb_pos,
            final(self).showdown_categories == old(self).showdown_categories,
            final(self).winners == old(self).winners,
            final(self).small_blind == old(self).small_blind,
            final(self).big_blind == old(self).big_blind,
    {
        let ghost before = self.players@;
        let mut p = self.players.remove(idx);
        p.status = status;
        self.players.insert(idx, p);
        proof {
            assert(self.players@ =~= before.update(idx as int, p));
            lemma_sums_update(before, idx as int, p);
        }
    }

    /// If nobody can act any more, complete the board when two or more
    /// players can still win, and go to showdown.
    fn maybe_force_showdown(&mut self)
        requires
            old(self).wf(),
        ensures
            final(self).wf(),
            extends(old(self).board@, final(self).board@),
            street_rank(final(self).street) >= street_rank(old(self).street),
            final(self).street != Street::Showdown ==> count_active(final(self).players@) > 0,
            old(self).street != Street::Showdown && final(self).street == Street::Showdown && !single_contender(final(self).players@) ==> final(self).board@.len() == 5,
            final(self).players@.len() == old(self).players@.len(),
            contested_on(final(self).players@, final(self).board@) ==> chips_on_table(final(self))
                == chips_on_table(old(self)),
            chips_on_table(final(self)) <= chips_on_table(old(self)),
            old(self).street == Street::Showdown ==> *final(self) == *old(self),
            final(self).street != Street::Showdown ==> *final(self) == *old(self),
            forall|i: int|
                0 <= i < old(self).players@.len() ==> (#[trigger] final(self).players@[i]).contributed
                    == old(self).players@[i].contributed,
            forall|i: int|
                0 <= i < old(self).players@.len() ==> (#[trigger] final(self).players@[i]).status
                    == old(self).players@[i].status,
            extends(old(self).history(), final(self).history()),
            final(self).small_blind == old(self).small_blind,
            final(self).big_blind == old(self).big_blind,
    {
        if self.street == Street::Showdown {
            return;
        }
        if self.count_eligible() > 0 {
            return;
        }
        let contenders = self.contender_seats();
        if contenders.len() > 1 && self.board.len() < 5 {
            self.fill_board();
        }
        self.street = Street::Showdown;
        proof {
            lemma_sums_nonneg(self.players@);
        }
        self.finish_showdown();
    }

    /// Pass the turn to the next Active seat; when the betting round is
    /// over, deal the next street (or go to showdown after the river); then
    /// force a showdown if nobody can act.
    fn advance_turn(&mut self)
        requires
            old(self).wf(),
            old(self).street != Street::Showdown,
        ensures
            final(self).wf(),
            extends(old(self).board@, final(self).board@),
            street_rank(final(self).street) >= street_rank(old(self).street),
            final(self).street != Street::Showdown ==> count_active(final(self).players@) > 0,
            final(self).street == Street::Showdown && !single_contender(final(self).players@) ==> final(self).board@.len() == 5,
            final(self).players@.len() == old(self).players@.len(),
            contested_on(final(self).players@, final(self).board@) ==> chips_on_table(final(self))
                == chips_on_table(old(self)),
            chips_on_table(final(self)) <= chips_on_table(old(self)),
            final(self).street != Street::Showdown ==> chips_on_table(final(self)) == chips_on_table(old(self)),
            final(self).street == old(self).street ==> final(self).players == old(self).players
                && final(self).pot == old(self).pot && final(self).board == old(self).board,
            final(self).street == old(self).street ==> {
                &&& final(self).current_bet == old(self).current_bet
                &&& final(self).min_raise == old(self).min_raise
                &&& final(self).round_starter == old(self).round_starter
                &&& final(self).last_raiser == old(self).last_raiser
            },
            forall|i: int|
                0 <= i < old(self).players@.len() ==> (#[trigger] final(self).players@[i]).contributed
                    == old(self).players@[i].contributed,
            forall|i: int|
                0 <= i < old(self).players@.len() ==> (#[trigger] final(self).players@[i]).status
                    == old(self).players@[i].status,
            extends(old(self).history(), final(self).history()),
            final(self).small_blind == old(self).small_blind,
            final(self).big_blind == old(self).big_blind,
    {
        let prev = self.current;
        self.current = self.next_eligible_from(prev);
        if self.should_end_round() {
            self.deal_next_street();
        }
        self.maybe_force_showdown();
    }

    /// Chips the seat must add to match the current bet (0 at showdown).
    pub fn to_call(&self, idx: usize) -> (r: u64)
        requires
            idx < self.players@.len(),
        ensures
            r == if self.street == Street::Showdown || self.current_bet <= self.players@[idx as int].bet {
                0
            } else {
                self.current_bet - self.players@[idx as int].bet
            },
    {
        if self.street == Street::Showdown {
            return 0;
        }
        let b = self.players[idx].bet;
        if self.current_bet > b {
            self.current_bet - b
        } else {
            0
        }
    }

    /// Why the seat to act cannot act, if it cannot.
    pub open spec fn turn_error(&self) -> Option<ActionError> {
        if self.street == Street::Showdown {
            Some(ActionError::Showdown)
        } else if self.players@[self.current as int].status != PlayerStatus::Active {
            Some(ActionError::PlayerNotActive)
        } else {
            None
        }
    }

    fn ensure_can_act(&self) -> (r: Result<(), ActionError>)
        requires
            self.seats_ok(),
        ensures
            r == (match self.turn_error() {
                Some(e) => Err(e),
                None => Ok(()),
            }),
    {
        if self.street == Street::Showdown {
            return Err(ActionError::Showdown);
        }
        if !self.is_eligible(self.current) {
            return Err(ActionError::PlayerNotActive);
        }
        Ok(())
    }

    /// The current player folds. When at most one player can still act,
    /// the hand goes to showdown.
    pub fn action_fold(&mut self) -> (r: Result<(), ActionError>)
        requires
            old(self).wf(),
        ensures
            r == (match old(self).turn_error() {
                Some(e) => Err(e),
                None => Ok(()),
            }),
            r is Err ==> *final(self) == *old(self),
            r is Ok ==> step_ok(old(self), final(self)),
            r is Ok ==> final(self).players@[old(self).current as int].status == PlayerStatus::Folded,
            r is Ok ==> final(self).history()[old(self).history().len() as int] == (HandHistoryEntry {
                seat: old(self).current,
                verb: HandHistoryVerb::Fold,
                amount: None,
                street: old(self).street,
            }),
            r is Ok ==> forall|i: int|
                0 <= i < old(self).players@.len() ==> (#[trigger] final(self).players@[i]).contributed
                    == old(self).players@[i].contributed,
    {
        match self.ensure_can_act() {
            Err(e) => {
                return Err(e);
            },
            Ok(()) => {},
        }
        let cur = self.current;
        self.set_status(cur, PlayerStatus::Folded);
        self.set_last_action(cur, Some("Fold".to_string()));
        self.record_history(cur, HandHistoryVerb::Fold, None);
        proof {
            let ps = self.players@;
            assert forall|i: int| 0 <= i < ps.len() implies (#[trigger] ps[i]).bet <= ps[i].contributed by {
                if i != cur as int {
                    assert(ps[i] == old(self).players@[i]);
                }
            }
            assert forall|i: int| 0 <= i < ps.len() && (#[trigger] ps[i]).status == PlayerStatus::AllIn
                implies ps[i].stack == 0 by {
                if i != cur as int {
                    assert(ps[i] == old(self).players@[i]);
                }
            }
            assert forall|i: int| 0 <= i < ps.len() && (#[trigger] ps[i]).status == PlayerStatus::Active
                implies ps[i].bet <= self.current_bet || self.short_big_blind_seat(i) by {
                assert(ps[i] == old(self).players@[i]);
            }
        }
        if self.count_eligible() <= 1 {
            self.street = Street::Showdown;
            proof {
                lemma_sums_nonneg(self.players@);
            }
            let ghost before = self.players@;
            self.finish_showdown();
            proof {
                lemma_paid_out_sums(before, self.players@);
                lemma_single_contender_same(before, self.players@);
                assert(self.players@[cur as int].status == before[cur as int].status);
            }
            return Ok(());
        }
        self.advance_turn();
        Ok(())
    }
}

} // verus!

verus! {

/// `a + b`, or the largest u64 when that overflows.
pub open spec fn sat_add(a: u64, b: u64) -> u64 {
    if a + b > u64::MAX {
        u64::MAX
    } else {
        (a + b) as u64
    }
}

/// The bet of seat `idx` after it puts chips in to reach `target`, paying
/// at most its stack.
pub open spec fn placed_bet(p: Player, target: u64) -> int {
    if target - p.bet <= p.stack {
        target as int
    } else {
        p.bet + p.stack
    }
}

impl Game {
    /// The player to act.
    pub open spec fn actor(&self) -> Player {
        self.players@[self.current as int]
    }

    /// Why a bet to `amount` is refused, if it is.
    pub open spec fn bet_error(&self, amount: u64) -> Option<ActionError> {
        let p = self.actor();
        let min_bet = if self.big_blind >= 1 {
            self.big_blind
        } else {
            1
        };
        if self.turn_error() is Some {
            self.turn_error()
        } else if self.current_bet > 0 {
            Some(ActionError::BetNotAllowed)
        } else if amount < min_bet {
            Some(ActionError::AmountTooSmall { min: min_bet, got: amount })
        } else if amount > p.bet + p.stack {
            Some(ActionError::AmountTooLarge { max: (p.bet + p.stack) as u64, got: amount })
        } else if amount <= p.bet {
            Some(ActionError::TargetTooLow { current: p.bet, target: amount })
        } else {
            None
        }
    }

    /// Why a minimum bet is refused, if it is.
    pub open spec fn bet_min_error(&self) -> Option<ActionError> {
        let target = if self.big_blind >= 1 {
            self.big_blind
        } else {
            1
        };
        if self.turn_error() is Some {
            self.turn_error()
        } else if self.current_bet > 0 {
            Some(ActionError::BetNotAllowed)
        } else if target <= self.actor().bet {
            Some(ActionError::TargetTooLow { current: self.actor().bet, target })
        } else {
            None
        }
    }

    /// Why a minimum raise is refused, if it is.
    pub open spec fn raise_min_error(&self) -> Option<ActionError> {
        let target = sat_add(self.current_bet, self.min_raise);
        if self.turn_error() is Some {
            self.turn_error()
        } else if self.current_bet == 0 {
            Some(ActionError::RaiseNotAllowed)
        } else if target <= self.actor().bet {
            Some(ActionError::TargetTooLow { current: self.actor().bet, target })
        } else {
            None
        }
    }

    /// Why a raise to `amount` is refused, if it is. Going all-in is
    /// allowed below the minimum raise.
    pub open spec fn raise_error(&self, amount: u64) -> Option<ActionError> {
        let p = self.actor();
        let max_total = p.bet + p.stack;
        let min_target = sat_add(self.current_bet, self.min_raise);
        if self.turn_error() is Some {
            self.turn_error()
        } else if self.current_bet == 0 {
            Some(ActionError::RaiseNotAllowed)
        } else if amount > max_total {
            Some(ActionError::AmountTooLarge { max: max_total as u64, got: amount })
        } else if amount < min_target && amount < max_total {
            Some(ActionError::AmountTooSmall { min: min_target, got: amount })
        } else if amount <= p.bet {
            Some(ActionError::TargetTooLow { current: p.bet, target: amount })
        } else {
            None
        }
    }

    /// After the acting seat raised its bet to `new_bet`: a raise of at
    /// least the minimum is a full raise that sets the new minimum and
    /// reopens the action; a smaller (all-in) raise only lifts the current
    /// bet.
    pub open spec fn after_raise(&self, old_g: &Game, actor: usize, new_bet: int) -> bool {
        if new_bet > old_g.current_bet {
            &&& self.current_bet == new_bet
            &&& new_bet - old_g.current_bet >= old_g.min_raise ==> {
                &&& self.min_raise == new_bet - old_g.current_bet
                &&& self.last_raiser == Some(actor)
                &&& self.round_starter == actor
            }
            &&& new_bet - old_g.current_bet < old_g.min_raise ==> {
                &&& self.min_raise == old_g.min_raise
                &&& self.last_raiser == old_g.last_raiser
                &&& self.round_starter == old_g.round_starter
            }
        } else {
            &&& self.current_bet == old_g.current_bet
            &&& self.min_raise == old_g.min_raise
            &&& self.round_starter == old_g.round_starter
        }
    }

    /// The current player checks, or calls what they owe (all-in when
    /// short).
    pub fn action_check_call(&mut self) -> (r: Result<(), ActionError>)
        requires
            old(self).wf(),
        ensures
            r == (match old(self).turn_error() {
                Some(e) => Err(e),
                None => Ok(()),
            }),
            r is Err ==> *final(self) == *old(self),
            r is Ok ==> step_ok(old(self), final(self)),
            r is Ok ==> final(self).players@[old(self).current as int].contributed == old(self).actor().contributed
                + if old(self).current_bet <= old(self).actor().bet {
                0
            } else if old(self).current_bet - old(self).actor().bet <= old(self).actor().stack {
                old(self).current_bet - old(self).actor().bet
            } else {
                old(self).actor().stack as int
            },
            r is Ok ==> final(self).history()[old(self).history().len() as int] == if old(self).current_bet
                <= old(self).actor().bet {
                HandHistoryEntry {
                    seat: old(self).current,
                    verb: HandHistoryVerb::Check,
                    amount: None,
                    street: old(self).street,
                }
            } else {
                HandHistoryEntry {
                    seat: old(self).current,
                    verb: HandHistoryVerb::Call,
                    amount: Some(call_amount(old(self)) as u64),
                    street: old(self).street,
                }
            },
            r is Ok ==> final(self).players@[old(self).current as int].status == if old(self).current_bet
                > old(self).actor().bet && old(self).actor().stack <= old(self).current_bet - old(self).actor().bet {
                PlayerStatus::AllIn
            } else {
                old(self).actor().status
            },
            r is Ok && final(self).street == old(self).street ==> final(self).players@[old(self).current as int].bet
                == old(self).actor().bet + call_amount(old(self)) && final(self).pot == old(self).pot
                + call_amount(old(self)),
    {
        match self.ensure_can_act() {
            Err(e) => {
                return Err(e);
            },
            Ok(()) => {},
        }
        let cur = self.current;
        let to_call = self.to_call(cur);
        let ghost before = self.players@;
        if to_call == 0 {
            self.set_last_action(cur, Some("Check".to_string()));
            self.record_history(cur, HandHistoryVerb::Check, None);
        } else {
            let pay = self.pay_chips(cur, to_call);
            let t = describe_action("Call", pay);
            self.set_last_action(cur, Some(t));
            self.record_history(cur, HandHistoryVerb::Call, Some(pay));
        }
        proof {
            let ps = self.players@;
            assert forall|i: int| 0 <= i < ps.len() implies (#[trigger] ps[i]).bet <= ps[i].contributed by {
                assert(old(self).players@[i].bet <= old(self).players@[i].contributed);
                if i != cur as int {
                    assert(ps[i] == before[i]);
                }
            }
            assert forall|i: int| 0 <= i < ps.len() && (#[trigger] ps[i]).status == PlayerStatus::AllIn
                implies ps[i].stack == 0 by {
                if i != cur as int {
                    assert(ps[i] == before[i]);
                }
            }
            assert forall|i: int| 0 <= i < ps.len() && (#[trigger] ps[i]).status == PlayerStatus::Active
                implies ps[i].bet <= self.current_bet || self.short_big_blind_seat(i) by {
                if i != cur as int {
                    assert(ps[i] == before[i]);
                }
            }
        }
        let ghost mid = self.players@;
        self.advance_turn();
        assert(self.players@[cur as int].contributed == mid[cur as int].contributed);
        Ok(())
    }

    /// Put chips in to bring the current player's bet to `target`, then
    /// apply the raise rule and pass the turn.
    fn place_to_amount(&mut self, target: u64, verb: HandHistoryVerb, label: &str) -> (r: Result<(), ActionError>)
        requires
            old(self).wf(),
            old(self).turn_error() is None,
        ensures
            target <= old(self).actor().bet ==> r == Err::<(), ActionError>(
                ActionError::TargetTooLow { current: old(self).actor().bet, target },
            ),
            target > old(self).actor().bet ==> r == Ok::<(), ActionError>(()),
            r is Err ==> *final(self) == *old(self),
            r is Ok ==> step_ok(old(self), final(self)),
            r is Ok ==> final(self).players@[old(self).current as int].contributed == old(self).actor().contributed
                + placed_bet(old(self).actor(), target) - old(self).actor().bet,
            r is Ok && final(self).street == old(self).street ==> final(self).after_raise(
                old(self),
                old(self).current,
                placed_bet(old(self).actor(), target),
            ),
            r is Ok ==> final(self).history()[old(self).history().len() as int] == (HandHistoryEntry {
                seat: old(self).current,
                verb,
                amount: Some(placed_bet(old(self).actor(), target) as u64),
                street: old(self).street,
            }),
            r is Ok ==> final(self).players@[old(self).current as int].status == if target - old(self).actor().bet
                >= old(self).actor().stack {
                PlayerStatus::AllIn
            } else {
                old(self).actor().status
            },
            r is Ok && final(self).street == old(self).street ==> final(self).players@[old(self).current as int].bet
                == placed_bet(old(self).actor(), target) && final(self).pot == old(self).pot + placed_bet(
                old(self).actor(),
                target,
            ) - old(self).actor().bet,
            r is Ok ==> bet_placed(old(self), final(self), target, verb),
    {
        let idx = self.current;
        let curr = self.players[idx].bet;
        if target <= curr {
            return Err(ActionError::TargetTooLow { current: curr, target });
        }
        let need = target - curr;
        let ghost before = self.players@;
        let _paid = self.pay_chips(idx, need);
        let new_bet = self.players[idx].bet;
        let t = describe_action(label, new_bet);
        self.set_last_action(idx, Some(t));
        self.record_history(idx, verb, Some(new_bet));
        if new_bet > self.current_bet {
            let raise_amt = new_bet - self.current_bet;
            if raise_amt >= self.min_raise {
                self.min_raise = raise_amt;
                self.last_raiser = Some(idx);
                self.round_starter = idx;
            }
            self.current_bet = new_bet;
        }
        proof {
            let ps = self.players@;
            assert forall|i: int| 0 <= i < ps.len() implies (#[trigger] ps[i]).bet <= ps[i].contributed by {
                assert(old(self).players@[i].bet <= old(self).players@[i].contributed);
                if i != idx as int {
                    assert(ps[i] == before[i]);
                }
            }
            assert forall|i: int| 0 <= i < ps.len() && (#[trigger] ps[i]).status == PlayerStatus::AllIn
                implies ps[i].stack == 0 by {
                if i != idx as int {
                    assert(ps[i] == before[i]);
                }
            }
            assert forall|i: int| 0 <= i < ps.len() && (#[trigger] ps[i]).status == PlayerStatus::Active
                implies ps[i].bet <= self.current_bet || self.short_big_blind_seat(i) by {
                if i != idx as int {
                    assert(ps[i] == before[i]);
                }
            }
        }
        let ghost mid = self.players@;
        self.advance_turn();
        assert(self.players@[idx as int].contributed == mid[idx as int].contributed);
        Ok(())
    }
}

} // verus!

verus! {

/// Chips the player to act puts in to check or call: what they owe, at
/// most their stack.
pub open spec fn call_amount(g: &Game) -> int {
    let p = g.actor();
    if g.current_bet <= p.bet {
        0
    } else if g.current_bet - p.bet <= p.stack {
        g.current_bet - p.bet
    } else {
        p.stack as int
    }
}

/// The player to act in `before` brought their bet to `target` (at most
/// all-in) with `verb`: the chips went from stack to bet, contribution and
/// pot, the entry was logged, a player left without chips is all-in, and,
/// while the street goes on, the raise rule was applied.
pub open spec fn bet_placed(before: &Game, after: &Game, target: u64, verb: HandHistoryVerb) -> bool {
    let p = before.actor();
    let nb = placed_bet(p, target);
    &&& after.players@[before.current as int].contributed == p.contributed + nb - p.bet
    &&& after.history()[before.history().len() as int] == (HandHistoryEntry {
        seat: before.current,
        verb,
        amount: Some(nb as u64),
        street: before.street,
    })
    &&& after.players@[before.current as int].status == if target - p.bet >= p.stack {
        PlayerStatus::AllIn
    } else {
        p.status
    }
    &&& after.street == before.street ==> {
        &&& after.players@[before.current as int].bet == nb
        &&& after.pot == before.pot + nb - p.bet
        &&& after.after_raise(before, before.current, nb)
    }
}

impl Game {
    fn actor_max_total(&self) -> (r: u64)
        requires
            self.wf(),
            self.street != Street::Showdown,
        ensures
            r == self.actor().bet + self.actor().stack,
    {
        proof {
            lemma_sum_bounds(self.players@, self.current as int);
            assert(self.players@[self.current as int].bet <= self.players@[self.current as int].contributed);
        }
        let p = &self.players[self.current];
        p.bet + p.stack
    }

    fn min_raise_target(&self) -> (r: u64)
        ensures
            r == sat_add(self.current_bet, self.min_raise),
    {
        if self.min_raise > u64::MAX - self.current_bet {
            u64::MAX
        } else {
            self.current_bet + self.min_raise
        }
    }

    /// Bet the minimum, max(big blind, 1), when no bet has been made.
    pub fn action_bet_min(&mut self) -> (r: Result<(), ActionError>)
        requires
            old(self).wf(),
        ensures
            r == (match old(self).bet_min_error() {
                Some(e) => Err(e),
                None => Ok(()),
            }),
            r is Err ==> *final(self) == *old(self),
            r is Ok ==> step_ok(old(self), final(self)),
            r is Ok ==> bet_placed(
                old(self),
                final(self),
                if old(self).big_blind >= 1 {
                    old(self).big_blind
                } else {
                    1
                },
                HandHistoryVerb::Bet,
            ),
    {
        match self.ensure_can_act() {
            Err(e) => {
                return Err(e);
            },
            Ok(()) => {},
        }
        if self.current_bet > 0 {
            return Err(ActionError::BetNotAllowed);
        }
        let target = if self.big_blind >= 1 {
            self.big_blind
        } else {
            1
        };
        self.place_to_amount(target, HandHistoryVerb::Bet, "Bet")
    }

    /// Bet `amount` when no bet has been made: at least max(big blind, 1)
    /// and at most the player's bet plus stack.
    pub fn action_bet(&mut self, amount: u64) -> (r: Result<(), ActionError>)
        requires
            old(self).wf(),
        ensures
            r == (match old(self).bet_error(amount) {
                Some(e) => Err(e),
                None => Ok(()),
            }),
            r is Err ==> *final(self) == *old(self),
            r is Ok ==> step_ok(old(self), final(self)),
            r is Ok ==> final(self).players@[old(self).current as int].contributed == old(self).actor().contributed
                + amount - old(self).actor().bet,
            r is Ok && final(self).street == old(self).street ==> final(self).after_raise(
                old(self),
                old(self).current,
                amount as int,
            ),
            r is Ok ==> bet_placed(old(self), final(self), amount, HandHistoryVerb::Bet),
    {
        match self.ensure_can_act() {
            Err(e) => {
                return Err(e);
            },
            Ok(()) => {},
        }
        if self.current_bet > 0 {
            return Err(ActionError::BetNotAllowed);
        }
        let min_bet = if self.big_blind >= 1 {
            self.big_blind
        } else {
            1
        };
        if amount < min_bet {
            return Err(ActionError::AmountTooSmall { min: min_bet, got: amount });
        }
        let max_total = self.actor_max_total();
        if amount > max_total {
            return Err(ActionError::AmountTooLarge { max: max_total, got: amount });
        }
        self.place_to_amount(amount, HandHistoryVerb::Bet, "Bet")
    }

    /// Raise by the minimum raise (all-in when short).
    pub fn action_raise_min(&mut self) -> (r: Result<(), ActionError>)
        requires
            old(self).wf(),
        ensures
            r == (match old(self).raise_min_error() {
                Some(e) => Err(e),
                None => Ok(()),
            }),
            r is Err ==> *final(self) == *old(self),
            r is Ok ==> step_ok(old(self), final(self)),
            r is Ok && final(self).street == old(self).street ==> final(self).after_raise(
                old(self),
                old(self).current,
                placed_bet(old(self).actor(), sat_add(old(self).current_bet, old(self).min_raise)),
            ),
            r is Ok ==> bet_placed(
                old(self),
                final(self),
                sat_add(old(self).current_bet, old(self).min_raise),
                HandHistoryVerb::RaiseTo,
            ),
    {
        match self.ensure_can_act() {
            Err(e) => {
                return Err(e);
            },
            Ok(()) => {},
        }
        if self.current_bet == 0 {
            return Err(ActionError::RaiseNotAllowed);
        }
        let target = self.min_raise_target();
        self.place_to_amount(target, HandHistoryVerb::RaiseTo, "Raise to")
    }

    /// Raise the bet to `amount`: at most the player's bet plus stack, and
    /// at least the current bet plus the minimum raise unless the player
    /// goes all-in.
    pub fn action_raise_to(&mut self, amount: u64) -> (r: Result<(), ActionError>)
        requires
            old(self).wf(),
        ensures
            r == (match old(self).raise_error(amount) {
                Some(e) => Err(e),
                None => Ok(()),
            }),
            r is Err ==> *final(self) == *old(self),
            r is Ok ==> step_ok(old(self), final(self)),
            r is Ok ==> final(self).players@[old(self).current as int].contributed == old(self).actor().contributed
                + amount - old(self).actor().bet,
            r is Ok && final(self).street == old(self).street ==> final(self).after_raise(
                old(self),
                old(self).current,
                amount as int,
            ),
            r is Ok ==> bet_placed(old(self), final(self), amount, HandHistoryVerb::RaiseTo),
    {
        match self.ensure_can_act() {
            Err(e) => {
                return Err(e);
            },
            Ok(()) => {},
        }
        if self.current_bet == 0 {
            return Err(ActionError::RaiseNotAllowed);
        }
        let max_total = self.actor_max_total();
        if amount > max_total {
            return Err(ActionError::AmountTooLarge { max: max_total, got: amount });
        }
        let min_target = self.min_raise_target();
        if amount < min_target && amount < max_total {
            return Err(ActionError::AmountTooSmall { min: min_target, got: amount });
        }
        self.place_to_amount(amount, HandHistoryVerb::RaiseTo, "Raise to")
    }
}

} // verus!

verus! {

/// The pot split into the main pot and the side pots, lowest level first.
#[derive(Debug, Clone, PartialEq, Eq)]
pub struct PotBreakdown {
    pub main: u64,
    pub sides: Vec<u64>,
}

/// Collect the pot of the level `lvl` above `prev`: every seat that
/// contributed at least `lvl` puts `lvl - prev` in; `left` holds what each
/// seat has not yet put into a pot.
fn collect_level(c: &Vec<u64>, left: &mut Vec<u64>, prev: u64, lvl: u64) -> (amount: u64)
    requires
        old(left)@.len() == c@.len(),
        lvl > prev,
        forall|k: int| 0 <= k < c@.len() ==> !(prev < #[trigger] c@[k] < lvl),
        forall|k: int|
            0 <= k < c@.len() ==> #[trigger] old(left)@[k] == if c@[k] >= prev {
                c@[k] - prev
            } else {
                0
            },
        chip_sum(old(left)@) <= u64::MAX,
    ensures
        final(left)@.len() == c@.len(),
        forall|k: int|
            0 <= k < c@.len() ==> #[trigger] final(left)@[k] == if c@[k] >= lvl {
                c@[k] - lvl
            } else {
                0
            },
        chip_sum(final(left)@) + amount == chip_sum(old(left)@),
        amount == (lvl - prev) * count_at_least(c@, lvl, c@.len() as int),
{
    let n = c.len();
    let step = lvl - prev;
    let mut amount: u64 = 0;
    let mut j: usize = 0;
    let ghost left0 = left@;
    while j < n
        invariant
            j <= n,
            n == c@.len(),
            left@.len() == n,
            lvl > prev,
            step == lvl - prev,
            forall|k: int| 0 <= k < n ==> !(prev < #[trigger] c@[k] < lvl),
            forall|k: int|
                0 <= k < n ==> #[trigger] left0[k] == if c@[k] >= prev {
                    c@[k] - prev
                } else {
                    0
                },
            forall|k: int| j <= k < n ==> #[trigger] left@[k] == left0[k],
            forall|k: int|
                0 <= k < j ==> #[trigger] left@[k] == if c@[k] >= lvl {
                    c@[k] - lvl
                } else {
                    0
                },
            amount == step * count_at_least(c@, lvl, j as int),
            chip_sum(left@) + amount == chip_sum(left0),
            chip_sum(left0) <= u64::MAX,
        decreases n - j,
    {
        proof {
            assert(step * (count_at_least(c@, lvl, j as int) + 1) == step * count_at_least(c@, lvl, j as int) + step) by (nonlinear_arith);
        }
        if c[j] >= lvl {
            let ghost before = left@;
            let v = left[j] - step;
            left.set(j, v);
            proof {
                lemma_chip_sum_update(before, j as int, v);
                lemma_chip_sum_nonneg(left@);
            }
            amount = amount + step;
        }
        j = j + 1;
    }
    amount
}

impl Game {
    /// Main pot and side pots built from the contribution levels: for each
    /// distinct positive contribution level, (level - previous level) times
    /// the number of players who contributed at least that much. Together
    /// they hold every contributed chip.
    pub fn pot_breakdown(&self) -> (r: PotBreakdown)
        requires
            sum_contributed(self.players@) <= u64::MAX,
        ensures
            r.main + chip_sum(r.sides@) == sum_contributed(self.players@),
            level_pots_from(contributions(self.players@), 0).len() == 0 ==> r.main == 0 && r.sides@.len() == 0,
            level_pots_from(contributions(self.players@), 0).len() > 0 ==> seq![r.main as int] + as_ints(r.sides@)
                == level_pots_from(contributions(self.players@), 0),
            forall|k: int| 0 <= k < r.sides@.len() ==> #[trigger] r.sides@[k] > 0,
            r.sides@.len() > 0 ==> r.main > 0,
    {
        let n = self.players.len();
        let mut c: Vec<u64> = Vec::new();
        let mut k: usize = 0;
        while k < n
            invariant
                k <= n,
                n == self.players@.len(),
                c@ == contributions(self.players@).take(k as int),
            decreases n - k,
        {
            c.push(self.players[k].contributed);
            k = k + 1;
            assert(c@ =~= contributions(self.players@).take(k as int));
        }
        proof {
            assert(c@ =~= contributions(self.players@));
            lemma_contributions_sum(self.players@);
        }
        let mut left: Vec<u64> = Vec::new();
        let mut i: usize = 0;
        while i < n
            invariant
                i <= n,
                n == c@.len(),
                left@ == c@.take(i as int),
            decreases n - i,
        {
            left.push(c[i]);
            i = i + 1;
            assert(left@ =~= c@.take(i as int));
        }
        assert(left@ =~= c@);
        let mut pots: Vec<u64> = Vec::new();
        let mut prev: u64 = 0;
        proof {
            assert(pots@ =~= Seq::<u64>::empty());
            assert(as_ints(pots@) + level_pots_from(c@, 0) =~= level_pots_from(c@, 0));
        }
        loop
            invariant
                n == c@.len(),
                left@.len() == n,
                forall|k: int|
                    0 <= k < n ==> #[trigger] left@[k] == if c@[k] >= prev {
                        c@[k] - prev
                    } else {
                        0
                    },
                chip_sum(left@) + chip_sum(pots@) == chip_sum(c@),
                chip_sum(c@) <= u64::MAX,
                forall|k: int| 0 <= k < pots@.len() ==> #[trigger] pots@[k] > 0,
                as_ints(pots@) + level_pots_from(c@, prev) == level_pots_from(c@, 0),
            ensures
                as_ints(pots@) == level_pots_from(c@, 0),
                chip_sum(pots@) == chip_sum(c@),
                forall|k: int| 0 <= k < pots@.len() ==> #[trigger] pots@[k] > 0,
            decreases u64::MAX - prev,
        {
            let lvl = match next_level(&c, prev) {
                None => {
                    proof {
                        assert forall|k: int| 0 <= k < n implies #[trigger] left@[k] == 0u64 by {}
                        assert(left@ =~= Seq::new(n as nat, |k: int| 0u64));
                        lemma_chip_sum_zeros(n as int);
                    }
                    break;
                },
                Some(l) => l,
            };
            proof {
                lemma_chip_sum_nonneg(pots@);
            }
            let amount = collect_level(&c, &mut left, prev, lvl);
            let ghost before = pots@;
            if amount > 0 {
                pots.push(amount);
                assert(pots@.drop_last() =~= before);
                assert(as_ints(pots@) =~= as_ints(before) + seq![amount as int]);
            }
            proof {
                assert(level_pots_from(c@, prev) == (if amount > 0 {
                    seq![amount as int]
                } else {
                    Seq::<int>::empty()
                }) + level_pots_from(c@, lvl));
                if amount > 0 {
                    assert(as_ints(pots@) + level_pots_from(c@, lvl) =~= as_ints(before) + level_pots_from(c@, prev));
                } else {
                    assert(level_pots_from(c@, prev) =~= level_pots_from(c@, lvl));
                }
            }
            prev = lvl;
        }
        if pots.len() == 0 {
            return PotBreakdown { main: 0, sides: Vec::new() };
        }
        let main = pots[0];
        let mut sides: Vec<u64> = Vec::new();
        let mut j: usize = 1;
        proof {
            assert(pots@.take(1).drop_last() =~= Seq::<u64>::empty());
            assert(sides@ =~= Seq::<u64>::empty());
            assert(chip_sum(Seq::<u64>::empty()) == 0);
            assert(pots@.take(1).last() == main);
            assert(chip_sum(pots@.take(1)) == chip_sum(pots@.take(1).drop_last()) + pots@.take(1).last());
        }
        while j < pots.len()
            invariant
                1 <= j <= pots@.len(),
                forall|k: int| 0 <= k < pots@.len() ==> #[trigger] pots@[k] > 0,
                main == pots@[0],
                sides@ == pots@.subrange(1, j as int),
                main + chip_sum(sides@) == chip_sum(pots@.take(j as int)),
            decreases pots@.len() - j,
        {
            let ghost before = sides@;
            sides.push(pots[j]);
            proof {
                assert(sides@.drop_last() =~= before);
                assert(pots@.take(j as int + 1).drop_last() =~= pots@.take(j as int));
            }
            j = j + 1;
            assert(sides@ =~= pots@.subrange(1, j as int));
        }
        proof {
            assert(pots@.take(j as int) =~= pots@);
        }
        PotBreakdown { main, sides }
    }

    pub fn current_bet(&self) -> (r: u64)
        ensures
            r == self.current_bet,
    {
        self.current_bet
    }

    pub fn min_raise(&self) -> (r: u64)
        ensures
            r == self.min_raise,
    {
        self.min_raise
    }

    pub fn pot(&self) -> (r: u64)
        ensures
            r == self.pot,
    {
        self.pot
    }

    /// The hole cards of a seat, if it has any (None for a seat out of range).
    pub fn hole_cards(&self, seat: usize) -> (r: Option<HoleCards>)
        ensures
            r == if seat < self.players@.len() {
                self.players@[seat as int].hole
            } else {
                None
            },
    {
        if seat < self.players.len() {
            self.players[seat].hole
        } else {
            None
        }
    }

    pub fn board(&self) -> (r: &Board)
        ensures
            *r == self.board,
    {
        &self.board
    }

    pub fn stack(&self, seat: usize) -> (r: u64)
        requires
            seat < self.players@.len(),
        ensures
            r == self.players@[seat as int].stack,
    {
        self.players[seat].stack
    }

    pub fn bet(&self, seat: usize) -> (r: u64)
        requires
            seat < self.players@.len(),
        ensures
            r == self.players@[seat as int].bet,
    {
        self.players[seat].bet
    }

    pub fn current(&self) -> (r: usize)
        ensures
            r == self.current,
    {
        self.current
    }

    pub fn dealer(&self) -> (r: usize)
        ensures
            r == self.dealer,
    {
        self.dealer
    }

    pub fn street(&self) -> (r: Street)
        ensures
            r == self.street,
    {
        self.street
    }

    pub fn num_players(&self) -> (r: usize)
        ensures
            r == self.players@.len(),
    {
        self.players.len()
    }

    pub fn players(&self) -> (r: &Vec<Player>)
        ensures
            r@ == self.players@,
    {
        &self.players
    }

    /// Seats that won chips in the last showdown, from the left of the dealer.
    pub fn winners(&self) -> (r: &Vec<usize>)
        ensures
            r@ == self.winners@,
    {
        &self.winners
    }

    /// Category shown by each seat in the last showdown (None if folded or unknown).
    pub fn showdown_categories(&self) -> (r: &Vec<Option<Category>>)
        ensures
            r@ == self.showdown_categories@,
    {
        &self.showdown_categories
    }
}

/// Board size follows the street: none preflop, three on the flop, four on
/// the turn, five on the river, at most five at showdown.
pub proof fn lemma_board_size_by_street(g: &Game)
    requires
        g.wf(),
    ensures
        g.street == Street::Preflop ==> g.board@.len() == 0,
        g.street == Street::Flop ==> g.board@.len() == 3,
        g.street == Street::Turn ==> g.board@.len() == 4,
        g.street == Street::River ==> g.board@.len() == 5,
        g.board@.len() <= 5,
{
}

/// During a hand the pot holds exactly the chips the players contributed,
/// so stacks plus contributions account for every chip on the table.
pub proof fn lemma_pot_is_contributions(g: &Game)
    requires
        g.wf(),
        g.street != Street::Showdown,
    ensures
        g.pot == sum_contributed(g.players@),
        chips_on_table(g) == sum_stacks(g.players@) + sum_contributed(g.players@),
{
}

} // verus!

verus! {

/// What performing `action` on `before` did, giving `after` and `r`: the
/// action's own error exactly when it is refused, with the table unchanged;
/// otherwise an accepted step (see `step_ok`).
pub open spec fn action_outcome(before: &Game, after: &Game, action: Action, r: Result<(), ActionError>) -> bool {
    let err = match action {
        Action::Fold => before.turn_error(),
        Action::CheckCall => before.turn_error(),
        Action::BetMin => before.bet_min_error(),
        Action::RaiseMin => before.raise_min_error(),
        Action::Bet(a) => before.bet_error(a),
        Action::RaiseTo(a) => before.raise_error(a),
    };
    &&& r == match err {
        Some(e) => Err(e),
        None => Ok(()),
    }
    &&& r is Err ==> *after == *before
    &&& r is Ok ==> step_ok(before, after)
}

} // verus!
