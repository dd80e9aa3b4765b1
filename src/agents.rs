use vstd::prelude::*;
use crate::engine::GameEngine;
use crate::game::{ActionError, Street};

verus! {

/// Kinds of agents attached to seats.
#[derive(Debug, Clone, Copy, PartialEq, Eq, Structural)]
#[non_exhaustive]
pub enum AgentKind {
    Human,
    Bot,
}

/// Seat-level action intents, typically produced by a front end for a human player.
#[derive(Debug, Clone, Copy, PartialEq, Eq, Structural)]
#[non_exhaustive]
pub enum Action {
    Fold,
    CheckCall,
    BetMin,
    RaiseMin,
    Bet(u64),
    RaiseTo(u64),
}

/// Perform `action` on the engine.
pub fn play_action<E: GameEngine>(engine: &mut E, action: Action) -> (r: Result<(), ActionError>)
    requires
        old(engine).ready(),
    ensures
        final(engine).ready(),
        final(engine).seats() == old(engine).seats(),
        final(engine).applied(old(engine), action, r),
{
    match action {
        Action::Fold => engine.action_fold(),
        Action::CheckCall => engine.action_check_call(),
        Action::BetMin => engine.action_bet_min(),
        Action::RaiseMin => engine.action_raise_min(),
        Action::Bet(amount) => engine.action_bet(amount),
        Action::RaiseTo(amount) => engine.action_raise_to(amount),
    }
}

/// A seat controller that can act for a player when it is their turn.
pub trait PlayerAgent {
    /// Called when `seat` is the current actor; returns whether it acted.
    fn on_turn<E: GameEngine>(&mut self, engine: &mut E, seat: usize) -> (r: Result<
        bool,
        ActionError,
    >)
        requires
            old(engine).ready(),
        ensures
            final(engine).ready(),
            final(engine).seats() == old(engine).seats(),
            old(engine).at_showdown() || old(engine).to_act() != seat ==> r == Ok::<bool, ActionError>(false)
                && *final(engine) == *old(engine),
    ;

    /// The kind of this agent.
    fn kind(&self) -> AgentKind;

    /// Offer a seat-intent action; returns whether it was taken.
    fn receive(&mut self, action: Action) -> bool;
}

/// An agent that plays the action a person queued, when it is their turn.
pub struct HumanAgent {
    pending: Option<Action>,
}

impl HumanAgent {
    /// The action waiting to be played, if any.
    pub closed spec fn queued(&self) -> Option<Action> {
        self.pending
    }

    pub fn new() -> (r: Self)
        ensures
            r.queued() is None,
    {
        HumanAgent { pending: None }
    }
}

impl PlayerAgent for HumanAgent {
    fn kind(&self) -> (r: AgentKind)
        ensures
            r == AgentKind::Human,
    {
        AgentKind::Human
    }

    /// Queue `action` unless one is already waiting.
    fn receive(&mut self, action: Action) -> (r: bool)
        ensures
            r == old(self).queued() is None,
            r ==> final(self).queued() == Some(action),
            !r ==> final(self).queued() == old(self).queued(),
    {
        if self.pending.is_some() {
            return false;
        }
        self.pending = Some(action);
        true
    }

    /// At showdown the queue is dropped; on the seat's turn the queued
    /// action is played.
    fn on_turn<E: GameEngine>(&mut self, engine: &mut E, seat: usize) -> (r: Result<
        bool,
        ActionError,
    >)
        ensures
            old(engine).at_showdown() ==> r == Ok::<bool, ActionError>(false) && final(self).queued() is None,
            !old(engine).at_showdown() && old(engine).to_act() != seat ==> r == Ok::<bool, ActionError>(false)
                && final(self).queued() == old(self).queued(),
            !old(engine).at_showdown() && old(engine).to_act() == seat ==> final(self).queued() is None,
            !old(engine).at_showdown() && old(engine).to_act() == seat && old(self).queued() is None ==> r
                == Ok::<bool, ActionError>(false) && *final(engine) == *old(engine),
            !old(engine).at_showdown() && old(engine).to_act() == seat && old(self).queued() is Some
                ==> exists|er: Result<(), ActionError>|
                final(engine).applied(old(engine), old(self).queued()->Some_0, er) && r == match er {
                    Ok(()) => Ok::<bool, ActionError>(true),
                    Err(e) => Err(e),
                },
    {
        if engine.street() == Street::Showdown {
            self.pending = None;
            return Ok(false);
        }
        if engine.current() != seat {
            return Ok(false);
        }
        match self.pending {
            Some(act) => {
                self.pending = None;
                match play_action(engine, act) {
                    Ok(()) => Ok(true),
                    Err(e) => Err(e),
                }
            },
            None => Ok(false),
        }
    }
}

/// Whether the table holds back the agent at the current seat: it is a bot
/// and the deadline set after the last action has not passed.
pub open spec fn holds_back(kind: Option<AgentKind>, deadline_ms: Option<u64>, now_ms: u64) -> bool {
    kind == Some(AgentKind::Bot) && (deadline_ms matches Some(d) && now_ms < d)
}

/// `now + delay`, or the largest u64 when that overflows.
pub open spec fn later(now_ms: u64, delay_ms: u64) -> u64 {
    if now_ms + delay_ms > u64::MAX {
        u64::MAX
    } else {
        (now_ms + delay_ms) as u64
    }
}

/// A set of optional agents, one per seat, that drives the agent at the
/// current seat. The table remembers the kind of each agent it was given.
/// `now_ms` is a clock reading handed in by the caller.
pub struct AgentTable<A> {
    seats: Vec<Option<A>>,
    kinds: Vec<Option<AgentKind>>,
    min_action_delay_ms: u64,
    next_action_at_ms: Option<u64>,
}

impl<A: PlayerAgent> AgentTable<A> {
    /// The agents by seat.
    pub closed spec fn slots(&self) -> Seq<Option<A>> {
        self.seats@
    }

    /// The kind of the agent at each seat.
    pub closed spec fn kinds(&self) -> Seq<Option<AgentKind>> {
        self.kinds@
    }

    /// Minimum delay between two actions at the table.
    pub closed spec fn delay(&self) -> u64 {
        self.min_action_delay_ms
    }

    /// Time before which a bot is held back, if any.
    pub closed spec fn deadline(&self) -> Option<u64> {
        self.next_action_at_ms
    }

    /// Every seat with an agent has its kind recorded, and no other seat.
    pub open spec fn table_ok(&self) -> bool {
        &&& self.kinds().len() == self.slots().len()
        &&& forall|i: int|
            0 <= i < self.slots().len() ==> ((#[trigger] self.slots()[i]) is Some <==> self.kinds()[i] is Some)
    }

    /// A table with `n` seats, all empty.
    pub fn for_seats(n: usize) -> (r: Self)
        ensures
            r.table_ok(),
            r.slots().len() == n,
            forall|i: int| 0 <= i < n ==> #[trigger] r.slots()[i] is None,
            r.delay() == 0,
            r.deadline() is None,
    {
        let mut seats: Vec<Option<A>> = Vec::new();
        let mut kinds: Vec<Option<AgentKind>> = Vec::new();
        let mut i: usize = 0;
        while i < n
            invariant
                i <= n,
                seats@.len() == i,
                kinds@.len() == i,
                forall|k: int| 0 <= k < i ==> #[trigger] seats@[k] is None && kinds@[k] is None,
            decreases n - i,
        {
            seats.push(None);
            kinds.push(None);
            i = i + 1;
        }
        AgentTable { seats, kinds, min_action_delay_ms: 0, next_action_at_ms: None }
    }

    /// Grow (with empty seats) or shrink the table to `n` seats.
    pub fn ensure_len(&mut self, n: usize)
        requires
            old(self).table_ok(),
        ensures
            final(self).table_ok(),
            final(self).slots().len() == n,
            forall|i: int|
                0 <= i < n ==> #[trigger] final(self).slots()[i] == if i < old(self).slots().len() {
                    old(self).slots()[i]
                } else {
                    None
                },
            forall|i: int|
                0 <= i < n ==> #[trigger] final(self).kinds()[i] == if i < old(self).kinds().len() {
                    old(self).kinds()[i]
                } else {
                    None
                },
            final(self).delay() == old(self).delay(),
            final(self).deadline() == old(self).deadline(),
    {
        while self.seats.len() < n
            invariant
                self.kinds@.len() == self.seats@.len(),
                forall|i: int|
                    0 <= i < self.seats@.len() ==> #[trigger] self.seats@[i] == if i < old(self).slots().len() {
                        old(self).slots()[i]
                    } else {
                        None
                    },
                forall|i: int|
                    0 <= i < self.kinds@.len() ==> #[trigger] self.kinds@[i] == if i < old(self).kinds().len() {
                        old(self).kinds()[i]
                    } else {
                        None
                    },
                self.seats@.len() >= old(self).slots().len() || self.seats@.len() == old(self).slots().len(),
                self.seats@.len() <= n || self.seats@.len() == old(self).slots().len(),
                old(self).table_ok(),
                self.min_action_delay_ms == old(self).delay(),
                self.next_action_at_ms == old(self).deadline(),
            decreases n - self.seats@.len(),
        {
            self.seats.push(None);
            self.kinds.push(None);
        }
        while self.seats.len() > n
            invariant
                self.kinds@.len() == self.seats@.len(),
                forall|i: int|
                    0 <= i < self.seats@.len() ==> #[trigger] self.seats@[i] == if i < old(self).slots().len() {
                        old(self).slots()[i]
                    } else {
                        None
                    },
                forall|i: int|
                    0 <= i < self.kinds@.len() ==> #[trigger] self.kinds@[i] == if i < old(self).kinds().len() {
                        old(self).kinds()[i]
                    } else {
                        None
                    },
                self.seats@.len() >= n,
                old(self).table_ok(),
                self.min_action_delay_ms == old(self).delay(),
                self.next_action_at_ms == old(self).deadline(),
            decreases self.seats@.len(),
        {
            let _ = self.seats.pop();
            let _ = self.kinds.pop();
        }
    }

    /// Assign an agent to a seat (or remove it with `None`), growing the
    /// table when the seat is beyond its end; the agent's kind is recorded.
    pub fn set_agent(&mut self, seat: usize, agent: Option<A>)
        requires
            seat < usize::MAX,
            old(self).table_ok(),
        ensures
            final(self).table_ok(),
            final(self).slots().len() == if seat < old(self).slots().len() {
                old(self).slots().len() as int
            } else {
                seat + 1
            },
            final(self).slots()[seat as int] == agent,
            forall|i: int|
                0 <= i < final(self).slots().len() && i != seat ==> #[trigger] final(self).slots()[i]
                    == if i < old(self).slots().len() {
                    old(self).slots()[i]
                } else {
                    None
                },
            forall|i: int|
                0 <= i < final(self).slots().len() && i != seat ==> #[trigger] final(self).kinds()[i]
                    == if i < old(self).kinds().len() {
                    old(self).kinds()[i]
                } else {
                    None
                },
            final(self).delay() == old(self).delay(),
            final(self).deadline() == old(self).deadline(),
    {
        if seat >= self.seats.len() {
            self.ensure_len(seat + 1);
        }
        let kind = match &agent {
            Some(a) => Some(a.kind()),
            None => None,
        };
        self.seats.set(seat, agent);
        self.kinds.set(seat, kind);
    }

    /// The agent at a seat, for inspection.
    pub fn agent(&self, seat: usize) -> (r: Option<&A>)
        ensures
            seat < self.slots().len() && self.slots()[seat as int] is Some ==> r is Some && *r->Some_0
                == self.slots()[seat as int]->Some_0,
            !(seat < self.slots().len() && self.slots()[seat as int] is Some) ==> r is None,
    {
        if seat < self.seats.len() {
            match &self.seats[seat] {
                Some(a) => Some(a),
                None => None,
            }
        } else {
            None
        }
    }

    /// The kind of agent at a seat, if any.
    pub fn agent_kind(&self, seat: usize) -> (r: Option<AgentKind>)
        requires
            self.table_ok(),
        ensures
            r == if seat < self.kinds().len() {
                self.kinds()[seat as int]
            } else {
                None
            },
    {
        if seat < self.kinds.len() {
            self.kinds[seat]
        } else {
            None
        }
    }

    /// Offer an action intent to the agent at a seat, if any.
    pub fn receive(&mut self, seat: usize, action: Action) -> (r: bool)
        requires
            old(self).table_ok(),
        ensures
            final(self).table_ok(),
            final(self).slots().len() == old(self).slots().len(),
            final(self).kinds() == old(self).kinds(),
            final(self).delay() == old(self).delay(),
            final(self).deadline() == old(self).deadline(),
            !(seat < old(self).slots().len() && old(self).slots()[seat as int] is Some) ==> !r
                && final(self).slots() == old(self).slots(),
    {
        if seat < self.seats.len() {
            let mut slot = self.seats.remove(seat);
            let r = match &mut slot {
                Some(a) => a.receive(action),
                None => false,
            };
            self.seats.insert(seat, slot);
            proof {
                if old(self).slots()[seat as int] is None {
                    assert(self.seats@ =~= old(self).slots());
                }
            }
            r
        } else {
            false
        }
    }

    /// Whether a seat has an agent.
    pub fn has_agent(&self, seat: usize) -> (r: bool)
        ensures
            r == (seat < self.slots().len() && self.slots()[seat as int] is Some),
    {
        seat < self.seats.len() && self.seats[seat].is_some()
    }

    /// Whether any seat has an agent.
    pub fn any_agents(&self) -> (r: bool)
        ensures
            r == exists|i: int| 0 <= i < self.slots().len() && (#[trigger] self.slots()[i]) is Some,
    {
        let mut i: usize = 0;
        while i < self.seats.len()
            invariant
                i <= self.seats@.len(),
                forall|k: int| 0 <= k < i ==> (#[trigger] self.seats@[k]) is None,
            decreases self.seats@.len() - i,
        {
            if self.seats[i].is_some() {
                return true;
            }
            i = i + 1;
        }
        false
    }

    /// Whether any seat has a bot.
    pub fn any_bots(&self) -> (r: bool)
        ensures
            r == exists|i: int|
                0 <= i < self.kinds().len() && #[trigger] self.kinds()[i] == Some(AgentKind::Bot),
    {
        let mut i: usize = 0;
        while i < self.kinds.len()
            invariant
                i <= self.kinds@.len(),
                forall|k: int| 0 <= k < i ==> #[trigger] self.kinds@[k] != Some(AgentKind::Bot),
            decreases self.kinds@.len() - i,
        {
            if self.kinds[i] == Some(AgentKind::Bot) {
                return true;
            }
            i = i + 1;
        }
        false
    }

    /// Minimum delay between two actions at the table.
    pub fn set_min_action_delay_ms(&mut self, delay_ms: u64)
        ensures
            final(self).slots() == old(self).slots(),
            final(self).kinds() == old(self).kinds(),
            final(self).delay() == delay_ms,
            final(self).deadline() == old(self).deadline(),
    {
        self.min_action_delay_ms = delay_ms;
    }

    /// Drive the agent at the current seat, if any. A bot is held back
    /// until the deadline set after the last action has passed; after an
    /// action, with a delay set, the next deadline is `now_ms` plus the
    /// delay.
    pub fn on_turn<E: GameEngine>(&mut self, engine: &mut E, now_ms: u64) -> (r: Result<
        bool,
        ActionError,
    >)
        requires
            old(engine).ready(),
            old(self).table_ok(),
        ensures
            final(engine).ready(),
            final(engine).seats() == old(engine).seats(),
            final(self).table_ok(),
            final(self).slots().len() == old(self).slots().len(),
            final(self).kinds() == old(self).kinds(),
            final(self).delay() == old(self).delay(),
            !(old(engine).to_act() < old(self).slots().len() && old(self).slots()[old(engine).to_act() as int] is Some)
                ==> r == Ok::<bool, ActionError>(false) && *final(engine) == *old(engine)
                && final(self).deadline() == old(self).deadline(),
            old(engine).to_act() < old(self).kinds().len() && holds_back(
                old(self).kinds()[old(engine).to_act() as int],
                old(self).deadline(),
                now_ms,
            ) ==> r == Ok::<bool, ActionError>(false) && *final(engine) == *old(engine)
                && final(self).deadline() == old(self).deadline() && final(self).slots() == old(self).slots(),
            r == Ok::<bool, ActionError>(true) && old(self).delay() > 0 ==> final(self).deadline() == Some(
                later(now_ms, old(self).delay()),
            ),
            !(r == Ok::<bool, ActionError>(true) && old(self).delay() > 0) ==> final(self).deadline()
                == old(self).deadline(),
    {
        let seat = engine.current();
        if seat >= self.seats.len() {
            return Ok(false);
        }
        let kind = self.kinds[seat];
        let waiting = match self.next_action_at_ms {
            Some(next) => kind == Some(AgentKind::Bot) && now_ms < next,
            None => false,
        };
        if waiting {
            return Ok(false);
        }
        let mut slot = self.seats.remove(seat);
        let result = match &mut slot {
            Some(agent) => {
                match agent.on_turn(engine, seat) {
                    Ok(acted) => {
                        if acted && self.min_action_delay_ms > 0 {
                            let at = if self.min_action_delay_ms > u64::MAX - now_ms {
                                u64::MAX
                            } else {
                                now_ms + self.min_action_delay_ms
                            };
                            self.next_action_at_ms = Some(at);
                        }
                        Ok(acted)
                    },
                    Err(e) => Err(e),
                }
            },
            None => Ok(false),
        };
        self.seats.insert(seat, slot);
        proof {
            assert forall|i: int| 0 <= i < self.seats@.len() implies ((#[trigger] self.seats@[i]) is Some
                <==> self.kinds@[i] is Some) by {
                if i != seat as int {
                    assert(self.seats@[i] == old(self).slots()[i]);
                }
            }
        }
        result
    }

    /// Remove every agent.
    pub fn clear(&mut self)
        requires
            old(self).table_ok(),
        ensures
            final(self).table_ok(),
            final(self).slots().len() == old(self).slots().len(),
            forall|i: int| 0 <= i < final(self).slots().len() ==> #[trigger] final(self).slots()[i] is None,
            final(self).delay() == old(self).delay(),
            final(self).deadline() is None,
    {
        let mut i: usize = 0;
        while i < self.seats.len()
            invariant
                i <= self.seats@.len(),
                self.seats@.len() == old(self).slots().len(),
                self.kinds@.len() == old(self).slots().len(),
                forall|k: int| 0 <= k < i ==> #[trigger] self.seats@[k] is None && self.kinds@[k] is None,
                forall|k: int| i <= k < self.seats@.len() ==> ((#[trigger] self.seats@[k]) is Some <==> self.kinds@[k] is Some),
                self.min_action_delay_ms == old(self).delay(),
            decreases self.seats@.len() - i,
        {
            self.seats.set(i, None);
            self.kinds.set(i, None);
            i = i + 1;
        }
        self.next_action_at_ms = None;
    }
}

} // verus!

verus! {

impl Default for HumanAgent {
    fn default() -> (r: Self)
        ensures
            r.queued() is None,
    {
        HumanAgent::new()
    }
}

} // verus!
