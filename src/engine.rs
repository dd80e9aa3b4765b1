use vstd::prelude::*;
use crate::agents::Action;
use crate::game::{action_outcome, ActionError, Game, Street};
use crate::hand::{Board, HoleCards};

verus! {

/// The narrow capability set that agents and front ends drive a table
/// through: hand lifecycle, the six action verbs, and queries.
pub trait GameEngine {
    /// The table is in a state where the verbs and queries apply.
    spec fn ready(&self) -> bool;

    /// Number of seats.
    spec fn seats(&self) -> nat;

    /// The hand has reached its showdown.
    spec fn at_showdown(&self) -> bool;

    /// The seat whose turn it is.
    spec fn to_act(&self) -> nat;

    /// `self` and `r` are what performing `action` on `before` gave.
    spec fn applied(&self, before: &Self, action: Action, r: Result<(), ActionError>) -> bool;

    fn new_hand(&mut self)
        requires
            old(self).ready(),
        ensures
            final(self).ready(),
            final(self).seats() == old(self).seats(),
    ;

    fn action_fold(&mut self) -> (r: Result<(), ActionError>)
        requires
            old(self).ready(),
        ensures
            final(self).ready(),
            final(self).applied(old(self), Action::Fold, r),
            final(self).seats() == old(self).seats(),
    ;

    fn action_check_call(&mut self) -> (r: Result<(), ActionError>)
        requires
            old(self).ready(),
        ensures
            final(self).ready(),
            final(self).applied(old(self), Action::CheckCall, r),
            final(self).seats() == old(self).seats(),
    ;

    fn action_bet_min(&mut self) -> (r: Result<(), ActionError>)
        requires
            old(self).ready(),
        ensures
            final(self).ready(),
            final(self).applied(old(self), Action::BetMin, r),
            final(self).seats() == old(self).seats(),
    ;

    fn action_bet(&mut self, amount: u64) -> (r: Result<(), ActionError>)
        requires
            old(self).ready(),
        ensures
            final(self).ready(),
            final(self).applied(old(self), Action::Bet(amount), r),
            final(self).seats() == old(self).seats(),
    ;

    fn action_raise_min(&mut self) -> (r: Result<(), ActionError>)
        requires
            old(self).ready(),
        ensures
            final(self).ready(),
            final(self).applied(old(self), Action::RaiseMin, r),
            final(self).seats() == old(self).seats(),
    ;

    fn action_raise_to(&mut self, amount: u64) -> (r: Result<(), ActionError>)
        requires
            old(self).ready(),
        ensures
            final(self).ready(),
            final(self).applied(old(self), Action::RaiseTo(amount), r),
            final(self).seats() == old(self).seats(),
    ;

    fn to_call(&self, seat: usize) -> u64
        requires
            self.ready(),
            seat < self.seats(),
    ;

    fn current_bet(&self) -> u64;

    fn min_raise(&self) -> u64;

    fn pot(&self) -> u64;

    fn hole_cards(&self, seat: usize) -> Option<HoleCards>;

    fn board(&self) -> &Board;

    fn stack(&self, seat: usize) -> u64
        requires
            self.ready(),
            seat < self.seats(),
    ;

    fn bet(&self, seat: usize) -> u64
        requires
            self.ready(),
            seat < self.seats(),
    ;

    fn current(&self) -> (r: usize)
        ensures
            r == self.to_act(),
            self.ready() ==> r < self.seats(),
    ;

    fn dealer(&self) -> usize;

    fn street(&self) -> (r: Street)
        ensures
            (r == Street::Showdown) == self.at_showdown(),
    ;

    fn num_players(&self) -> (r: usize)
        ensures
            r == self.seats(),
    ;
}

impl GameEngine for Game {
    open spec fn ready(&self) -> bool {
        self.wf()
    }

    open spec fn seats(&self) -> nat {
        self.players@.len()
    }

    open spec fn at_showdown(&self) -> bool {
        self.street == Street::Showdown
    }

    open spec fn to_act(&self) -> nat {
        self.current as nat
    }

    open spec fn applied(&self, before: &Self, action: Action, r: Result<(), ActionError>) -> bool {
        action_outcome(before, self, action, r)
    }

    fn new_hand(&mut self) {
        Game::new_hand(self);
    }

    fn action_fold(&mut self) -> (r: Result<(), ActionError>) {
        Game::action_fold(self)
    }

    fn action_check_call(&mut self) -> (r: Result<(), ActionError>) {
        Game::action_check_call(self)
    }

    fn action_bet_min(&mut self) -> (r: Result<(), ActionError>) {
        Game::action_bet_min(self)
    }

    fn action_bet(&mut self, amount: u64) -> (r: Result<(), ActionError>) {
        Game::action_bet(self, amount)
    }

    fn action_raise_min(&mut self) -> (r: Result<(), ActionError>) {
        Game::action_raise_min(self)
    }

    fn action_raise_to(&mut self, amount: u64) -> (r: Result<(), ActionError>) {
        Game::action_raise_to(self, amount)
    }

    fn to_call(&self, seat: usize) -> u64 {
        Game::to_call(self, seat)
    }

    fn current_bet(&self) -> u64 {
        self.current_bet
    }

    fn min_raise(&self) -> u64 {
        self.min_raise
    }

    fn pot(&self) -> u64 {
        self.pot
    }

    fn hole_cards(&self, seat: usize) -> Option<HoleCards> {
        Game::hole_cards(self, seat)
    }

    fn board(&self) -> &Board {
        &self.board
    }

    fn stack(&self, seat: usize) -> u64 {
        self.players[seat].stack
    }

    fn bet(&self, seat: usize) -> u64 {
        self.players[seat].bet
    }

    fn current(&self) -> (r: usize) {
        self.current
    }

    fn dealer(&self) -> usize {
        self.dealer
    }

    fn street(&self) -> (r: Street) {
        self.street
    }

    fn num_players(&self) -> (r: usize) {
        self.players.len()
    }
}

} // verus!
