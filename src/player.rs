//! Players: what the turn loop needs of a participant, and a human player
//! with a name, an own board, a score, and the target it last aimed at.

use crate::Message;
use crate::board::{Board, BoardConfig, fleet_board};
use crate::geometry::Vec2;
use vstd::prelude::*;

verus! {

/// A participant in the game.
pub trait Player {
    /// The player's score.
    spec fn score(&self) -> u64;

    /// The player's own board.
    spec fn own_board(&self) -> Board;

    fn name(&self) -> &str;

    fn board(&self) -> (r: &Board)
        ensures
            *r == self.own_board(),
    ;

    fn points(&self) -> (r: u64)
        ensures
            r == self.score(),
    ;

    /// The coordinate this player shoots at on the enemy's board.
    fn input(&self, enemy: &Board) -> Vec2;

    fn add_points(&mut self, points: u64)
        requires
            old(self).score() + points <= u64::MAX,
        ensures
            final(self).score() == old(self).score() + points,
            final(self).own_board() == old(self).own_board(),
    ;

    /// What a shot at `point` strikes on this player's board.
    fn hit(&self, point: Vec2) -> Message;
}

pub struct HumanPlayer {
    name: String,
    board: Board,
    points: u64,
    target: Vec2,
}

impl HumanPlayer {
    pub closed spec fn spec_name(&self) -> Seq<char> {
        self.name@
    }

    pub closed spec fn spec_target(&self) -> Vec2 {
        self.target
    }

    /// A player with no points, aiming at the origin, and a freshly placed fleet.
    pub fn new(name: String, config: &BoardConfig) -> (r: HumanPlayer)
        ensures
            r.spec_name() == name@,
            r.score() == 0,
            r.spec_target() == (Vec2 { x: 0, y: 0 }),
            fleet_board(r.own_board(), *config),
    {
        let board = Board::new(config);
        HumanPlayer { name, board, points: 0, target: Vec2::new(0, 0) }
    }

    /// Sets the coordinate that the next shot goes to.
    pub fn aim(&mut self, target: Vec2)
        ensures
            final(self).spec_target() == target,
            final(self).spec_name() == old(self).spec_name(),
            final(self).score() == old(self).score(),
            final(self).own_board() == old(self).own_board(),
    {
        self.target = target;
    }
}

impl Player for HumanPlayer {
    closed spec fn score(&self) -> u64 {
        self.points
    }

    closed spec fn own_board(&self) -> Board {
        self.board
    }

    fn name(&self) -> (r: &str) {
        self.name.as_str()
    }

    fn board(&self) -> (r: &Board) {
        &self.board
    }

    fn points(&self) -> (r: u64) {
        self.points
    }

    /// The target set by the last `aim`.
    fn input(&self, enemy: &Board) -> (r: Vec2) {
        self.target
    }

    fn add_points(&mut self, points: u64) {
        self.points = self.points + points;
    }

    fn hit(&self, point: Vec2) -> (r: Message) {
        self.board.outcome_at(&point)
    }
}

} // verus!
