//! Parameters and results of a search, and its stopping rules.
use vstd::prelude::*;

use std::time::Duration;

use crate::square::{Square, square_name};
use crate::text::string_push;

verus! {

/// A move of a piece from one square to another.
#[derive(Clone, Copy, Debug, PartialEq, Eq, Structural)]
pub struct Move {
    pub from: Square,
    pub to: Square,
}

/// The long algebraic text of a move: the name of the square it leaves, then of the square it
/// reaches, as in `e2e4`.
pub open spec fn move_text(m: Move) -> Seq<char> {
    square_name(m.from.spec_index()) + square_name(m.to.spec_index())
}

/// The texts of a list of moves, separated by single spaces.
pub open spec fn moves_text(moves: Seq<Move>) -> Seq<char>
    decreases moves.len(),
{
    if moves.len() == 0 {
        Seq::empty()
    } else if moves.len() == 1 {
        move_text(moves[0])
    } else {
        moves_text(moves.drop_last()) + seq![' '] + move_text(moves.last())
    }
}

impl Move {
    /// The move from `from` to `to`.
    pub fn new(from: Square, to: Square) -> (r: Move)
        ensures
            r.from == from,
            r.to == to,
    {
        Move { from, to }
    }

    /// The long algebraic text of the move, as in `e2e4`.
    pub fn to_string(&self) -> (r: String)
        ensures
            r@ == move_text(*self),
    {
        let mut r = self.from.to_string();
        let to = self.to.to_string();
        r.append(to.as_str());
        r
    }
}

/// The texts of the moves, separated by single spaces.
pub fn moves_to_string(moves: &[Move]) -> (r: String)
    ensures
        r@ == moves_text(moves@),
{
    let mut r = String::new();
    let mut k: usize = 0;
    while k < moves.len()
        invariant
            k <= moves@.len(),
            r@ == moves_text(moves@.take(k as int)),
        decreases moves@.len() - k,
    {
        assert(moves@.take(k + 1).drop_last() =~= moves@.take(k as int));
        if k > 0 {
            string_push(&mut r, ' ');
        }
        let text = moves[k].to_string();
        r.append(text.as_str());
        k = k + 1;
        assert(r@ =~= moves_text(moves@.take(k as int)));
    }
    assert(moves@.take(k as int) =~= moves@);
    r
}

/// What a search is asked to do: limits on its depth, its node count and its time, and the
/// other parameters of the UCI `go` command.
#[derive(Clone, Debug, PartialEq, Eq)]
pub struct SearchParams {
    pub search_moves: Option<Vec<Move>>,
    pub ponder: bool,
    pub white_time_msec: Option<u64>,
    pub black_time_msec: Option<u64>,
    pub white_inc_msec: Option<u64>,
    pub black_inc_msec: Option<u64>,
    pub moves_to_go: Option<u64>,
    pub max_depth: Option<u64>,
    pub max_nodes: Option<u64>,
    pub mate: Option<u64>,
    pub move_time_msec: Option<u64>,
    pub infinite: bool,
}

impl Default for SearchParams {
    /// No limit and no option set.
    fn default() -> (r: Self)
        ensures
            r.search_moves is None,
            !r.ponder,
            r.white_time_msec is None,
            r.black_time_msec is None,
            r.white_inc_msec is None,
            r.black_inc_msec is None,
            r.moves_to_go is None,
            r.max_depth is None,
            r.max_nodes is None,
            r.mate is None,
            r.move_time_msec is None,
            !r.infinite,
    {
        SearchParams {
            search_moves: None,
            ponder: false,
            white_time_msec: None,
            black_time_msec: None,
            white_inc_msec: None,
            black_inc_msec: None,
            moves_to_go: None,
            max_depth: None,
            max_nodes: None,
            mate: None,
            move_time_msec: None,
            infinite: false,
        }
    }
}

impl SearchParams {
    /// Whether the search must stop before it looks at another position: it has been told to
    /// stop, it has processed `max_nodes` positions, or `move_time_msec` milliseconds have
    /// passed since it started.
    pub fn limit_reached(&self, terminated: bool, positions_processed: u64, elapsed_msec: u128) -> (r:
        bool)
        requires
            !terminated ==> (self.max_nodes matches Some(n) ==> positions_processed <= n),
        ensures
            r == (terminated || (self.max_nodes matches Some(n) && positions_processed == n) || (
            self.move_time_msec matches Some(t) && elapsed_msec >= t)),
    {
        if terminated {
            return true;
        }
        if let Some(max_nodes) = self.max_nodes {
            if positions_processed == max_nodes {
                return true;
            }
        }
        if let Some(move_time_msec) = self.move_time_msec {
            if elapsed_msec >= move_time_msec as u128 {
                return true;
            }
        }
        false
    }

    /// Whether the positions reached by the moves from a position at depth `curr_depth` are
    /// leaves of the search, to be evaluated rather than searched: the next depth is
    /// `max_depth`, or is the number of moves `mate` asks a mate in.
    pub fn is_leaf_depth(&self, curr_depth: u64) -> (r: bool)
        ensures
            r == ((self.max_depth matches Some(d) && d == curr_depth + 1) || (
            self.mate matches Some(m) && m == curr_depth + 1)),
    {
        if let Some(max_depth) = self.max_depth {
            if max_depth > 0 && curr_depth == max_depth - 1 {
                return true;
            }
        }
        if let Some(mate) = self.mate {
            if mate > 0 && curr_depth == mate - 1 {
                return true;
            }
        }
        false
    }
}

/// What a search reports besides its move: how many positions it processed and how long it
/// took.
#[derive(Debug)]
pub struct SearchResultInfo {
    pub positions_processed: u64,
    pub time_elapsed: Duration,
}

} // verus!
