use vstd::prelude::*;

use crate::square::{
    Square,
    file_of,
    rank_of,
    offset,
    lemma_file_rank,
    lemma_offset_file_rank,
    lemma_offset_between,
    lemma_offset_compose,
};

verus! {

/// Whether bit `i` of `b` is set.
pub open spec fn bit(b: u64, i: u64) -> bool {
    (b >> i) & 1u64 == 1u64
}

proof fn lemma_bit_zero(i: u64)
    by (bit_vector)
    requires
        i < 64,
    ensures
        !bit(0u64, i),
{
}

proof fn lemma_bit_or_single(b: u64, t: u64, i: u64)
    by (bit_vector)
    requires
        t < 64,
        i < 64,
    ensures
        bit(b | (1u64 << t), i) == (bit(b, i) || i == t),
{
}

proof fn lemma_bit_and(a: u64, b: u64, i: u64)
    by (bit_vector)
    requires
        i < 64,
    ensures
        bit(a & b, i) == (bit(a, i) && bit(b, i)),
{
}

proof fn lemma_bit_or(a: u64, b: u64, i: u64)
    by (bit_vector)
    requires
        i < 64,
    ensures
        bit(a | b, i) == (bit(a, i) || bit(b, i)),
{
}

/// A set of squares, one bit per square index.
#[derive(Clone, Copy, Debug, PartialEq, Eq, Structural)]
pub struct BitBoard(pub u64);

impl View for BitBoard {
    type V = Set<int>;

    /// The indices of the squares in the set.
    open spec fn view(&self) -> Set<int> {
        Set::new(|i: int| 0 <= i < 64 && bit(self.0, i as u64))
    }
}

/// The indices of a list of squares, as a set.
pub open spec fn indices_of(squares: Seq<Square>) -> Set<int> {
    squares.map_values(|s: Square| s.spec_index()).to_set()
}

/// The indices of eight squares in a row are the run of eight indices from the first.
pub proof fn lemma_indices_of_run(squares: Seq<Square>, first: int)
    requires
        squares.map_values(|s: Square| s.spec_index()) == Seq::new(8, |k: int| first + k),
    ensures
        indices_of(squares) == Set::new(|i: int| first <= i < first + 8),
{
    let idx = squares.map_values(|s: Square| s.spec_index());
    assert forall|i: int| first <= i < first + 8 implies idx.contains(i) by {
        assert(idx[i - first] == i);
    }
    assert(indices_of(squares) =~= Set::new(|i: int| first <= i < first + 8));
}

/// A one-square step across the board.
#[derive(Clone, Copy, Debug, PartialEq, Eq, Structural)]
pub enum Direction {
    North,
    South,
    East,
    West,
}

/// The square reached from square index `i` by one step in direction `d`,
/// or `None` where the step leaves the board.
pub open spec fn step(i: int, d: Direction) -> Option<int> {
    match d {
        Direction::North => if rank_of(i) < 7 { Some(i + 8) } else { None },
        Direction::South => if rank_of(i) > 0 { Some(i - 8) } else { None },
        Direction::East => if file_of(i) < 7 { Some(i + 1) } else { None },
        Direction::West => if file_of(i) > 0 { Some(i - 1) } else { None },
    }
}

/// The square reached from square index `i` by the steps of `path`, taken in order,
/// or `None` where one of them leaves the board.
pub open spec fn walk(i: int, path: Seq<Direction>) -> Option<int>
    decreases path.len(),
{
    if path.len() == 0 {
        Some(i)
    } else {
        match walk(i, path.drop_last()) {
            Some(j) => step(j, path.last()),
            None => None,
        }
    }
}

/// The squares reached from square index `i` by the paths of `paths` that stay on the board.
pub open spec fn walk_targets(i: int, paths: Seq<Seq<Direction>>) -> Set<int>
    decreases paths.len(),
{
    if paths.len() == 0 {
        Set::empty()
    } else {
        let rest = walk_targets(i, paths.drop_last());
        match walk(i, paths.last()) {
            Some(t) => rest.insert(t),
            None => rest,
        }
    }
}

/// The paths of a list of paths, as sequences.
pub open spec fn paths_view(paths: Seq<Vec<Direction>>) -> Seq<Seq<Direction>> {
    paths.map_values(|p: Vec<Direction>| p@)
}

/// The file and rank offsets of one step in direction `d`.
pub open spec fn direction_offset(d: Direction) -> (int, int) {
    match d {
        Direction::North => (0, 1),
        Direction::South => (0, -1),
        Direction::East => (1, 0),
        Direction::West => (-1, 0),
    }
}

/// A step is the offset of its direction.
pub proof fn lemma_step_offset(i: int, d: Direction)
    requires
        0 <= i < 64,
    ensures
        step(i, d) == offset(i, direction_offset(d).0, direction_offset(d).1),
{
    lemma_file_rank(i);
}

/// A walk of one step.
pub proof fn lemma_walk1(i: int, d: Direction)
    ensures
        walk(i, seq![d]) == step(i, d),
{
    reveal_with_fuel(walk, 2);
    assert(seq![d].drop_last() =~= Seq::<Direction>::empty());
}

/// A walk of two steps.
pub proof fn lemma_walk2(i: int, d1: Direction, d2: Direction)
    ensures
        walk(i, seq![d1, d2]) == match step(i, d1) {
            Some(j) => step(j, d2),
            None => None,
        },
{
    lemma_walk1(i, d1);
    assert(seq![d1, d2].drop_last() =~= seq![d1]);
}

/// A walk of three steps.
pub proof fn lemma_walk3(i: int, d1: Direction, d2: Direction, d3: Direction)
    ensures
        walk(i, seq![d1, d2, d3]) == match walk(i, seq![d1, d2]) {
            Some(j) => step(j, d3),
            None => None,
        },
{
    assert(seq![d1, d2, d3].drop_last() =~= seq![d1, d2]);
}

/// A square is among the targets of a list of paths exactly when one of the paths leads to it.
pub proof fn lemma_walk_targets_contains(i: int, paths: Seq<Seq<Direction>>, t: int)
    ensures
        walk_targets(i, paths).contains(t) <==> exists|k: int|
            0 <= k < paths.len() && #[trigger] walk(i, paths[k]) == Some(t),
    decreases paths.len(),
{
    if paths.len() > 0 {
        let rest = paths.drop_last();
        lemma_walk_targets_contains(i, rest, t);
        if exists|k: int| 0 <= k < paths.len() && #[trigger] walk(i, paths[k]) == Some(t) {
            let k: int = choose|k: int| 0 <= k < paths.len() && #[trigger] walk(i, paths[k]) == Some(t);
            if k < paths.len() - 1 {
                assert(rest[k] == paths[k]);
            }
        }
        if exists|k: int| 0 <= k < rest.len() && #[trigger] walk(i, rest[k]) == Some(t) {
            let k: int = choose|k: int| 0 <= k < rest.len() && #[trigger] walk(i, rest[k]) == Some(t);
            assert(walk(i, paths[k]) == Some(t));
        }
    }
}

/// Whether two offsets along one axis point the same way (or one of them is zero).
pub open spec fn same_way(a: int, c: int) -> bool {
    (a >= 0 && c >= 0) || (a <= 0 && c <= 0)
}

/// A walk of two steps that go the same way along each axis is the sum of their offsets.
pub proof fn lemma_walk2_offset(i: int, d1: Direction, d2: Direction)
    requires
        0 <= i < 64,
        same_way(direction_offset(d1).0, direction_offset(d2).0),
        same_way(direction_offset(d1).1, direction_offset(d2).1),
    ensures
        walk(i, seq![d1, d2]) == offset(
            i,
            direction_offset(d1).0 + direction_offset(d2).0,
            direction_offset(d1).1 + direction_offset(d2).1,
        ),
{
    lemma_walk2(i, d1, d2);
    lemma_step_offset(i, d1);
    lemma_offset_file_rank(i, direction_offset(d1).0, direction_offset(d1).1);
    if let Some(j) = step(i, d1) {
        lemma_step_offset(j, d2);
    }
    lemma_offset_compose(
        i,
        direction_offset(d1).0,
        direction_offset(d1).1,
        direction_offset(d2).0,
        direction_offset(d2).1,
    );
}

/// A walk of three steps that go the same way along each axis is the sum of their offsets.
pub proof fn lemma_walk3_offset(i: int, d1: Direction, d2: Direction, d3: Direction)
    requires
        0 <= i < 64,
        same_way(direction_offset(d1).0, direction_offset(d2).0),
        same_way(direction_offset(d1).1, direction_offset(d2).1),
        same_way(direction_offset(d1).0 + direction_offset(d2).0, direction_offset(d3).0),
        same_way(direction_offset(d1).1 + direction_offset(d2).1, direction_offset(d3).1),
    ensures
        walk(i, seq![d1, d2, d3]) == offset(
            i,
            direction_offset(d1).0 + direction_offset(d2).0 + direction_offset(d3).0,
            direction_offset(d1).1 + direction_offset(d2).1 + direction_offset(d3).1,
        ),
{
    let a: int = direction_offset(d1).0 + direction_offset(d2).0;
    let b: int = direction_offset(d1).1 + direction_offset(d2).1;
    lemma_walk3(i, d1, d2, d3);
    lemma_walk2_offset(i, d1, d2);
    lemma_offset_file_rank(i, a, b);
    if let Some(j) = offset(i, a, b) {
        lemma_step_offset(j, d3);
    }
    lemma_offset_compose(i, a, b, direction_offset(d3).0, direction_offset(d3).1);
}

/// Where each path amounts to an offset, the targets are the squares at one of those offsets.
pub proof fn lemma_walk_targets_offsets(i: int, paths: Seq<Seq<Direction>>, offs: Seq<(int, int)>)
    requires
        0 <= i < 64,
        paths.len() == offs.len(),
        forall|k: int|
            0 <= k < paths.len() ==> #[trigger] walk(i, paths[k]) == offset(i, offs[k].0, offs[k].1),
    ensures
        walk_targets(i, paths) == Set::new(
            |j: int|
                0 <= j < 64 && offs.contains((file_of(j) - file_of(i), rank_of(j) - rank_of(i))),
        ),
{
    let target = Set::new(
        |j: int| 0 <= j < 64 && offs.contains((file_of(j) - file_of(i), rank_of(j) - rank_of(i))),
    );
    assert forall|j: int| #[trigger] walk_targets(i, paths).contains(j) == target.contains(j) by {
        lemma_walk_targets_contains(i, paths, j);
        let d = (file_of(j) - file_of(i), rank_of(j) - rank_of(i));
        if walk_targets(i, paths).contains(j) {
            let k: int = choose|k: int| 0 <= k < paths.len() && #[trigger] walk(i, paths[k]) == Some(j);
            lemma_offset_file_rank(i, offs[k].0, offs[k].1);
            assert(offs[k] == d);
        }
        if target.contains(j) {
            let k: int = choose|k: int| 0 <= k < offs.len() && offs[k] == d;
            lemma_offset_between(i, j);
            assert(walk(i, paths[k]) == Some(j));
        }
    }
    assert(walk_targets(i, paths) =~= target);
}

/// A step stays on the board.
pub proof fn lemma_step_on_board(i: int, d: Direction)
    requires
        0 <= i < 64,
    ensures
        step(i, d) matches Some(j) ==> 0 <= j < 64,
{
}

/// A walk stays on the board.
pub proof fn lemma_walk_on_board(i: int, path: Seq<Direction>)
    requires
        0 <= i < 64,
    ensures
        walk(i, path) matches Some(j) ==> 0 <= j < 64,
    decreases path.len(),
{
    if path.len() > 0 {
        lemma_walk_on_board(i, path.drop_last());
    }
}

fn exec_step(i: u8, d: Direction) -> (r: Option<u8>)
    requires
        i < 64,
    ensures
        match r {
            Some(j) => step(i as int, d) == Some(j as int) && j < 64,
            None => step(i as int, d) is None,
        },
{
    match d {
        Direction::North => if i / 8 < 7 { Some(i + 8) } else { None },
        Direction::South => if i / 8 > 0 { Some(i - 8) } else { None },
        Direction::East => if i % 8 < 7 { Some(i + 1) } else { None },
        Direction::West => if i % 8 > 0 { Some(i - 1) } else { None },
    }
}

fn exec_walk(i: u8, path: &Vec<Direction>) -> (r: Option<u8>)
    requires
        i < 64,
    ensures
        match r {
            Some(j) => walk(i as int, path@) == Some(j as int) && j < 64,
            None => walk(i as int, path@) is None,
        },
{
    let mut cur: Option<u8> = Some(i);
    let mut k: usize = 0;
    while k < path.len()
        invariant
            i < 64,
            k <= path.len(),
            match cur {
                Some(j) => walk(i as int, path@.take(k as int)) == Some(j as int) && j < 64,
                None => walk(i as int, path@.take(k as int)) is None,
            },
        decreases path.len() - k,
    {
        assert(path@.take(k + 1).drop_last() =~= path@.take(k as int));
        cur = match cur {
            Some(j) => exec_step(j, path[k]),
            None => None,
        };
        k = k + 1;
    }
    assert(path@.take(k as int) =~= path@);
    cur
}

impl BitBoard {
    /// The set of the bits of `self`, all of them below 64.
    pub proof fn lemma_view_bounded(self)
        ensures
            forall|i: int| #[trigger] self@.contains(i) ==> 0 <= i < 64,
    {
    }

    /// The empty set of squares.
    pub fn empty() -> (r: BitBoard)
        ensures
            r@ == Set::<int>::empty(),
    {
        let r = BitBoard(0);
        assert forall|i: int| !#[trigger] r@.contains(i) by {
            if 0 <= i < 64 {
                lemma_bit_zero(i as u64);
            }
        }
        assert(r@ =~= Set::<int>::empty());
        r
    }

    /// Adds the square with index `i` to the set.
    pub fn insert_index(&mut self, i: u8)
        requires
            i < 64,
        ensures
            final(self)@ == old(self)@.insert(i as int),
    {
        let ghost before = self.0;
        self.0 = self.0 | (1u64 << (i as u64));
        assert forall|j: int| #[trigger] self@.contains(j) == old(self)@.insert(i as int).contains(j) by {
            if 0 <= j < 64 {
                lemma_bit_or_single(before, i as u64, j as u64);
            }
        }
        assert(self@ =~= old(self)@.insert(i as int));
    }

    /// Adds a square to the set.
    pub fn insert(&mut self, square: Square)
        ensures
            final(self)@ == old(self)@.insert(square.spec_index()),
    {
        self.insert_index(square.index());
    }

    /// Whether the square is in the set.
    pub fn is_piece_at(&self, square: &Square) -> (r: bool)
        ensures
            r == self@.contains(square.spec_index()),
    {
        let i: u8 = square.index();
        (self.0 >> (i as u64)) & 1u64 == 1u64
    }

    /// The squares in both sets.
    pub fn intersection(&self, other: &BitBoard) -> (r: BitBoard)
        ensures
            r == BitBoard(self.0 & other.0),
            r@ == self@.intersect(other@),
    {
        let r = BitBoard(self.0 & other.0);
        assert forall|j: int| #[trigger] r@.contains(j) == self@.intersect(other@).contains(j) by {
            if 0 <= j < 64 {
                lemma_bit_and(self.0, other.0, j as u64);
            }
        }
        assert(r@ =~= self@.intersect(other@));
        r
    }

    /// The squares in either set.
    pub fn union(&self, other: &BitBoard) -> (r: BitBoard)
        ensures
            r@ == self@.union(other@),
    {
        let r = BitBoard(self.0 | other.0);
        assert forall|j: int| #[trigger] r@.contains(j) == self@.union(other@).contains(j) by {
            if 0 <= j < 64 {
                lemma_bit_or(self.0, other.0, j as u64);
            }
        }
        assert(r@ =~= self@.union(other@));
        r
    }

    /// The set of the given squares.
    pub fn from_squares(squares: &[Square]) -> (r: BitBoard)
        ensures
            forall|i: int| #[trigger] r@.contains(i)
                <==> exists|k: int| 0 <= k < squares@.len() && #[trigger] squares@[k].spec_index() == i,
            r@ == indices_of(squares@),
    {
        let mut r = BitBoard::empty();
        let mut k: usize = 0;
        while k < squares.len()
            invariant
                k <= squares@.len(),
                forall|i: int| #[trigger] r@.contains(i)
                    <==> exists|m: int| 0 <= m < k && #[trigger] squares@[m].spec_index() == i,
            decreases squares@.len() - k,
        {
            let ghost before = r@;
            r.insert(squares[k]);
            assert forall|i: int| #[trigger] r@.contains(i)
                <==> exists|m: int| 0 <= m < k + 1 && #[trigger] squares@[m].spec_index() == i by {
                if r@.contains(i) && i != squares@[k as int].spec_index() {
                    assert(before.contains(i));
                }
                if exists|m: int| 0 <= m < k + 1 && #[trigger] squares@[m].spec_index() == i {
                    let m: int = choose|m: int| 0 <= m < k + 1 && #[trigger] squares@[m].spec_index() == i;
                    if m < k {
                        assert(before.contains(i));
                    }
                }
            }
            k = k + 1;
        }
        let ghost idx = squares@.map_values(|s: Square| s.spec_index());
        assert forall|i: int| #[trigger] r@.contains(i) == indices_of(squares@).contains(i) by {
            if r@.contains(i) {
                let m: int = choose|m: int| 0 <= m < squares@.len() && #[trigger] squares@[m].spec_index() == i;
                assert(idx[m] == i);
            }
            if indices_of(squares@).contains(i) {
                let m: int = choose|m: int| 0 <= m < idx.len() && idx[m] == i;
                assert(squares@[m].spec_index() == i);
            }
        }
        assert(r@ =~= indices_of(squares@));
        r
    }

    /// The set of the squares reached from `square` by the paths of `paths` that stay on the board:
    /// each path is a list of one-square steps, taken in order.
    pub fn from_square_shifts(square: Square, paths: &Vec<Vec<Direction>>) -> (r: BitBoard)
        ensures
            r@ == walk_targets(square.spec_index(), paths_view(paths@)),
    {
        let i: u8 = square.index();
        let mut r = BitBoard::empty();
        let mut k: usize = 0;
        while k < paths.len()
            invariant
                i as int == square.spec_index(),
                i < 64,
                k <= paths.len(),
                r@ == walk_targets(i as int, paths_view(paths@.take(k as int))),
            decreases paths.len() - k,
        {
            assert(paths_view(paths@.take(k + 1)).drop_last() =~= paths_view(paths@.take(k as int)));
            assert(paths_view(paths@.take(k + 1)).last() == paths@[k as int]@);
            match exec_walk(i, &paths[k]) {
                Some(t) => r.insert_index(t),
                None => {},
            }
            k = k + 1;
        }
        assert(paths@.take(k as int) =~= paths@);
        r
    }
}

impl core::ops::BitAnd for BitBoard {
    type Output = BitBoard;

    /// The squares in both sets.
    fn bitand(self, rhs: BitBoard) -> (r: BitBoard)
        ensures
            r == BitBoard(self.0 & rhs.0),
            r@ == self@.intersect(rhs@),
    {
        self.intersection(&rhs)
    }
}

impl vstd::std_specs::ops::BitAndSpecImpl for BitBoard {
    open spec fn obeys_bitand_spec() -> bool {
        true
    }

    open spec fn bitand_req(self, rhs: BitBoard) -> bool {
        true
    }

    open spec fn bitand_spec(self, rhs: BitBoard) -> BitBoard {
        BitBoard(self.0 & rhs.0)
    }
}

} // verus!
