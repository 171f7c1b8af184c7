use vstd::prelude::*;

use crate::bitboard::{
    BitBoard,
    Direction,
    walk,
    walk_targets,
    paths_view,
    lemma_walk1,
    lemma_step_offset,
    lemma_walk2_offset,
    lemma_walk3_offset,
    lemma_walk_targets_offsets,
};
use crate::position::{Piece, Side};
use crate::square::{
    Square,
    file_of,
    rank_of,
    offset,
    lemma_file_rank,
    lemma_offset_file_rank,
};
use vstd::set_lib::lemma_len_subset;

verus! {

/// The squares a king on square index `i` attacks: the up to eight neighbouring squares.
pub open spec fn king_attacks(i: int) -> Set<int> {
    Set::new(
        |j: int|
            0 <= j < 64 && j != i && -1 <= file_of(j) - file_of(i) <= 1 && -1 <= rank_of(j)
                - rank_of(i) <= 1,
    )
}

/// Whether squares `i` and `j` are a knight's jump apart: two squares along one axis and
/// one along the other.
pub open spec fn knight_jump(i: int, j: int) -> bool {
    let df = file_of(j) - file_of(i);
    let dr = rank_of(j) - rank_of(i);
    ||| (df == 1 || df == -1) && (dr == 2 || dr == -2)
    ||| (df == 2 || df == -2) && (dr == 1 || dr == -1)
}

/// The squares a knight on square index `i` attacks.
pub open spec fn knight_attacks(i: int) -> Set<int> {
    Set::new(|j: int| 0 <= j < 64 && knight_jump(i, j))
}

/// The direction in which pawns of `side` advance: one rank up for white, one down for black.
pub open spec fn forward(side: Side) -> int {
    match side {
        Side::White => 1,
        Side::Black => -1,
    }
}

/// Whether square index `i` lies on the first or the last rank, where the move tables
/// hold no pawn moves.
pub open spec fn on_edge_rank(i: int) -> bool {
    rank_of(i) == 0 || rank_of(i) == 7
}

/// The squares a pawn of `side` on square index `i` can be pushed to: one square forward,
/// and two from its starting rank (the second rank of its side). None from the edge ranks.
pub open spec fn pawn_pushes(side: Side, i: int) -> Set<int> {
    if on_edge_rank(i) {
        Set::empty()
    } else {
        match side {
            Side::White => if rank_of(i) == 1 {
                set![i + 8, i + 16]
            } else {
                set![i + 8]
            },
            Side::Black => if rank_of(i) == 6 {
                set![i - 8, i - 16]
            } else {
                set![i - 8]
            },
        }
    }
}

/// The squares a pawn of `side` on square index `i` attacks: the diagonal neighbours one
/// rank forward. None from the edge ranks.
pub open spec fn pawn_attacks(side: Side, i: int) -> Set<int> {
    if on_edge_rank(i) {
        Set::empty()
    } else {
        Set::new(
            |j: int|
                0 <= j < 64 && rank_of(j) == rank_of(i) + forward(side) && (file_of(j) - file_of(i)
                    == 1 || file_of(j) - file_of(i) == -1),
        )
    }
}

/// A table of one set of squares per square, indexed by square index.
pub struct SquareToMoveDatabase(pub [BitBoard; 64]);

impl SquareToMoveDatabase {
    /// The set of squares stored for square index `i`.
    pub open spec fn spec_get(&self, i: int) -> Set<int> {
        self.0@[i]@
    }

    /// The set of squares stored for `square`.
    pub fn get_bitboard(&self, square: Square) -> (r: BitBoard)
        ensures
            r@ == self.spec_get(square.spec_index()),
    {
        self.0[square.index() as usize]
    }
}

/// One table per side.
pub struct ColoredSquareToMoveDatabase {
    pub white: SquareToMoveDatabase,
    pub black: SquareToMoveDatabase,
}

impl ColoredSquareToMoveDatabase {
    /// The table of `side`.
    pub open spec fn spec_square_database(&self, side: Side) -> &SquareToMoveDatabase {
        match side {
            Side::White => &self.white,
            Side::Black => &self.black,
        }
    }

    /// The table of `side`.
    pub fn get_square_database(&self, side: Side) -> (r: &SquareToMoveDatabase)
        ensures
            r == self.spec_square_database(side),
    {
        match side {
            Side::White => &self.white,
            Side::Black => &self.black,
        }
    }
}

/// The move tables of the pieces that jump: pawns, knights and kings.
pub struct LeapingPiecesMoveGen {
    pub pawn_pushes: ColoredSquareToMoveDatabase,
    pub pawn_atks: ColoredSquareToMoveDatabase,
    pub knight_atks: SquareToMoveDatabase,
    pub king_atks: SquareToMoveDatabase,
}

impl LeapingPiecesMoveGen {
    /// Every table holds, for every square, the squares that its rule gives.
    pub open spec fn wf(&self) -> bool {
        &&& forall|i: int| 0 <= i < 64 ==> #[trigger] self.knight_atks.spec_get(i) == knight_attacks(i)
        &&& forall|i: int| 0 <= i < 64 ==> #[trigger] self.king_atks.spec_get(i) == king_attacks(i)
        &&& forall|i: int|
            0 <= i < 64 ==> #[trigger] self.pawn_pushes.white.spec_get(i) == pawn_pushes(Side::White, i)
        &&& forall|i: int|
            0 <= i < 64 ==> #[trigger] self.pawn_pushes.black.spec_get(i) == pawn_pushes(Side::Black, i)
        &&& forall|i: int|
            0 <= i < 64 ==> #[trigger] self.pawn_atks.white.spec_get(i) == pawn_attacks(Side::White, i)
        &&& forall|i: int|
            0 <= i < 64 ==> #[trigger] self.pawn_atks.black.spec_get(i) == pawn_attacks(Side::Black, i)
    }

    /// Builds all the tables.
    pub fn new() -> (r: Self)
        ensures
            r.wf(),
    {
        Self {
            pawn_pushes: calc_pawn_pushes(),
            pawn_atks: calc_pawn_atks(),
            knight_atks: calc_knight_atks(),
            king_atks: calc_king_atks(),
        }
    }

    /// The table entry of a piece that jumps, standing on `square` and belonging to `side`.
    /// For a pawn it is the set of squares that are both a push target and an attack target.
    pub fn gen_moves(&self, piece_type: Piece, square: Square, side: Side) -> (r: BitBoard)
        requires
            piece_type == Piece::Pawn || piece_type == Piece::Knight || piece_type == Piece::King,
        ensures
            r@ == match piece_type {
                Piece::Pawn => self.pawn_pushes.spec_square_database(side).spec_get(
                    square.spec_index(),
                ).intersect(self.pawn_atks.spec_square_database(side).spec_get(square.spec_index())),
                Piece::Knight => self.knight_atks.spec_get(square.spec_index()),
                _ => self.king_atks.spec_get(square.spec_index()),
            },
    {
        match piece_type {
            Piece::Pawn => self.pawn_pushes.get_square_database(side).get_bitboard(square)
                & self.pawn_atks.get_square_database(side).get_bitboard(square),
            Piece::Knight => self.knight_atks.get_bitboard(square),
            _ => self.king_atks.get_bitboard(square),
        }
    }
}

/// A king on `i` attacks `j` exactly when a king on `j` attacks `i`.
pub proof fn lemma_king_attacks_symmetric(gen: &LeapingPiecesMoveGen, i: int, j: int)
    requires
        gen.wf(),
        0 <= i < 64,
        0 <= j < 64,
    ensures
        gen.king_atks.spec_get(i).contains(j) == gen.king_atks.spec_get(j).contains(i),
{
    assert(gen.king_atks.spec_get(i) == king_attacks(i));
    assert(gen.king_atks.spec_get(j) == king_attacks(j));
}

/// A knight on `i` attacks `j` exactly when a knight on `j` attacks `i`.
pub proof fn lemma_knight_attacks_symmetric(gen: &LeapingPiecesMoveGen, i: int, j: int)
    requires
        gen.wf(),
        0 <= i < 64,
        0 <= j < 64,
    ensures
        gen.knight_atks.spec_get(i).contains(j) == gen.knight_atks.spec_get(j).contains(i),
{
    assert(gen.knight_atks.spec_get(i) == knight_attacks(i));
    assert(gen.knight_atks.spec_get(j) == knight_attacks(j));
}

/// Between two squares off the edge ranks, a white pawn on `i` attacks `j` exactly when a
/// black pawn on `j` attacks `i`.
pub proof fn lemma_pawn_attacks_mirror(gen: &LeapingPiecesMoveGen, i: int, j: int)
    requires
        gen.wf(),
        0 <= i < 64,
        0 <= j < 64,
        !on_edge_rank(i),
        !on_edge_rank(j),
    ensures
        gen.pawn_atks.white.spec_get(i).contains(j) == gen.pawn_atks.black.spec_get(j).contains(i),
{
    assert(gen.pawn_atks.white.spec_get(i) == pawn_attacks(Side::White, i));
    assert(gen.pawn_atks.black.spec_get(j) == pawn_attacks(Side::Black, j));
}

/// A pawn's table entry in `gen_moves` is always empty: the push targets lie straight ahead
/// and the attack targets diagonally ahead, so no square is in both.
pub proof fn lemma_pawn_entry_empty(gen: &LeapingPiecesMoveGen, side: Side, i: int)
    requires
        gen.wf(),
        0 <= i < 64,
    ensures
        gen.pawn_pushes.spec_square_database(side).spec_get(i).intersect(
            gen.pawn_atks.spec_square_database(side).spec_get(i),
        ) == Set::<int>::empty(),
{
    assert(gen.pawn_pushes.spec_square_database(side).spec_get(i) == pawn_pushes(side, i));
    assert(gen.pawn_atks.spec_square_database(side).spec_get(i) == pawn_attacks(side, i));
    lemma_file_rank(i);
    assert(pawn_pushes(side, i).intersect(pawn_attacks(side, i)) =~= Set::<int>::empty()) by {
        assert forall|j: int| pawn_pushes(side, i).contains(j) implies !pawn_attacks(side, i).contains(j) by {
            lemma_file_rank(j);
        }
    }
}

/// A king never attacks its own square and attacks exactly the squares that attack it back.
pub proof fn lemma_king_attacks_irreflexive_symmetric(i: int, j: int)
    requires
        0 <= i < 64,
        0 <= j < 64,
    ensures
        !king_attacks(i).contains(i),
        king_attacks(i).contains(j) == king_attacks(j).contains(i),
{
}

/// A knight never attacks its own square and attacks exactly the squares that attack it back.
pub proof fn lemma_knight_attacks_irreflexive_symmetric(i: int, j: int)
    requires
        0 <= i < 64,
        0 <= j < 64,
    ensures
        !knight_attacks(i).contains(i),
        knight_attacks(i).contains(j) == knight_attacks(j).contains(i),
{
}

/// A king attacks 3 squares from a corner, 5 from another square of the edge and 8 from
/// anywhere else: one less than the product of the numbers of files and of ranks within one
/// step.
pub proof fn lemma_king_attacks_count(i: int)
    requires
        0 <= i < 64,
    ensures
        king_attacks(i).finite(),
        king_attacks(i).len() == (if file_of(i) == 0 || file_of(i) == 7 {
            2int
        } else {
            3int
        }) * (if rank_of(i) == 0 || rank_of(i) == 7 {
            2int
        } else {
            3int
        }) - 1,
{
    lemma_file_rank(i);
    if file_of(i) == 0 && rank_of(i) == 0 {
        assert(king_attacks(i) =~= set![i + 1, i + 8, i + 9]);
        assert(king_attacks(i).len() == 3);
    } else if file_of(i) == 0 && rank_of(i) == 7 {
        assert(king_attacks(i) =~= set![i - 8, i - 7, i + 1]);
        assert(king_attacks(i).len() == 3);
    } else if file_of(i) == 0 && 0 < rank_of(i) < 7 {
        assert(king_attacks(i) =~= set![i - 8, i - 7, i + 1, i + 8, i + 9]);
        assert(king_attacks(i).len() == 5);
    } else if file_of(i) == 7 && rank_of(i) == 0 {
        assert(king_attacks(i) =~= set![i - 1, i + 7, i + 8]);
        assert(king_attacks(i).len() == 3);
    } else if file_of(i) == 7 && rank_of(i) == 7 {
        assert(king_attacks(i) =~= set![i - 9, i - 8, i - 1]);
        assert(king_attacks(i).len() == 3);
    } else if file_of(i) == 7 && 0 < rank_of(i) < 7 {
        assert(king_attacks(i) =~= set![i - 9, i - 8, i - 1, i + 7, i + 8]);
        assert(king_attacks(i).len() == 5);
    } else if 0 < file_of(i) < 7 && rank_of(i) == 0 {
        assert(king_attacks(i) =~= set![i - 1, i + 1, i + 7, i + 8, i + 9]);
        assert(king_attacks(i).len() == 5);
    } else if 0 < file_of(i) < 7 && rank_of(i) == 7 {
        assert(king_attacks(i) =~= set![i - 9, i - 8, i - 7, i - 1, i + 1]);
        assert(king_attacks(i).len() == 5);
    } else if 0 < file_of(i) < 7 && 0 < rank_of(i) < 7 {
        assert(king_attacks(i) =~= set![i - 9, i - 8, i - 7, i - 1, i + 1, i + 7, i + 8, i + 9]);
        assert(king_attacks(i).len() == 8);
    }
}

/// A knight attacks between 2 and 8 squares.
pub proof fn lemma_knight_attacks_count(i: int)
    requires
        0 <= i < 64,
    ensures
        knight_attacks(i).finite(),
        2 <= knight_attacks(i).len() <= 8,
{
    lemma_file_rank(i);
    let candidates = set![i + 17, i + 15, i - 15, i - 17, i + 10, i + 6, i - 6, i - 10];
    assert(candidates.len() <= 8);
    assert forall|j: int| knight_attacks(i).contains(j) implies candidates.contains(j) by {
        lemma_file_rank(j);
    }
    lemma_len_subset(knight_attacks(i), candidates);
    // two squares on the board, a knight's jump away in the direction of the centre
    let sx: int = if file_of(i) < 4 { 1 } else { -1 };
    let sy: int = if rank_of(i) < 4 { 1 } else { -1 };
    let a = i + sx + 16 * sy;
    let b = i + 2 * sx + 8 * sy;
    lemma_offset_file_rank(i, sx, 2 * sy);
    lemma_offset_file_rank(i, 2 * sx, sy);
    assert(knight_attacks(i).contains(a));
    assert(knight_attacks(i).contains(b));
    assert(set![a, b].subset_of(knight_attacks(i)));
    lemma_len_subset(set![a, b], knight_attacks(i));
}

/// Off the edge ranks a pawn attacks the two squares diagonally ahead of it, one only from
/// the a or the h file: for white `i + 7` (unless on the a file) and `i + 9` (unless on the
/// h file), for black `i - 9` and `i - 7`.
pub proof fn lemma_pawn_attacks_diagonals(side: Side, i: int, j: int)
    requires
        0 <= i < 64,
        !on_edge_rank(i),
    ensures
        pawn_attacks(side, i).contains(j) == match side {
            Side::White => (file_of(i) > 0 && j == i + 7) || (file_of(i) < 7 && j == i + 9),
            Side::Black => (file_of(i) > 0 && j == i - 9) || (file_of(i) < 7 && j == i - 7),
        },
{
    lemma_file_rank(i);
    if 0 <= j < 64 {
        lemma_file_rank(j);
    }
}

/// In the tables, a king or knight square never holds itself; a king entry holds 3 squares in
/// a corner, 5 on another edge square and 8 elsewhere, a knight entry between 2 and 8.
pub proof fn lemma_table_counts(gen: &LeapingPiecesMoveGen, i: int)
    requires
        gen.wf(),
        0 <= i < 64,
    ensures
        !gen.king_atks.spec_get(i).contains(i),
        !gen.knight_atks.spec_get(i).contains(i),
        gen.king_atks.spec_get(i).finite(),
        gen.king_atks.spec_get(i).len() == (if file_of(i) == 0 || file_of(i) == 7 {
            2int
        } else {
            3int
        }) * (if rank_of(i) == 0 || rank_of(i) == 7 {
            2int
        } else {
            3int
        }) - 1,
        gen.knight_atks.spec_get(i).finite(),
        2 <= gen.knight_atks.spec_get(i).len() <= 8,
{
    assert(gen.king_atks.spec_get(i) == king_attacks(i));
    assert(gen.knight_atks.spec_get(i) == knight_attacks(i));
    lemma_king_attacks_count(i);
    lemma_knight_attacks_count(i);
    lemma_king_attacks_irreflexive_symmetric(i, i);
    lemma_knight_attacks_irreflexive_symmetric(i, i);
}

/// The paths of a king: one step in each of the eight directions.
pub open spec fn king_paths() -> Seq<Seq<Direction>> {
    seq![
        seq![Direction::North],
        seq![Direction::East],
        seq![Direction::West],
        seq![Direction::South],
        seq![Direction::North, Direction::East],
        seq![Direction::North, Direction::West],
        seq![Direction::South, Direction::East],
        seq![Direction::South, Direction::West],
    ]
}

/// The file and rank offsets of the king paths, in the same order.
pub open spec fn king_offsets() -> Seq<(int, int)> {
    seq![(0, 1), (1, 0), (-1, 0), (0, -1), (1, 1), (-1, 1), (1, -1), (-1, -1)]
}

proof fn lemma_king_paths(i: int)
    requires
        0 <= i < 64,
    ensures
        walk_targets(i, king_paths()) == king_attacks(i),
{
    let ps = king_paths();
    let offs = king_offsets();
    lemma_walk1(i, Direction::North);
    lemma_walk1(i, Direction::East);
    lemma_walk1(i, Direction::West);
    lemma_walk1(i, Direction::South);
    lemma_step_offset(i, Direction::North);
    lemma_step_offset(i, Direction::East);
    lemma_step_offset(i, Direction::West);
    lemma_step_offset(i, Direction::South);
    lemma_walk2_offset(i, Direction::North, Direction::East);
    lemma_walk2_offset(i, Direction::North, Direction::West);
    lemma_walk2_offset(i, Direction::South, Direction::East);
    lemma_walk2_offset(i, Direction::South, Direction::West);
    assert forall|k: int| 0 <= k < ps.len() implies #[trigger] walk(i, ps[k]) == offset(
        i,
        offs[k].0,
        offs[k].1,
    ) by {
        assert(k == 0 || k == 1 || k == 2 || k == 3 || k == 4 || k == 5 || k == 6 || k == 7);
    }
    lemma_walk_targets_offsets(i, ps, offs);
    assert forall|j: int| 0 <= j < 64 implies #[trigger] king_attacks(i).contains(j) == offs.contains(
        (file_of(j) - file_of(i), rank_of(j) - rank_of(i)),
    ) by {
        lemma_file_rank(i);
        lemma_file_rank(j);
        let d = (file_of(j) - file_of(i), rank_of(j) - rank_of(i));
        if offs.contains(d) {
            let k: int = choose|k: int| 0 <= k < offs.len() && offs[k] == d;
            assert(k == 0 || k == 1 || k == 2 || k == 3 || k == 4 || k == 5 || k == 6 || k == 7);
        }
        if king_attacks(i).contains(j) {
            if d == (0int, 1int) { assert(offs[0] == d); }
            else if d == (1int, 0int) { assert(offs[1] == d); }
            else if d == (-1int, 0int) { assert(offs[2] == d); }
            else if d == (0int, -1int) { assert(offs[3] == d); }
            else if d == (1int, 1int) { assert(offs[4] == d); }
            else if d == (-1int, 1int) { assert(offs[5] == d); }
            else if d == (1int, -1int) { assert(offs[6] == d); }
            else { assert(offs[7] == d); }
        }
    }
    assert(walk_targets(i, king_paths()) =~= king_attacks(i));
}

pub fn calc_king_atks() -> (r: SquareToMoveDatabase)
    ensures
        forall|i: int| 0 <= i < 64 ==> #[trigger] r.spec_get(i) == king_attacks(i),
{
    let dirs: Vec<Vec<Direction>> = vec![
        vec![Direction::North],
        vec![Direction::East],
        vec![Direction::West],
        vec![Direction::South],
        vec![Direction::North, Direction::East],
        vec![Direction::North, Direction::West],
        vec![Direction::South, Direction::East],
        vec![Direction::South, Direction::West],
    ];
    assert(paths_view(dirs@) =~~= king_paths());
    let mut bbs = [BitBoard(0);64];
    let mut k: u8 = 0;
    while k < 64
        invariant
            k <= 64,
            paths_view(dirs@) == king_paths(),
            forall|i: int| 0 <= i < k ==> #[trigger] bbs@[i]@ == king_attacks(i),
        decreases 64 - k,
    {
        let bb = BitBoard::from_square_shifts(Square::from_index(k), &dirs);
        proof {
            lemma_king_paths(k as int);
        }
        bbs[k as usize] = bb;
        k = k + 1;
    }
    SquareToMoveDatabase(bbs)
}

/// The paths of a knight: two steps along one axis, then one along the other.
pub open spec fn knight_paths() -> Seq<Seq<Direction>> {
    seq![
        seq![Direction::North, Direction::North, Direction::East],
        seq![Direction::North, Direction::North, Direction::West],
        seq![Direction::South, Direction::South, Direction::East],
        seq![Direction::South, Direction::South, Direction::West],
        seq![Direction::North, Direction::East, Direction::East],
        seq![Direction::North, Direction::West, Direction::West],
        seq![Direction::South, Direction::East, Direction::East],
        seq![Direction::South, Direction::West, Direction::West],
    ]
}

/// The file and rank offsets of the knight paths, in the same order.
pub open spec fn knight_offsets() -> Seq<(int, int)> {
    seq![(1, 2), (-1, 2), (1, -2), (-1, -2), (2, 1), (-2, 1), (2, -1), (-2, -1)]
}

proof fn lemma_knight_paths(i: int)
    requires
        0 <= i < 64,
    ensures
        walk_targets(i, knight_paths()) == knight_attacks(i),
{
    let ps = knight_paths();
    let offs = knight_offsets();
    lemma_walk3_offset(i, Direction::North, Direction::North, Direction::East);
    lemma_walk3_offset(i, Direction::North, Direction::North, Direction::West);
    lemma_walk3_offset(i, Direction::South, Direction::South, Direction::East);
    lemma_walk3_offset(i, Direction::South, Direction::South, Direction::West);
    lemma_walk3_offset(i, Direction::North, Direction::East, Direction::East);
    lemma_walk3_offset(i, Direction::North, Direction::West, Direction::West);
    lemma_walk3_offset(i, Direction::South, Direction::East, Direction::East);
    lemma_walk3_offset(i, Direction::South, Direction::West, Direction::West);
    assert forall|k: int| 0 <= k < ps.len() implies #[trigger] walk(i, ps[k]) == offset(
        i,
        offs[k].0,
        offs[k].1,
    ) by {
        assert(k == 0 || k == 1 || k == 2 || k == 3 || k == 4 || k == 5 || k == 6 || k == 7);
    }
    lemma_walk_targets_offsets(i, ps, offs);
    assert forall|j: int| 0 <= j < 64 implies #[trigger] knight_attacks(i).contains(j) == offs.contains(
        (file_of(j) - file_of(i), rank_of(j) - rank_of(i)),
    ) by {
        let d = (file_of(j) - file_of(i), rank_of(j) - rank_of(i));
        if offs.contains(d) {
            let k: int = choose|k: int| 0 <= k < offs.len() && offs[k] == d;
            assert(k == 0 || k == 1 || k == 2 || k == 3 || k == 4 || k == 5 || k == 6 || k == 7);
        }
        if knight_attacks(i).contains(j) {
            if d == (1int, 2int) { assert(offs[0] == d); }
            else if d == (-1int, 2int) { assert(offs[1] == d); }
            else if d == (1int, -2int) { assert(offs[2] == d); }
            else if d == (-1int, -2int) { assert(offs[3] == d); }
            else if d == (2int, 1int) { assert(offs[4] == d); }
            else if d == (-2int, 1int) { assert(offs[5] == d); }
            else if d == (2int, -1int) { assert(offs[6] == d); }
            else { assert(offs[7] == d); }
        }
    }
    assert(walk_targets(i, knight_paths()) =~= knight_attacks(i));
}

pub fn calc_knight_atks() -> (r: SquareToMoveDatabase)
    ensures
        forall|i: int| 0 <= i < 64 ==> #[trigger] r.spec_get(i) == knight_attacks(i),
{
    let dirs: Vec<Vec<Direction>> = vec![
        vec![Direction::North, Direction::North, Direction::East],
        vec![Direction::North, Direction::North, Direction::West],
        vec![Direction::South, Direction::South, Direction::East],
        vec![Direction::South, Direction::South, Direction::West],
        vec![Direction::North, Direction::East, Direction::East],
        vec![Direction::North, Direction::West, Direction::West],
        vec![Direction::South, Direction::East, Direction::East],
        vec![Direction::South, Direction::West, Direction::West],
    ];
    assert(paths_view(dirs@) =~~= knight_paths());
    let mut bbs = [BitBoard(0);64];
    let mut k: u8 = 0;
    while k < 64
        invariant
            k <= 64,
            paths_view(dirs@) == knight_paths(),
            forall|i: int| 0 <= i < k ==> #[trigger] bbs@[i]@ == knight_attacks(i),
        decreases 64 - k,
    {
        let bb = BitBoard::from_square_shifts(Square::from_index(k), &dirs);
        proof {
            lemma_knight_paths(k as int);
        }
        bbs[k as usize] = bb;
        k = k + 1;
    }
    SquareToMoveDatabase(bbs)
}

/// The push paths of a pawn of `side` that stands on a rank between the edges:
/// one step forward, and a second one from its starting rank.
pub open spec fn pawn_push_paths(side: Side, i: int) -> Seq<Seq<Direction>> {
    match side {
        Side::White => if rank_of(i) == 1 {
            seq![seq![Direction::North], seq![Direction::North, Direction::North]]
        } else {
            seq![seq![Direction::North]]
        },
        Side::Black => if rank_of(i) == 6 {
            seq![seq![Direction::South], seq![Direction::South, Direction::South]]
        } else {
            seq![seq![Direction::South]]
        },
    }
}

/// The attack paths of a pawn of `side`: a step forward, then one to either side.
pub open spec fn pawn_attack_paths(side: Side) -> Seq<Seq<Direction>> {
    match side {
        Side::White => seq![
            seq![Direction::North, Direction::East],
            seq![Direction::North, Direction::West],
        ],
        Side::Black => seq![
            seq![Direction::South, Direction::East],
            seq![Direction::South, Direction::West],
        ],
    }
}

proof fn lemma_pawn_push_paths(side: Side, i: int)
    requires
        0 <= i < 64,
        !on_edge_rank(i),
    ensures
        walk_targets(i, pawn_push_paths(side, i)) == pawn_pushes(side, i),
{
    reveal_with_fuel(walk_targets, 3);
    reveal_with_fuel(walk, 3);
    assert(walk_targets(i, pawn_push_paths(side, i)) =~= pawn_pushes(side, i));
}

proof fn lemma_pawn_attack_paths(side: Side, i: int)
    requires
        0 <= i < 64,
        !on_edge_rank(i),
    ensures
        walk_targets(i, pawn_attack_paths(side)) == pawn_attacks(side, i),
{
    reveal_with_fuel(walk_targets, 3);
    reveal_with_fuel(walk, 3);
    assert(walk_targets(i, pawn_attack_paths(side)) =~= pawn_attacks(side, i));
}

pub fn calc_pawn_pushes() -> (r: ColoredSquareToMoveDatabase)
    ensures
        forall|i: int| 0 <= i < 64 ==> #[trigger] r.white.spec_get(i) == pawn_pushes(Side::White, i),
        forall|i: int| 0 <= i < 64 ==> #[trigger] r.black.spec_get(i) == pawn_pushes(Side::Black, i),
{
    let white_single_push_dirs: Vec<Vec<Direction>> = vec![vec![Direction::North]];
    let white_double_push_dirs: Vec<Vec<Direction>> = vec![
        vec![Direction::North],
        vec![Direction::North, Direction::North],
    ];
    let black_single_push_dirs: Vec<Vec<Direction>> = vec![vec![Direction::South]];
    let black_double_push_dirs: Vec<Vec<Direction>> = vec![
        vec![Direction::South],
        vec![Direction::South, Direction::South],
    ];
    let edge_push_dirs: Vec<Vec<Direction>> = vec![];
    assert(paths_view(white_single_push_dirs@) =~~= seq![seq![Direction::North]]);
    assert(paths_view(white_double_push_dirs@) =~~= seq![seq![Direction::North], seq![Direction::North, Direction::North]]);
    assert(paths_view(black_single_push_dirs@) =~~= seq![seq![Direction::South]]);
    assert(paths_view(black_double_push_dirs@) =~~= seq![seq![Direction::South], seq![Direction::South, Direction::South]]);
    assert(paths_view(edge_push_dirs@) =~= Seq::<Seq<Direction>>::empty());

    let mut white_bbs = [BitBoard(0);64];
    let mut black_bbs = [BitBoard(0);64];
    let mut k: u8 = 0;
    while k < 64
        invariant
            k <= 64,
            paths_view(white_single_push_dirs@) == seq![seq![Direction::North]],
            paths_view(white_double_push_dirs@) == seq![seq![Direction::North], seq![Direction::North, Direction::North]],
            paths_view(black_single_push_dirs@) == seq![seq![Direction::South]],
            paths_view(black_double_push_dirs@) == seq![seq![Direction::South], seq![Direction::South, Direction::South]],
            paths_view(edge_push_dirs@) == Seq::<Seq<Direction>>::empty(),
            forall|i: int| 0 <= i < k ==> #[trigger] white_bbs@[i]@ == pawn_pushes(Side::White, i),
            forall|i: int| 0 <= i < k ==> #[trigger] black_bbs@[i]@ == pawn_pushes(Side::Black, i),
        decreases 64 - k,
    {
        let sq = Square::from_index(k);
        let white_bb = if k >= 56 || k <= 7 {
            BitBoard::from_square_shifts(sq, &edge_push_dirs)
        } else if k <= 15 {
            BitBoard::from_square_shifts(sq, &white_double_push_dirs)
        } else {
            BitBoard::from_square_shifts(sq, &white_single_push_dirs)
        };
        let black_bb = if k >= 56 || k <= 7 {
            BitBoard::from_square_shifts(sq, &edge_push_dirs)
        } else if k >= 48 {
            BitBoard::from_square_shifts(sq, &black_double_push_dirs)
        } else {
            BitBoard::from_square_shifts(sq, &black_single_push_dirs)
        };
        proof {
            if k >= 56 || k <= 7 {
                assert(walk_targets(k as int, Seq::<Seq<Direction>>::empty()) == Set::<int>::empty());
            } else {
                lemma_pawn_push_paths(Side::White, k as int);
                lemma_pawn_push_paths(Side::Black, k as int);
            }
        }
        white_bbs[k as usize] = white_bb;
        black_bbs[k as usize] = black_bb;
        k = k + 1;
    }
    ColoredSquareToMoveDatabase {
        white: SquareToMoveDatabase(white_bbs),
        black: SquareToMoveDatabase(black_bbs),
    }
}

pub fn calc_pawn_atks() -> (r: ColoredSquareToMoveDatabase)
    ensures
        forall|i: int| 0 <= i < 64 ==> #[trigger] r.white.spec_get(i) == pawn_attacks(Side::White, i),
        forall|i: int| 0 <= i < 64 ==> #[trigger] r.black.spec_get(i) == pawn_attacks(Side::Black, i),
{
    let white_atk_dirs: Vec<Vec<Direction>> = vec![
        vec![Direction::North, Direction::East],
        vec![Direction::North, Direction::West],
    ];
    let black_atk_dirs: Vec<Vec<Direction>> = vec![
        vec![Direction::South, Direction::East],
        vec![Direction::South, Direction::West],
    ];
    let edge_push_dirs: Vec<Vec<Direction>> = vec![];
    assert(paths_view(white_atk_dirs@) =~~= pawn_attack_paths(Side::White));
    assert(paths_view(black_atk_dirs@) =~~= pawn_attack_paths(Side::Black));
    assert(paths_view(edge_push_dirs@) =~= Seq::<Seq<Direction>>::empty());

    let mut white_bbs = [BitBoard(0);64];
    let mut black_bbs = [BitBoard(0);64];
    let mut k: u8 = 0;
    while k < 64
        invariant
            k <= 64,
            paths_view(white_atk_dirs@) == pawn_attack_paths(Side::White),
            paths_view(black_atk_dirs@) == pawn_attack_paths(Side::Black),
            paths_view(edge_push_dirs@) == Seq::<Seq<Direction>>::empty(),
            forall|i: int| 0 <= i < k ==> #[trigger] white_bbs@[i]@ == pawn_attacks(Side::White, i),
            forall|i: int| 0 <= i < k ==> #[trigger] black_bbs@[i]@ == pawn_attacks(Side::Black, i),
        decreases 64 - k,
    {
        let sq = Square::from_index(k);
        let white_bb = if k >= 56 || k <= 7 {
            BitBoard::from_square_shifts(sq, &edge_push_dirs)
        } else {
            BitBoard::from_square_shifts(sq, &white_atk_dirs)
        };
        let black_bb = if k >= 56 || k <= 7 {
            BitBoard::from_square_shifts(sq, &edge_push_dirs)
        } else {
            BitBoard::from_square_shifts(sq, &black_atk_dirs)
        };
        proof {
            if k >= 56 || k <= 7 {
                assert(walk_targets(k as int, Seq::<Seq<Direction>>::empty()) == Set::<int>::empty());
            } else {
                lemma_pawn_attack_paths(Side::White, k as int);
                lemma_pawn_attack_paths(Side::Black, k as int);
            }
        }
        white_bbs[k as usize] = white_bb;
        black_bbs[k as usize] = black_bb;
        k = k + 1;
    }
    ColoredSquareToMoveDatabase {
        white: SquareToMoveDatabase(white_bbs),
        black: SquareToMoveDatabase(black_bbs),
    }
}

} // verus!
