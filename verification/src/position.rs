use vstd::prelude::*;

use crate::bitboard::{BitBoard, lemma_indices_of_run};
use crate::square::{Square, file_of, rank_of, lemma_file_rank};
use crate::text::{spec_ascii_uppercase, char_to_ascii_uppercase, string_push};

verus! {

/// The side a piece belongs to, or that is to move.
#[derive(Clone, Copy, Debug, PartialEq, Eq, Structural)]
pub enum Side {
    White,
    Black,
}

/// A kind of chess piece.
#[derive(Clone, Copy, Debug, PartialEq, Eq, Structural)]
pub enum Piece {
    Pawn,
    Knight,
    Bishop,
    Rook,
    Queen,
    King,
}

/// The lower-case letter of a piece kind.
pub open spec fn spec_piece_char(p: Piece) -> char {
    match p {
        Piece::Pawn => 'p',
        Piece::Knight => 'n',
        Piece::Bishop => 'b',
        Piece::Rook => 'r',
        Piece::Queen => 'q',
        Piece::King => 'k',
    }
}

impl Piece {
    /// The lower-case letter of the piece kind.
    pub fn to_char(self) -> (c: char)
        ensures
            c == spec_piece_char(self),
    {
        match self {
            Piece::Pawn => 'p',
            Piece::Knight => 'n',
            Piece::Bishop => 'b',
            Piece::Rook => 'r',
            Piece::Queen => 'q',
            Piece::King => 'k',
        }
    }
}

impl Piece {
    /// The position of the piece kind in the order pawn, knight, bishop, rook, queen, king.
    pub open spec fn spec_index(self) -> int {
        match self {
            Piece::Pawn => 0,
            Piece::Knight => 1,
            Piece::Bishop => 2,
            Piece::Rook => 3,
            Piece::Queen => 4,
            Piece::King => 5,
        }
    }

    /// The piece kind at position `k` of the order pawn, knight, bishop, rook, queen, king.
    pub open spec fn spec_from_index(k: int) -> Piece {
        if k == 0 {
            Piece::Pawn
        } else if k == 1 {
            Piece::Knight
        } else if k == 2 {
            Piece::Bishop
        } else if k == 3 {
            Piece::Rook
        } else if k == 4 {
            Piece::Queen
        } else {
            Piece::King
        }
    }

    /// The piece kind at position `k` of the order pawn, knight, bishop, rook, queen, king.
    pub fn from_index(k: u8) -> (p: Piece)
        requires
            k < 6,
        ensures
            p == Piece::spec_from_index(k as int),
    {
        match k {
            0 => Piece::Pawn,
            1 => Piece::Knight,
            2 => Piece::Bishop,
            3 => Piece::Rook,
            4 => Piece::Queen,
            _ => Piece::King,
        }
    }
}

/// The white and the black squares of one kind of piece, or of all pieces.
pub struct Sides {
    pub white: BitBoard,
    pub black: BitBoard,
}

impl Sides {
    /// The squares of `side`.
    pub open spec fn spec_get(&self, side: Side) -> BitBoard {
        match side {
            Side::White => self.white,
            Side::Black => self.black,
        }
    }

    /// The squares of `side`.
    pub fn get(&self, side: Side) -> (r: &BitBoard)
        ensures
            *r == self.spec_get(side),
    {
        match side {
            Side::White => &self.white,
            Side::Black => &self.black,
        }
    }

    /// No square on either side.
    pub fn empty() -> (r: Self)
        ensures
            r.white@ == Set::<int>::empty(),
            r.black@ == Set::<int>::empty(),
    {
        Self { white: BitBoard::empty(), black: BitBoard::empty() }
    }

    /// Adds the square with index `i` to the squares of `side`.
    pub fn insert_index(&mut self, side: Side, i: u8)
        requires
            i < 64,
        ensures
            final(self).spec_get(side)@ == old(self).spec_get(side)@.insert(i as int),
            forall|t: Side| t != side ==> #[trigger] final(self).spec_get(t) == old(self).spec_get(t),
    {
        match side {
            Side::White => self.white.insert_index(i),
            Side::Black => self.black.insert_index(i),
        }
    }

    /// The squares of all pieces at the start of a game: the first two ranks are white,
    /// the last two black.
    pub fn start() -> (r: Self)
        ensures
            r.white@ == Set::new(|i: int| 0 <= i < 16),
            r.black@ == Set::new(|i: int| 48 <= i < 64),
    {
        let white_squares = [
            Square::A1, Square::B1, Square::C1, Square::D1, Square::E1, Square::F1, Square::G1,
            Square::H1, Square::A2, Square::B2, Square::C2, Square::D2, Square::E2, Square::F2,
            Square::G2, Square::H2,
        ];
        let black_squares = [
            Square::A7, Square::B7, Square::C7, Square::D7, Square::E7, Square::F7, Square::G7,
            Square::H7, Square::A8, Square::B8, Square::C8, Square::D8, Square::E8, Square::F8,
            Square::G8, Square::H8,
        ];
        let ws: &[Square] = &white_squares;
        let bs: &[Square] = &black_squares;
        assert forall|k: int| 0 <= k < 16 implies #[trigger] ws@[k].spec_index() == k
            && bs@[k].spec_index() == k + 48 by {
            assert(k == 0 || k == 1 || k == 2 || k == 3 || k == 4 || k == 5 || k == 6 || k == 7 || k == 8 || k == 9 || k == 10 || k == 11 || k == 12 || k == 13 || k == 14 || k == 15);
        }
        let r = Self { white: BitBoard::from_squares(ws), black: BitBoard::from_squares(bs) };
        assert forall|i: int| r.white@.contains(i) <==> 0 <= i < 16 by {
            if 0 <= i < 16 {
                assert(ws@[i].spec_index() == i);
            }
        }
        assert forall|i: int| r.black@.contains(i) <==> 48 <= i < 64 by {
            if 48 <= i < 64 {
                assert(bs@[i - 48].spec_index() == i);
            }
        }
        assert(r.white@ =~= Set::new(|i: int| 0 <= i < 16));
        assert(r.black@ =~= Set::new(|i: int| 48 <= i < 64));
        r
    }
}

/// The squares of each kind of piece.
pub struct Pieces {
    pub pawns: Sides,
    pub knights: Sides,
    pub bishops: Sides,
    pub rooks: Sides,
    pub queens: Sides,
    pub kings: Sides,
}

impl Pieces {
    /// The squares of the pieces of kind `piece`.
    pub open spec fn spec_get(&self, piece: Piece) -> Sides {
        match piece {
            Piece::Pawn => self.pawns,
            Piece::Knight => self.knights,
            Piece::Bishop => self.bishops,
            Piece::Rook => self.rooks,
            Piece::Queen => self.queens,
            Piece::King => self.kings,
        }
    }

    /// The squares of the pieces of kind `piece`.
    pub fn get(&self, piece: &Piece) -> (r: &Sides)
        ensures
            *r == self.spec_get(*piece),
    {
        match piece {
            Piece::Pawn => &self.pawns,
            Piece::Knight => &self.knights,
            Piece::Bishop => &self.bishops,
            Piece::Rook => &self.rooks,
            Piece::Queen => &self.queens,
            Piece::King => &self.kings,
        }
    }

    /// No piece anywhere.
    pub fn empty() -> (r: Self)
        ensures
            forall|p: Piece, s: Side| #[trigger] r.spec_get(p).spec_get(s)@ == Set::<int>::empty(),
    {
        Self {
            pawns: Sides::empty(),
            knights: Sides::empty(),
            bishops: Sides::empty(),
            rooks: Sides::empty(),
            queens: Sides::empty(),
            kings: Sides::empty(),
        }
    }

    /// Adds the square with index `i` to the squares of the pieces of kind `piece` of `side`.
    pub fn insert_index(&mut self, piece: Piece, side: Side, i: u8)
        requires
            i < 64,
        ensures
            forall|p: Piece, s: Side|
                #[trigger] final(self).spec_get(p).spec_get(s)@ == if p == piece && s == side {
                    old(self).spec_get(p).spec_get(s)@.insert(i as int)
                } else {
                    old(self).spec_get(p).spec_get(s)@
                },
    {
        match piece {
            Piece::Pawn => self.pawns.insert_index(side, i),
            Piece::Knight => self.knights.insert_index(side, i),
            Piece::Bishop => self.bishops.insert_index(side, i),
            Piece::Rook => self.rooks.insert_index(side, i),
            Piece::Queen => self.queens.insert_index(side, i),
            Piece::King => self.kings.insert_index(side, i),
        }
    }

    /// The pieces at the start of a game.
    pub fn start() -> (r: Self)
        ensures
            r.pawns.white@ == Set::new(|i: int| 8 <= i < 16),
            r.pawns.black@ == Set::new(|i: int| 48 <= i < 56),
            r.knights.white@ == set![1int, 6int],
            r.knights.black@ == set![57int, 62int],
            r.bishops.white@ == set![2int, 5int],
            r.bishops.black@ == set![58int, 61int],
            r.rooks.white@ == set![0int, 7int],
            r.rooks.black@ == set![56int, 63int],
            r.queens.white@ == set![3int],
            r.queens.black@ == set![59int],
            r.kings.white@ == set![4int],
            r.kings.black@ == set![60int],
    {
        let second_rank: &[Square] = &[Square::A2, Square::B2, Square::C2, Square::D2, Square::E2, Square::F2, Square::G2, Square::H2];
        let pawns_white = BitBoard::from_squares(second_rank);
        let seventh_rank: &[Square] = &[Square::A7, Square::B7, Square::C7, Square::D7, Square::E7, Square::F7, Square::G7, Square::H7];
        let pawns_black = BitBoard::from_squares(seventh_rank);
        let knights_white_squares: &[Square] = &[Square::B1, Square::G1];
        let knights_white = BitBoard::from_squares(knights_white_squares);
        let knights_black_squares: &[Square] = &[Square::B8, Square::G8];
        let knights_black = BitBoard::from_squares(knights_black_squares);
        let bishops_white_squares: &[Square] = &[Square::C1, Square::F1];
        let bishops_white = BitBoard::from_squares(bishops_white_squares);
        let bishops_black_squares: &[Square] = &[Square::C8, Square::F8];
        let bishops_black = BitBoard::from_squares(bishops_black_squares);
        let rooks_white_squares: &[Square] = &[Square::A1, Square::H1];
        let rooks_white = BitBoard::from_squares(rooks_white_squares);
        let rooks_black_squares: &[Square] = &[Square::A8, Square::H8];
        let rooks_black = BitBoard::from_squares(rooks_black_squares);
        let queens_white_squares: &[Square] = &[Square::D1];
        let queens_white = BitBoard::from_squares(queens_white_squares);
        let queens_black_squares: &[Square] = &[Square::D8];
        let queens_black = BitBoard::from_squares(queens_black_squares);
        let kings_white_squares: &[Square] = &[Square::E1];
        let kings_white = BitBoard::from_squares(kings_white_squares);
        let kings_black_squares: &[Square] = &[Square::E8];
        let kings_black = BitBoard::from_squares(kings_black_squares);
        let r = Self {
            pawns: Sides { white: pawns_white, black: pawns_black },
            knights: Sides { white: knights_white, black: knights_black },
            bishops: Sides { white: bishops_white, black: bishops_black },
            rooks: Sides { white: rooks_white, black: rooks_black },
            queens: Sides { white: queens_white, black: queens_black },
            kings: Sides { white: kings_white, black: kings_black },
        };
        proof {
            // the pawns stand on the second and the seventh rank
            assert(second_rank@.map_values(|s: Square| s.spec_index()) =~= Seq::new(8, |k: int| 8 + k));
            assert(seventh_rank@.map_values(|s: Square| s.spec_index()) =~= Seq::new(8, |k: int| 48 + k));
            lemma_indices_of_run(second_rank@, 8);
            lemma_indices_of_run(seventh_rank@, 48);
            assert(knights_white_squares@.map_values(|s: Square| s.spec_index()) =~= seq![1int, 6int]);
            assert(seq![1int, 6int].to_set() =~= set![1int, 6int]);
            assert(knights_black_squares@.map_values(|s: Square| s.spec_index()) =~= seq![57int, 62int]);
            assert(seq![57int, 62int].to_set() =~= set![57int, 62int]);
            assert(bishops_white_squares@.map_values(|s: Square| s.spec_index()) =~= seq![2int, 5int]);
            assert(seq![2int, 5int].to_set() =~= set![2int, 5int]);
            assert(bishops_black_squares@.map_values(|s: Square| s.spec_index()) =~= seq![58int, 61int]);
            assert(seq![58int, 61int].to_set() =~= set![58int, 61int]);
            assert(rooks_white_squares@.map_values(|s: Square| s.spec_index()) =~= seq![0int, 7int]);
            assert(seq![0int, 7int].to_set() =~= set![0int, 7int]);
            assert(rooks_black_squares@.map_values(|s: Square| s.spec_index()) =~= seq![56int, 63int]);
            assert(seq![56int, 63int].to_set() =~= set![56int, 63int]);
            assert(queens_white_squares@.map_values(|s: Square| s.spec_index()) =~= seq![3int]);
            assert(seq![3int].to_set() =~= set![3int]) by {
                assert(seq![3int][0] == 3);
            }
            assert(queens_black_squares@.map_values(|s: Square| s.spec_index()) =~= seq![59int]);
            assert(seq![59int].to_set() =~= set![59int]) by {
                assert(seq![59int][0] == 59);
            }
            assert(kings_white_squares@.map_values(|s: Square| s.spec_index()) =~= seq![4int]);
            assert(seq![4int].to_set() =~= set![4int]) by {
                assert(seq![4int][0] == 4);
            }
            assert(kings_black_squares@.map_values(|s: Square| s.spec_index()) =~= seq![60int]);
            assert(seq![60int].to_set() =~= set![60int]) by {
                assert(seq![60int][0] == 60);
            }
        }
        r
    }
}

/// Which castling moves each side may still make.
#[derive(Clone, Copy, Debug, PartialEq, Eq, Structural)]
pub struct CastlingRights {
    pub white_king_side: bool,
    pub white_queen_side: bool,
    pub black_king_side: bool,
    pub black_queen_side: bool,
}

impl CastlingRights {
    /// Every castling move is still allowed.
    pub fn start() -> (r: Self)
        ensures
            r.white_king_side && r.white_queen_side && r.black_king_side && r.black_queen_side,
    {
        Self {
            white_king_side: true,
            white_queen_side: true,
            black_king_side: true,
            black_queen_side: true,
        }
    }

    /// The castling rights with the given flags.
    pub fn new(
        white_king_side: bool,
        white_queen_side: bool,
        black_king_side: bool,
        black_queen_side: bool,
    ) -> (r: Self)
        ensures
            r.white_king_side == white_king_side,
            r.white_queen_side == white_queen_side,
            r.black_king_side == black_king_side,
            r.black_queen_side == black_queen_side,
    {
        Self { white_king_side, white_queen_side, black_king_side, black_queen_side }
    }
}

/// What a position holds besides the pieces.
#[derive(Clone, Copy, Debug, PartialEq, Eq, Structural)]
pub struct State {
    pub to_move: Side,
    pub half_move_counter: u8,
    pub en_passant_target: Option<Square>,
    pub castling_rights: CastlingRights,
}

impl State {
    /// The state at the start of a game.
    pub open spec fn spec_start() -> State {
        State {
            to_move: Side::White,
            half_move_counter: 0,
            en_passant_target: None,
            castling_rights: CastlingRights {
                white_king_side: true,
                white_queen_side: true,
                black_king_side: true,
                black_queen_side: true,
            },
        }
    }

    /// The state at the start of a game: white to move, no move made yet, no en passant
    /// target, all castling moves allowed.
    pub fn start() -> (r: Self)
        ensures
            r == State::spec_start(),
    {
        Self {
            to_move: Side::White,
            half_move_counter: 0,
            en_passant_target: None,
            castling_rights: CastlingRights::start(),
        }
    }
}

/// The piece kind on file `f` of the first and the last rank at the start of a game.
pub open spec fn back_rank_piece(f: int) -> Piece {
    if f == 0 || f == 7 {
        Piece::Rook
    } else if f == 1 || f == 6 {
        Piece::Knight
    } else if f == 2 || f == 5 {
        Piece::Bishop
    } else if f == 3 {
        Piece::Queen
    } else {
        Piece::King
    }
}

/// The piece on square index `i` at the start of a game.
pub open spec fn start_piece_at(i: int) -> Option<(Piece, Side)> {
    if rank_of(i) == 0 {
        Some((back_rank_piece(file_of(i)), Side::White))
    } else if rank_of(i) == 1 {
        Some((Piece::Pawn, Side::White))
    } else if rank_of(i) == 6 {
        Some((Piece::Pawn, Side::Black))
    } else if rank_of(i) == 7 {
        Some((back_rank_piece(file_of(i)), Side::Black))
    } else {
        None
    }
}

/// A position: the pieces on the board, by kind and by side, and the state of the game.
pub struct Position {
    pub state: State,
    pub sides: Sides,
    pub pieces: Pieces,
}

/// The mathematical model of a position: what stands on each of the 64 squares, by square
/// index, and the state of the game.
pub struct PositionView {
    pub board: Seq<Option<(Piece, Side)>>,
    pub state: State,
}

impl Position {
    /// The squares of the pieces of kind `p` of side `s`.
    pub open spec fn board_of(&self, p: Piece, s: Side) -> Set<int> {
        self.pieces.spec_get(p).spec_get(s)@
    }

    /// What the search of square index `i` finds, going through the kinds from position `k` on
    /// in the order pawn, knight, bishop, rook, queen, king, white before black.
    pub open spec fn piece_at_from(&self, i: int, k: int) -> Option<(Piece, Side)>
        decreases 6 - k,
    {
        if k >= 6 {
            None
        } else {
            let p = Piece::spec_from_index(k);
            if self.board_of(p, Side::White).contains(i) {
                Some((p, Side::White))
            } else if self.board_of(p, Side::Black).contains(i) {
                Some((p, Side::Black))
            } else {
                self.piece_at_from(i, k + 1)
            }
        }
    }

    /// The piece on square index `i`: the first kind, in the order pawn, knight, bishop, rook,
    /// queen, king, whose squares hold `i`, white before black.
    pub open spec fn spec_piece_at(&self, i: int) -> Option<(Piece, Side)> {
        self.piece_at_from(i, 0)
    }

    /// The bitboards agree: no square holds two pieces, and the squares of each side are
    /// those of its pieces.
    pub open spec fn wf(&self) -> bool {
        &&& forall|i: int, p: Piece, s: Side|
            #[trigger] self.board_of(p, s).contains(i) ==> self.spec_piece_at(i) == Some((p, s))
        &&& forall|i: int, s: Side|
            0 <= i < 64 ==> (#[trigger] self.sides.spec_get(s)@.contains(i) <==> (
            self.spec_piece_at(i) matches Some((_, t)) && t == s))
    }
}

impl Position {
    proof fn lemma_piece_at_from_exact(&self, i: int, c: Option<(Piece, Side)>, k: int)
        requires
            0 <= k <= 6,
            forall|p: Piece, s: Side| #[trigger] self.board_of(p, s).contains(i) <==> c == Some((p, s)),
        ensures
            self.piece_at_from(i, k) == if (c matches Some((p, _)) && p.spec_index() >= k) {
                c
            } else {
                None
            },
        decreases 6 - k,
    {
        if let Some((q, _)) = c {
            assert(0 <= q.spec_index() < 6);
            assert(Piece::spec_from_index(q.spec_index()) == q);
        }
        if k < 6 {
            self.lemma_piece_at_from_exact(i, c, k + 1);
            let p = Piece::spec_from_index(k);
            assert(p.spec_index() == k);
            if let Some((q, _)) = c {
                assert(Piece::spec_from_index(q.spec_index()) == q);
            }
            assert(self.board_of(p, Side::White).contains(i) <==> c == Some((p, Side::White)));
            assert(self.board_of(p, Side::Black).contains(i) <==> c == Some((p, Side::Black)));
            let w = self.board_of(p, Side::White).contains(i);
            let b = self.board_of(p, Side::Black).contains(i);
            assert(self.piece_at_from(i, k) == if w {
                Some((p, Side::White))
            } else if b {
                Some((p, Side::Black))
            } else {
                self.piece_at_from(i, k + 1)
            });
            match c {
                None => {
                    assert(!w && !b);
                    assert(self.piece_at_from(i, k) == c);
                },
                Some((q, t)) => {
                    if q == p {
                        assert(self.piece_at_from(i, k) == c);
                    } else if q.spec_index() > k {
                        assert(!w && !b);
                        assert(self.piece_at_from(i, k + 1) == c);
                        assert(self.piece_at_from(i, k) == c);
                    } else {
                        assert(q.spec_index() < k);
                        assert(self.piece_at_from(i, k) == None::<(Piece, Side)>);
                    }
                },
            }
        }
    }

    /// Where exactly one kind and side holds square index `i` (or none does), the piece on it
    /// is that one (or none).
    pub proof fn lemma_piece_at_exact(&self, i: int, c: Option<(Piece, Side)>)
        requires
            forall|p: Piece, s: Side| #[trigger] self.board_of(p, s).contains(i) <==> c == Some((p, s)),
        ensures
            self.spec_piece_at(i) == c,
    {
        self.lemma_piece_at_from_exact(i, c, 0);
    }
}

impl View for Position {
    type V = PositionView;

    open spec fn view(&self) -> PositionView {
        PositionView { board: Seq::new(64, |i: int| self.spec_piece_at(i)), state: self.state }
    }
}

/// The board at the start of a game.
pub open spec fn start_board() -> Seq<Option<(Piece, Side)>> {
    Seq::new(64, |i: int| start_piece_at(i))
}

/// The character that shows what stands on a square: the letter of the piece, upper case for
/// white and lower case for black, or `.` for an empty square.
pub open spec fn square_char(c: Option<(Piece, Side)>) -> char {
    match c {
        Some((p, Side::White)) => spec_ascii_uppercase(spec_piece_char(p)),
        Some((p, Side::Black)) => spec_piece_char(p),
        None => '.',
    }
}

/// The characters that show the first `n` squares of a board, by square index, with a line
/// break after each full rank but the last.
pub open spec fn board_chars(board: Seq<Option<(Piece, Side)>>, n: int) -> Seq<char>
    decreases n,
{
    if n <= 0 {
        Seq::empty()
    } else {
        let line = board_chars(board, n - 1).push(square_char(board[n - 1]));
        if n % 8 == 0 && n != 64 {
            line.push('\n')
        } else {
            line
        }
    }
}

/// The text that shows a board: eight lines of eight characters, rank 1 first.
pub open spec fn board_text(board: Seq<Option<(Piece, Side)>>) -> Seq<char> {
    board_chars(board, 64)
}

/// The first `n` squares of a board take `n` characters and a line break after each full rank
/// but the last; square `i` stands at position `i + i / 8`, and the break after rank `r` at
/// position `9 * r + 8`.
proof fn lemma_board_chars(board: Seq<Option<(Piece, Side)>>, n: int)
    requires
        0 <= n <= 64,
    ensures
        board_chars(board, n).len() == n + (if n == 64 { 7 } else { n / 8 }),
        forall|i: int| 0 <= i < n ==> #[trigger] board_chars(board, n)[i + i / 8] == square_char(board[i]),
        forall|r: int| 0 <= r < 7 && 8 * (r + 1) <= n ==> #[trigger] board_chars(board, n)[9 * r + 8] == '\n',
    decreases n,
{
    if n > 0 {
        lemma_board_chars(board, n - 1);
        let prev = board_chars(board, n - 1);
        let line = prev.push(square_char(board[n - 1]));
        assert forall|i: int| 0 <= i < n implies #[trigger] board_chars(board, n)[i + i / 8] == square_char(board[i]) by {
            if i < n - 1 {
                assert(line[i + i / 8] == prev[i + i / 8]);
            }
        }
        assert forall|r: int| 0 <= r < 7 && 8 * (r + 1) <= n implies #[trigger] board_chars(board, n)[9 * r + 8] == '\n' by {
            if 8 * (r + 1) <= n - 1 {
                assert(line[9 * r + 8] == prev[9 * r + 8]);
            }
        }
    }
}

/// The text of a board has eight lines of eight characters, rank 1 first and file a first in
/// each line: 71 characters, the one of square `i` at position `i + i / 8` (the character of
/// its piece, or `.`), and a line break at position `9 * r + 8` after each rank `r` but the
/// last.
pub proof fn lemma_board_text_layout(board: Seq<Option<(Piece, Side)>>)
    ensures
        board_text(board).len() == 71,
        forall|i: int| 0 <= i < 64 ==> #[trigger] board_text(board)[i + i / 8] == square_char(board[i]),
        forall|r: int| 0 <= r < 7 ==> #[trigger] board_text(board)[9 * r + 8] == '\n',
{
    lemma_board_chars(board, 64);
}

impl Position {
    /// The position at the start of a game.
    pub fn start() -> (r: Self)
        ensures
            r.wf(),
            r@.board == start_board(),
            r@.state == State::spec_start(),
    {
        let r = Self { state: State::start(), sides: Sides::start(), pieces: Pieces::start() };
        proof {
            assert forall|i: int, p: Piece, s: Side| #[trigger] r.board_of(p, s).contains(i) <==> (0
                <= i < 64 && start_piece_at(i) == Some((p, s))) by {
                if 0 <= i < 64 {
                    lemma_file_rank(i);
                }
            }
            assert forall|i: int| 0 <= i < 64 implies #[trigger] r.spec_piece_at(i) == start_piece_at(i) by {
                reveal_with_fuel(Position::piece_at_from, 7);
                lemma_file_rank(i);
                assert(r.board_of(Piece::Pawn, Side::White).contains(i) == (start_piece_at(i) == Some((Piece::Pawn, Side::White))));
            }
            assert(r@.board =~= start_board());
        }
        r
    }

    /// The piece on `square`, if any, with its side.
    pub fn is_piece_at(&self, square: &Square) -> (r: Option<(Piece, Side)>)
        ensures
            r == self.spec_piece_at(square.spec_index()),
    {
        let mut k: u8 = 0;
        while k < 6
            invariant
                k <= 6,
                self.spec_piece_at(square.spec_index()) == self.piece_at_from(square.spec_index(), k as int),
            decreases 6 - k,
        {
            let piece = Piece::from_index(k);
            let sides = self.pieces.get(&piece);
            if sides.white.is_piece_at(square) {
                return Some((piece, Side::White));
            } else if sides.black.is_piece_at(square) {
                return Some((piece, Side::Black));
            }
            k = k + 1;
        }
        None
    }

    /// The board as text: eight lines of eight characters, rank 1 first and file a first in
    /// each line; a piece shows as its letter, upper case for white and lower case for black,
    /// and an empty square as `.`.
    pub fn to_string(&self) -> (r: String)
        ensures
            r@ == board_text(self@.board),
    {
        let mut board_str = String::new();
        let mut idx: u8 = 0;
        while idx < 64
            invariant
                idx <= 64,
                board_str@ == board_chars(self@.board, idx as int),
            decreases 64 - idx,
        {
            let sq = Square::from_index(idx);
            let maybe_piece_side = self.is_piece_at(&sq);
            let ch = if let Some((p, s)) = maybe_piece_side {
                if s == Side::White {
                    char_to_ascii_uppercase(p.to_char())
                } else {
                    p.to_char()
                }
            } else {
                '.'
            };
            string_push(&mut board_str, ch);
            if (idx + 1) % 8 == 0 && (idx + 1) != 64 {
                string_push(&mut board_str, '\n');
            }
            idx = idx + 1;
        }
        board_str
    }
}

impl Position {
    /// The position with the given board, by square index, and state.
    pub fn from_board(board: &Vec<Option<(Piece, Side)>>, state: State) -> (r: Position)
        requires
            board@.len() == 64,
        ensures
            r.wf(),
            r@ == (PositionView { board: board@, state }),
    {
        let mut r = Position { state, sides: Sides::empty(), pieces: Pieces::empty() };
        let mut idx: u8 = 0;
        while idx < 64
            invariant
                idx <= 64,
                board@.len() == 64,
                r.state == state,
                forall|j: int, p: Piece, s: Side|
                    #[trigger] r.board_of(p, s).contains(j) <==> (0 <= j < idx && board@[j] == Some(
                        (p, s),
                    )),
                forall|j: int, s: Side|
                    #[trigger] r.sides.spec_get(s)@.contains(j) <==> (0 <= j < idx && (
                    board@[j] matches Some((_, t)) && t == s)),
            decreases 64 - idx,
        {
            let ghost before = r;
            match board[idx as usize] {
                Some((p, s)) => {
                    r.pieces.insert_index(p, s, idx);
                    r.sides.insert_index(s, idx);
                },
                None => {},
            }
            proof {
                assert forall|j: int, p: Piece, s: Side| #[trigger] r.board_of(p, s).contains(j) <==> (0
                    <= j < idx + 1 && board@[j] == Some((p, s))) by {
                    assert(before.board_of(p, s).contains(j) <==> (0 <= j < idx && board@[j] == Some(
                        (p, s),
                    )));
                }
                assert forall|j: int, s: Side| #[trigger] r.sides.spec_get(s)@.contains(j) <==> (0 <= j
                    < idx + 1 && (board@[j] matches Some((_, t)) && t == s)) by {
                    assert(before.sides.spec_get(s)@.contains(j) <==> (0 <= j < idx && (
                    board@[j] matches Some((_, t)) && t == s)));
                }
            }
            idx = idx + 1;
        }
        proof {
            assert forall|j: int| 0 <= j < 64 implies #[trigger] r.spec_piece_at(j) == board@[j] by {
                r.lemma_piece_at_exact(j, board@[j]);
            }
            assert(r@.board =~= board@);
        }
        r
    }
}

/// The other side.
pub open spec fn opponent(side: Side) -> Side {
    match side {
        Side::White => Side::Black,
        Side::Black => Side::White,
    }
}

impl Position {
    /// In a well-formed position the squares of each side agree with the pieces: the square of
    /// a piece belongs to its side's squares and not to the other side's, and an empty square
    /// to neither.
    pub proof fn lemma_sides_agree_with_pieces(&self, i: int)
        requires
            self.wf(),
            0 <= i < 64,
        ensures
            match self.spec_piece_at(i) {
                Some((_, s)) => self.sides.spec_get(s)@.contains(i) && !self.sides.spec_get(
                    opponent(s),
                )@.contains(i),
                None => !self.sides.white@.contains(i) && !self.sides.black@.contains(i),
            },
    {
        assert(self.sides.spec_get(Side::White)@.contains(i) <==> (self.spec_piece_at(i) matches Some((_, t)) && t == Side::White));
        assert(self.sides.spec_get(Side::Black)@.contains(i) <==> (self.spec_piece_at(i) matches Some((_, t)) && t == Side::Black));
    }
}

} // verus!
