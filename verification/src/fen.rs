//! Reading a position from Forsyth-Edwards Notation (FEN).
use vstd::prelude::*;

use crate::position::{CastlingRights, Piece, Position, PositionView, Side, State};
use crate::square::{Square, file_of, rank_of, lemma_file_rank};

verus! {

/// Why a text is not a position in Forsyth-Edwards Notation.
#[derive(Clone, Copy, Debug, PartialEq, Eq, Structural)]
pub enum FenError {
    /// The text does not have six fields separated by single spaces.
    FieldCount,
    /// The piece placement is not eight ranks of eight squares separated by `/`.
    Placement,
    /// The side to move is neither `w` nor `b`.
    SideToMove,
    /// The castling field is neither `-` nor a non-empty word of the letters `KQkq`.
    Castling,
    /// The en passant field is neither `-` nor the name of a square.
    EnPassant,
    /// The half-move clock is not a decimal number up to 255.
    HalfMoveClock,
    /// The full-move number is not a decimal number.
    FullMoveNumber,
}

/// The pieces of text between the occurrences of `sep`, in order; as many as there are
/// occurrences plus one, some of them possibly empty.
pub open spec fn split(s: Seq<char>, sep: char) -> Seq<Seq<char>>
    decreases s.len(),
{
    if s.len() == 0 {
        seq![Seq::empty()]
    } else {
        let parts = split(s.drop_last(), sep);
        if s.last() == sep {
            parts.push(Seq::empty())
        } else {
            parts.update(parts.len() - 1, parts.last().push(s.last()))
        }
    }
}

/// A split has at least one piece.
pub proof fn lemma_split_len(s: Seq<char>, sep: char)
    ensures
        split(s, sep).len() >= 1,
    decreases s.len(),
{
    if s.len() > 0 {
        lemma_split_len(s.drop_last(), sep);
    }
}

/// The piece, and its side, that a letter of the piece placement stands for: upper case for
/// white, lower case for black.
pub open spec fn piece_of_char(c: char) -> Option<(Piece, Side)> {
    match c {
        'P' => Some((Piece::Pawn, Side::White)),
        'N' => Some((Piece::Knight, Side::White)),
        'B' => Some((Piece::Bishop, Side::White)),
        'R' => Some((Piece::Rook, Side::White)),
        'Q' => Some((Piece::Queen, Side::White)),
        'K' => Some((Piece::King, Side::White)),
        'p' => Some((Piece::Pawn, Side::Black)),
        'n' => Some((Piece::Knight, Side::Black)),
        'b' => Some((Piece::Bishop, Side::Black)),
        'r' => Some((Piece::Rook, Side::Black)),
        'q' => Some((Piece::Queen, Side::Black)),
        'k' => Some((Piece::King, Side::Black)),
        _ => None,
    }
}

/// The number of empty squares that a digit `1..8` of the piece placement stands for.
pub open spec fn empty_run(c: char) -> Option<nat> {
    match c {
        '1' => Some(1nat),
        '2' => Some(2nat),
        '3' => Some(3nat),
        '4' => Some(4nat),
        '5' => Some(5nat),
        '6' => Some(6nat),
        '7' => Some(7nat),
        '8' => Some(8nat),
        _ => None,
    }
}

/// The squares that the text of one rank describes, file a first: a letter is a piece, a digit
/// `1..8` that many empty squares; `None` where another character occurs.
pub open spec fn parse_rank(s: Seq<char>) -> Option<Seq<Option<(Piece, Side)>>>
    decreases s.len(),
{
    if s.len() == 0 {
        Some(Seq::empty())
    } else {
        match parse_rank(s.drop_last()) {
            None => None,
            Some(prev) => match empty_run(s.last()) {
                Some(n) => Some(prev + Seq::new(n, |k: int| None)),
                None => match piece_of_char(s.last()) {
                    Some(ps) => Some(prev.push(Some(ps))),
                    None => None,
                },
            },
        }
    }
}

/// Whether the text of a rank describes exactly eight squares.
pub open spec fn valid_rank(s: Seq<char>) -> bool {
    parse_rank(s) matches Some(squares) && squares.len() == 8
}

/// The board that a piece placement describes, by square index: eight ranks separated by
/// `/`, rank 8 first.
pub open spec fn parse_placement(field: Seq<char>) -> Option<Seq<Option<(Piece, Side)>>> {
    let ranks = split(field, '/');
    if ranks.len() == 8 && forall|k: int| 0 <= k < 8 ==> #[trigger] valid_rank(ranks[k]) {
        Some(
            Seq::new(
                64,
                |i: int| parse_rank(ranks[7 - rank_of(i)]).unwrap()[file_of(i)],
            ),
        )
    } else {
        None
    }
}

/// The side to move: `w` for white, `b` for black.
pub open spec fn parse_side(field: Seq<char>) -> Option<Side> {
    if field == seq!['w'] {
        Some(Side::White)
    } else if field == seq!['b'] {
        Some(Side::Black)
    } else {
        None
    }
}

/// Whether `c` is one of the castling letters `KQkq`.
pub open spec fn is_castling_char(c: char) -> bool {
    c == 'K' || c == 'Q' || c == 'k' || c == 'q'
}

/// The castling rights: `-` for none, else the letters `K`, `Q`, `k`, `q` for king and queen
/// side castling of white and black, each right present where its letter occurs.
pub open spec fn parse_castling(field: Seq<char>) -> Option<CastlingRights> {
    if field == seq!['-'] {
        Some(
            CastlingRights {
                white_king_side: false,
                white_queen_side: false,
                black_king_side: false,
                black_queen_side: false,
            },
        )
    } else if field.len() > 0 && forall|k: int| 0 <= k < field.len() ==> #[trigger] is_castling_char(field[k]) {
        Some(
            CastlingRights {
                white_king_side: field.contains('K'),
                white_queen_side: field.contains('Q'),
                black_king_side: field.contains('k'),
                black_queen_side: field.contains('q'),
            },
        )
    } else {
        None
    }
}

/// The file (counted from 0) that a letter `a..h` names.
pub open spec fn file_of_char(c: char) -> Option<int> {
    match c {
        'a' => Some(0int),
        'b' => Some(1int),
        'c' => Some(2int),
        'd' => Some(3int),
        'e' => Some(4int),
        'f' => Some(5int),
        'g' => Some(6int),
        'h' => Some(7int),
        _ => None,
    }
}

/// The rank (counted from 0) that a digit `1..8` names.
pub open spec fn rank_of_char(c: char) -> Option<int> {
    match c {
        '1' => Some(0int),
        '2' => Some(1int),
        '3' => Some(2int),
        '4' => Some(3int),
        '5' => Some(4int),
        '6' => Some(5int),
        '7' => Some(6int),
        '8' => Some(7int),
        _ => None,
    }
}

/// The en passant target: `-` for none, else the name of a square, such as `e3`.
pub open spec fn parse_en_passant(field: Seq<char>) -> Option<Option<Square>> {
    if field == seq!['-'] {
        Some(None)
    } else if field.len() == 2 && file_of_char(field[0]) is Some && rank_of_char(field[1]) is Some {
        Some(
            Some(
                Square::spec_from_index(
                    8 * rank_of_char(field[1]).unwrap() + file_of_char(field[0]).unwrap(),
                ),
            ),
        )
    } else {
        None
    }
}

/// The value of a decimal digit.
pub open spec fn digit_value(c: char) -> Option<int> {
    match c {
        '0' => Some(0int),
        '1' => Some(1int),
        '2' => Some(2int),
        '3' => Some(3int),
        '4' => Some(4int),
        '5' => Some(5int),
        '6' => Some(6int),
        '7' => Some(7int),
        '8' => Some(8int),
        '9' => Some(9int),
        _ => None,
    }
}

/// Whether the text is a non-empty word of decimal digits.
pub open spec fn is_number(s: Seq<char>) -> bool {
    s.len() > 0 && forall|k: int| 0 <= k < s.len() ==> #[trigger] digit_value(s[k]) is Some
}

/// The value of a word of decimal digits, most significant first.
pub open spec fn decimal_value(s: Seq<char>) -> int
    decreases s.len(),
{
    if s.len() == 0 {
        0
    } else {
        10 * decimal_value(s.drop_last()) + digit_value(s.last()).unwrap()
    }
}

/// The half-move clock: a decimal number up to 255.
pub open spec fn parse_half_moves(field: Seq<char>) -> Option<u8> {
    if is_number(field) && decimal_value(field) <= 255 {
        Some(decimal_value(field) as u8)
    } else {
        None
    }
}

/// The position that a text in Forsyth-Edwards Notation describes: six fields separated by
/// single spaces (piece placement, side to move, castling rights, en passant target,
/// half-move clock, full-move number), or the first field, in that order, that is not
/// well formed. The full-move number is checked but not kept.
pub open spec fn parse_fen(s: Seq<char>) -> Result<PositionView, FenError> {
    let fields = split(s, ' ');
    if fields.len() != 6 {
        Err(FenError::FieldCount)
    } else {
        match parse_placement(fields[0]) {
            None => Err(FenError::Placement),
            Some(board) => match parse_side(fields[1]) {
                None => Err(FenError::SideToMove),
                Some(to_move) => match parse_castling(fields[2]) {
                    None => Err(FenError::Castling),
                    Some(castling_rights) => match parse_en_passant(fields[3]) {
                        None => Err(FenError::EnPassant),
                        Some(en_passant_target) => match parse_half_moves(fields[4]) {
                            None => Err(FenError::HalfMoveClock),
                            Some(half_move_counter) => if !is_number(fields[5]) {
                                Err(FenError::FullMoveNumber)
                            } else {
                                Ok(
                                    PositionView {
                                        board,
                                        state: State {
                                            to_move,
                                            half_move_counter,
                                            en_passant_target,
                                            castling_rights,
                                        },
                                    },
                                )
                            },
                        },
                    },
                },
            },
        }
    }
}

/// The castling field grants each right exactly where its own letter occurs: `K` and `Q` for
/// white's king and queen side, `k` and `q` for black's; and it is read exactly where it is `-`
/// or a non-empty word of those letters.
pub proof fn lemma_castling_letters(field: Seq<char>)
    ensures
        parse_castling(field) is Some <==> (field == seq!['-'] || (field.len() > 0 && forall|k: int|
            0 <= k < field.len() ==> (field[k] == 'K' || field[k] == 'Q' || field[k] == 'k'
                || field[k] == 'q'))),
        parse_castling(field) matches Some(c) ==> {
            &&& c.white_king_side == field.contains('K')
            &&& c.white_queen_side == field.contains('Q')
            &&& c.black_king_side == field.contains('k')
            &&& c.black_queen_side == field.contains('q')
        },
{
    if field == seq!['-'] {
        assert forall|x: char| x != '-' implies !field.contains(x) by {
            if field.contains(x) {
                let k: int = choose|k: int| 0 <= k < field.len() && field[k] == x;
                assert(field[0] == '-');
            }
        }
    }
    if field.len() > 0 && forall|k: int| 0 <= k < field.len() ==> (field[k] == 'K' || field[k] == 'Q' || field[k] == 'k'
        || field[k] == 'q') {
        assert forall|k: int| 0 <= k < field.len() implies #[trigger] is_castling_char(field[k]) by {}
    }
    if field != seq!['-'] && parse_castling(field) is Some {
        assert forall|k: int| 0 <= k < field.len() implies (field[k] == 'K' || field[k] == 'Q'
            || field[k] == 'k' || field[k] == 'q') by {
            assert(is_castling_char(field[k]));
        }
    }
}

/// The side to move is black exactly where the field is `b`, white exactly where it is `w`,
/// and no other field is read.
pub proof fn lemma_side_letters(field: Seq<char>)
    ensures
        parse_side(field) == Some(Side::Black) <==> field == seq!['b'],
        parse_side(field) == Some(Side::White) <==> field == seq!['w'],
        parse_side(field) is Some <==> (field == seq!['b'] || field == seq!['w']),
{
    if field == seq!['b'] {
        assert(seq!['b'] != seq!['w']) by {
            assert(seq!['b'][0] != seq!['w'][0]);
        }
    }
}

/// A position read from FEN text has black to move exactly where the second field is `b`, and
/// each castling right exactly where its own letter occurs in the third field.
pub proof fn lemma_fen_side_and_castling(s: Seq<char>, v: PositionView)
    requires
        parse_fen(s) == Ok::<PositionView, FenError>(v),
    ensures
        v.state.to_move == Side::Black <==> split(s, ' ')[1] == seq!['b'],
        v.state.to_move == Side::White <==> split(s, ' ')[1] == seq!['w'],
        v.state.castling_rights.white_king_side == split(s, ' ')[2].contains('K'),
        v.state.castling_rights.white_queen_side == split(s, ' ')[2].contains('Q'),
        v.state.castling_rights.black_king_side == split(s, ' ')[2].contains('k'),
        v.state.castling_rights.black_queen_side == split(s, ' ')[2].contains('q'),
{
    lemma_side_letters(split(s, ' ')[1]);
    lemma_castling_letters(split(s, ' ')[2]);
}

/// The views of a list of words.
pub open spec fn words_view(words: Seq<Vec<char>>) -> Seq<Seq<char>> {
    words.map_values(|w: Vec<char>| w@)
}

/// The characters of a text.
fn chars_of(s: &str) -> (r: Vec<char>)
    ensures
        r@ == s@,
{
    let n: usize = s.unicode_len();
    let mut r: Vec<char> = Vec::new();
    let mut i: usize = 0;
    while i < n
        invariant
            n == s@.len(),
            i <= n,
            r@ == s@.take(i as int),
        decreases n - i,
    {
        r.push(s.get_char(i));
        i = i + 1;
        assert(r@ =~= s@.take(i as int));
    }
    assert(s@.take(n as int) =~= s@);
    r
}

/// Splits a text at the occurrences of `sep`.
fn split_chars(s: &Vec<char>, sep: char) -> (r: Vec<Vec<char>>)
    ensures
        words_view(r@) == split(s@, sep),
{
    let mut parts: Vec<Vec<char>> = Vec::new();
    let mut cur: Vec<char> = Vec::new();
    let mut i: usize = 0;
    while i < s.len()
        invariant
            i <= s.len(),
            words_view(parts@).push(cur@) == split(s@.take(i as int), sep),
        decreases s.len() - i,
    {
        let c = s[i];
        let ghost prefix = s@.take(i as int);
        assert(s@.take(i + 1).drop_last() =~= prefix);
        assert(s@.take(i + 1).last() == c);
        if c == sep {
            let done = cur;
            parts.push(done);
            cur = Vec::new();
            assert(words_view(parts@) =~= words_view(parts@.drop_last()).push(done@));
            assert(words_view(parts@).push(cur@) =~= split(prefix, sep).push(Seq::empty()));
        } else {
            cur.push(c);
            assert(words_view(parts@).push(cur@) =~= split(prefix, sep).update(
                split(prefix, sep).len() - 1,
                split(prefix, sep).last().push(c),
            ));
        }
        i = i + 1;
    }
    assert(s@.take(s@.len() as int) =~= s@);
    let last = cur;
    parts.push(last);
    assert(words_view(parts@) =~= words_view(parts@.drop_last()).push(last@));
    parts
}

/// Where the text of a prefix describes no squares, neither does the whole text.
proof fn lemma_parse_rank_prefix_none(s: Seq<char>, i: int)
    requires
        0 <= i <= s.len(),
        parse_rank(s.take(i)) is None,
    ensures
        parse_rank(s) is None,
    decreases s.len() - i,
{
    if s.len() == i {
        assert(s.take(i) =~= s);
    } else {
        assert(s.drop_last().take(i) =~= s.take(i));
        lemma_parse_rank_prefix_none(s.drop_last(), i);
    }
}

fn exec_piece_of_char(c: char) -> (r: Option<(Piece, Side)>)
    ensures
        r == piece_of_char(c),
{
    match c {
        'P' => Some((Piece::Pawn, Side::White)),
        'N' => Some((Piece::Knight, Side::White)),
        'B' => Some((Piece::Bishop, Side::White)),
        'R' => Some((Piece::Rook, Side::White)),
        'Q' => Some((Piece::Queen, Side::White)),
        'K' => Some((Piece::King, Side::White)),
        'p' => Some((Piece::Pawn, Side::Black)),
        'n' => Some((Piece::Knight, Side::Black)),
        'b' => Some((Piece::Bishop, Side::Black)),
        'r' => Some((Piece::Rook, Side::Black)),
        'q' => Some((Piece::Queen, Side::Black)),
        'k' => Some((Piece::King, Side::Black)),
        _ => None,
    }
}

fn exec_empty_run(c: char) -> (r: Option<u8>)
    ensures
        match r {
            Some(n) => empty_run(c) == Some(n as nat),
            None => empty_run(c) is None,
        },
{
    match c {
        '1' => Some(1),
        '2' => Some(2),
        '3' => Some(3),
        '4' => Some(4),
        '5' => Some(5),
        '6' => Some(6),
        '7' => Some(7),
        '8' => Some(8),
        _ => None,
    }
}

/// The squares that the text of one rank describes.
fn exec_parse_rank(s: &Vec<char>) -> (r: Option<Vec<Option<(Piece, Side)>>>)
    ensures
        match r {
            Some(v) => parse_rank(s@) == Some(v@),
            None => parse_rank(s@) is None,
        },
{
    let mut acc: Vec<Option<(Piece, Side)>> = Vec::new();
    let mut i: usize = 0;
    while i < s.len()
        invariant
            i <= s.len(),
            parse_rank(s@.take(i as int)) == Some(acc@),
        decreases s.len() - i,
    {
        let c = s[i];
        assert(s@.take(i + 1).drop_last() =~= s@.take(i as int));
        assert(s@.take(i + 1).last() == c);
        match exec_empty_run(c) {
            Some(n) => {
                let ghost prev = acc@;
                let mut k: u8 = 0;
                while k < n
                    invariant
                        k <= n,
                        acc@ == prev + Seq::new(k as nat, |m: int| None::<(Piece, Side)>),
                    decreases n - k,
                {
                    acc.push(None);
                    k = k + 1;
                    assert(acc@ =~= prev + Seq::new(k as nat, |m: int| None::<(Piece, Side)>));
                }
            },
            None => match exec_piece_of_char(c) {
                Some(ps) => {
                    acc.push(Some(ps));
                },
                None => {
                    proof {
                        lemma_parse_rank_prefix_none(s@, i + 1);
                    }
                    return None;
                },
            },
        }
        i = i + 1;
    }
    assert(s@.take(s@.len() as int) =~= s@);
    Some(acc)
}

/// The board that a piece placement describes.
fn exec_parse_placement(field: &Vec<char>) -> (r: Option<Vec<Option<(Piece, Side)>>>)
    ensures
        match r {
            Some(b) => parse_placement(field@) == Some(b@),
            None => parse_placement(field@) is None,
        },
{
    let ranks = split_chars(field, '/');
    let ghost rv = split(field@, '/');
    if ranks.len() != 8 {
        return None;
    }
    let mut board: Vec<Option<(Piece, Side)>> = Vec::new();
    let mut i: usize = 0;
    while i < 64
        invariant
            i <= 64,
            board@ == Seq::new(i as nat, |m: int| None::<(Piece, Side)>),
        decreases 64 - i,
    {
        board.push(None);
        i = i + 1;
        assert(board@ =~= Seq::new(i as nat, |m: int| None::<(Piece, Side)>));
    }
    let mut k: usize = 0;
    while k < 8
        invariant
            k <= 8,
            ranks@.len() == 8,
            words_view(ranks@) == rv,
            rv == split(field@, '/'),
            board@.len() == 64,
            forall|m: int| 0 <= m < k ==> #[trigger] valid_rank(rv[m]),
            forall|j: int|
                0 <= j < 64 ==> #[trigger] board@[j] == if 7 - rank_of(j) < k {
                    parse_rank(rv[7 - rank_of(j)]).unwrap()[file_of(j)]
                } else {
                    None
                },
        decreases 8 - k,
    {
        assert(rv[k as int] == ranks@[k as int]@);
        let squares = match exec_parse_rank(&ranks[k]) {
            Some(v) => v,
            None => {
                assert(!valid_rank(rv[k as int]));
                return None;
            },
        };
        if squares.len() != 8 {
            assert(!valid_rank(rv[k as int]));
            return None;
        }
        let ghost before = board@;
        let mut f: usize = 0;
        while f < 8
            invariant
                f <= 8,
                k < 8,
                squares@.len() == 8,
                board@.len() == 64,
                forall|j: int|
                    0 <= j < 64 ==> #[trigger] board@[j] == if rank_of(j) == 7 - k && file_of(j) < f {
                        squares@[file_of(j)]
                    } else {
                        before[j]
                    },
            decreases 8 - f,
        {
            let idx: usize = (7 - k) * 8 + f;
            proof {
                lemma_file_rank(idx as int);
                vstd::arithmetic::div_mod::lemma_fundamental_div_mod_converse(idx as int, 8, 7 - k, f as int);
            }
            board.set(idx, squares[f]);
            proof {
                assert forall|j: int| 0 <= j < 64 implies #[trigger] board@[j] == if rank_of(j) == 7 - k
                    && file_of(j) < f + 1 {
                    squares@[file_of(j)]
                } else {
                    before[j]
                } by {
                    lemma_file_rank(j);
                }
            }
            f = f + 1;
        }
        proof {
            assert forall|j: int| 0 <= j < 64 implies #[trigger] board@[j] == if 7 - rank_of(j) < k + 1 {
                parse_rank(rv[7 - rank_of(j)]).unwrap()[file_of(j)]
            } else {
                None
            } by {
                lemma_file_rank(j);
            }
        }
        k = k + 1;
    }
    proof {
        assert(board@ =~= Seq::new(
            64,
            |i: int| parse_rank(rv[7 - rank_of(i)]).unwrap()[file_of(i)],
        )) by {
            assert forall|j: int| 0 <= j < 64 implies 7 - rank_of(j) < 8 by {
                lemma_file_rank(j);
            }
        }
    }
    Some(board)
}

/// The side to move.
fn exec_parse_side(field: &Vec<char>) -> (r: Option<Side>)
    ensures
        r == parse_side(field@),
{
    if field.len() == 1 && field[0] == 'w' {
        assert(field@ =~= seq!['w']);
        Some(Side::White)
    } else if field.len() == 1 && field[0] == 'b' {
        assert(field@ =~= seq!['b']);
        Some(Side::Black)
    } else {
        assert(field@ != seq!['w'] && field@ != seq!['b']) by {
            if field@ == seq!['w'] || field@ == seq!['b'] {
                assert(field@[0] == field[0]);
            }
        }
        None
    }
}

/// The castling rights.
fn exec_parse_castling(field: &Vec<char>) -> (r: Option<CastlingRights>)
    ensures
        r == parse_castling(field@),
{
    if field.len() == 1 && field[0] == '-' {
        assert(field@ =~= seq!['-']);
        return Some(CastlingRights::new(false, false, false, false));
    }
    assert(field@ != seq!['-']) by {
        if field@ == seq!['-'] {
            assert(field@[0] == field[0]);
        }
    }
    if field.len() == 0 {
        return None;
    }
    let mut white_king_side = false;
    let mut white_queen_side = false;
    let mut black_king_side = false;
    let mut black_queen_side = false;
    let mut k: usize = 0;
    while k < field.len()
        invariant
            k <= field.len(),
            field@ != seq!['-'],
            field@.len() > 0,
            forall|m: int| 0 <= m < k ==> #[trigger] is_castling_char(field@[m]),
            white_king_side == field@.take(k as int).contains('K'),
            white_queen_side == field@.take(k as int).contains('Q'),
            black_king_side == field@.take(k as int).contains('k'),
            black_queen_side == field@.take(k as int).contains('q'),
        decreases field.len() - k,
    {
        let c = field[k];
        if !(c == 'K' || c == 'Q' || c == 'k' || c == 'q') {
            assert(!is_castling_char(field@[k as int]));
            return None;
        }
        let ghost before = field@.take(k as int);
        let ghost after = field@.take(k + 1);
        assert(after =~= before.push(c));
        assert forall|x: char| #[trigger] after.contains(x) == (before.contains(x) || x == c) by {
            if after.contains(x) {
                let m: int = choose|m: int| 0 <= m < after.len() && after[m] == x;
                if m < k {
                    assert(before[m] == x);
                }
            }
            if before.contains(x) {
                let m: int = choose|m: int| 0 <= m < before.len() && before[m] == x;
                assert(after[m] == x);
            }
            if x == c {
                assert(after[k as int] == x);
            }
        }
        white_king_side = white_king_side || c == 'K';
        white_queen_side = white_queen_side || c == 'Q';
        black_king_side = black_king_side || c == 'k';
        black_queen_side = black_queen_side || c == 'q';
        k = k + 1;
    }
    assert(field@.take(k as int) =~= field@);
    Some(CastlingRights::new(white_king_side, white_queen_side, black_king_side, black_queen_side))
}

fn exec_file_of_char(c: char) -> (r: Option<u8>)
    ensures
        match r {
            Some(f) => file_of_char(c) == Some(f as int),
            None => file_of_char(c) is None,
        },
{
    match c {
        'a' => Some(0),
        'b' => Some(1),
        'c' => Some(2),
        'd' => Some(3),
        'e' => Some(4),
        'f' => Some(5),
        'g' => Some(6),
        'h' => Some(7),
        _ => None,
    }
}

fn exec_rank_of_char(c: char) -> (r: Option<u8>)
    ensures
        match r {
            Some(f) => rank_of_char(c) == Some(f as int),
            None => rank_of_char(c) is None,
        },
{
    match c {
        '1' => Some(0),
        '2' => Some(1),
        '3' => Some(2),
        '4' => Some(3),
        '5' => Some(4),
        '6' => Some(5),
        '7' => Some(6),
        '8' => Some(7),
        _ => None,
    }
}

/// The en passant target.
fn exec_parse_en_passant(field: &Vec<char>) -> (r: Option<Option<Square>>)
    ensures
        r == parse_en_passant(field@),
{
    if field.len() == 1 && field[0] == '-' {
        assert(field@ =~= seq!['-']);
        return Some(None);
    }
    assert(field@ != seq!['-']) by {
        if field@ == seq!['-'] {
            assert(field@[0] == field[0]);
        }
    }
    if field.len() != 2 {
        return None;
    }
    match (exec_file_of_char(field[0]), exec_rank_of_char(field[1])) {
        (Some(f), Some(r)) => Some(Some(Square::from_index(8 * r + f))),
        _ => None,
    }
}

fn exec_digit_value(c: char) -> (r: Option<u8>)
    ensures
        match r {
            Some(d) => digit_value(c) == Some(d as int) && d < 10,
            None => digit_value(c) is None,
        },
{
    match c {
        '0' => Some(0),
        '1' => Some(1),
        '2' => Some(2),
        '3' => Some(3),
        '4' => Some(4),
        '5' => Some(5),
        '6' => Some(6),
        '7' => Some(7),
        '8' => Some(8),
        '9' => Some(9),
        _ => None,
    }
}

/// The half-move clock.
fn exec_parse_half_moves(field: &Vec<char>) -> (r: Option<u8>)
    ensures
        r == parse_half_moves(field@),
{
    if field.len() == 0 {
        return None;
    }
    // the value read so far, or 256 for any value above 255
    let mut acc: u32 = 0;
    let mut k: usize = 0;
    while k < field.len()
        invariant
            k <= field.len(),
            forall|m: int| 0 <= m < k ==> #[trigger] digit_value(field@[m]) is Some,
            decimal_value(field@.take(k as int)) >= 0,
            acc == if decimal_value(field@.take(k as int)) >= 256 {
                256
            } else {
                decimal_value(field@.take(k as int))
            },
        decreases field.len() - k,
    {
        let d: u8 = match exec_digit_value(field[k]) {
            Some(d) => d,
            None => {
                return None;
            },
        };
        assert(field@.take(k + 1).drop_last() =~= field@.take(k as int));
        assert(field@.take(k + 1).last() == field@[k as int]);
        acc = if acc >= 256 {
            256
        } else if acc * 10 + d as u32 >= 256 {
            256
        } else {
            acc * 10 + d as u32
        };
        k = k + 1;
    }
    assert(field@.take(k as int) =~= field@);
    if acc <= 255 {
        Some(acc as u8)
    } else {
        None
    }
}

/// Whether the text is a non-empty word of decimal digits.
fn exec_is_number(field: &Vec<char>) -> (r: bool)
    ensures
        r == is_number(field@),
{
    if field.len() == 0 {
        return false;
    }
    let mut k: usize = 0;
    while k < field.len()
        invariant
            k <= field.len(),
            forall|m: int| 0 <= m < k ==> #[trigger] digit_value(field@[m]) is Some,
        decreases field.len() - k,
    {
        if exec_digit_value(field[k]).is_none() {
            return false;
        }
        k = k + 1;
    }
    true
}

/// Reads a position from Forsyth-Edwards Notation: six fields separated by single spaces, the
/// piece placement (rank 8 first, ranks separated by `/`, a letter for a piece, upper case for
/// white, a digit for a run of empty squares), the side to move (`w` or `b`), the castling
/// rights (`-` or letters of `KQkq`), the en passant target (`-` or a square such as `e3`), the
/// half-move clock (up to 255) and the full-move number. Gives the first field, in that order,
/// that is not well formed.
pub fn from_fen(fen: &str) -> (r: Result<Position, FenError>)
    ensures
        match r {
            Ok(p) => p.wf() && parse_fen(fen@) == Ok::<PositionView, FenError>(p@),
            Err(e) => parse_fen(fen@) == Err::<PositionView, FenError>(e),
        },
{
    let s = chars_of(fen);
    let fields = split_chars(&s, ' ');
    let ghost fv = split(fen@, ' ');
    if fields.len() != 6 {
        return Err(FenError::FieldCount);
    }
    assert(fv[0] == fields@[0]@ && fv[1] == fields@[1]@ && fv[2] == fields@[2]@);
    assert(fv[3] == fields@[3]@ && fv[4] == fields@[4]@ && fv[5] == fields@[5]@);
    let board = match exec_parse_placement(&fields[0]) {
        Some(b) => b,
        None => {
            return Err(FenError::Placement);
        },
    };
    let to_move = match exec_parse_side(&fields[1]) {
        Some(side) => side,
        None => {
            return Err(FenError::SideToMove);
        },
    };
    let castling_rights = match exec_parse_castling(&fields[2]) {
        Some(c) => c,
        None => {
            return Err(FenError::Castling);
        },
    };
    let en_passant_target = match exec_parse_en_passant(&fields[3]) {
        Some(ep) => ep,
        None => {
            return Err(FenError::EnPassant);
        },
    };
    let half_move_counter = match exec_parse_half_moves(&fields[4]) {
        Some(h) => h,
        None => {
            return Err(FenError::HalfMoveClock);
        },
    };
    if !exec_is_number(&fields[5]) {
        return Err(FenError::FullMoveNumber);
    }
    let state = State { to_move, half_move_counter, en_passant_target, castling_rights };
    Ok(Position::from_board(&board, state))
}

impl Position {
    /// Reads a position from Forsyth-Edwards Notation; see [`from_fen`].
    pub fn from_fen(fen: &str) -> (r: Result<Position, FenError>)
        ensures
            match r {
                Ok(p) => p.wf() && parse_fen(fen@) == Ok::<PositionView, FenError>(p@),
                Err(e) => parse_fen(fen@) == Err::<PositionView, FenError>(e),
            },
    {
        from_fen(fen)
    }
}

} // verus!
