use vstd::prelude::*;

use vstd::arithmetic::div_mod::lemma_fundamental_div_mod_converse;

use crate::text::string_push;

verus! {

/// A square of the board. Squares are numbered rank by rank from `A1` (0) to `H8` (63):
/// the index of a square is `8 * rank + file`, with files `a..h` and ranks `1..8` counted from 0.
#[derive(Clone, Copy, Debug, PartialEq, Eq, Structural, PartialOrd, Ord, Hash)]
pub enum Square {
    A1, B1, C1, D1, E1, F1, G1, H1,
    A2, B2, C2, D2, E2, F2, G2, H2,
    A3, B3, C3, D3, E3, F3, G3, H3,
    A4, B4, C4, D4, E4, F4, G4, H4,
    A5, B5, C5, D5, E5, F5, G5, H5,
    A6, B6, C6, D6, E6, F6, G6, H6,
    A7, B7, C7, D7, E7, F7, G7, H7,
    A8, B8, C8, D8, E8, F8, G8, H8,
}

/// The file (column `a..h`) of a square index, counted from 0.
pub open spec fn file_of(i: int) -> int {
    i % 8
}

/// The rank (row `1..8`) of a square index, counted from 0.
pub open spec fn rank_of(i: int) -> int {
    i / 8
}

/// The square index at file offset `df` and rank offset `dr` from square index `i`,
/// or `None` where that lies off the board.
pub open spec fn offset(i: int, df: int, dr: int) -> Option<int> {
    if 0 <= file_of(i) + df < 8 && 0 <= rank_of(i) + dr < 8 {
        Some(i + df + 8 * dr)
    } else {
        None
    }
}

/// A square index is `8 * rank + file`, with both in `0..8`.
pub proof fn lemma_file_rank(i: int)
    requires
        0 <= i < 64,
    ensures
        i == 8 * rank_of(i) + file_of(i),
        0 <= file_of(i) < 8,
        0 <= rank_of(i) < 8,
{
}

/// The square at offset `(df, dr)` from `i` has the file and the rank of `i` moved by that much.
pub proof fn lemma_offset_file_rank(i: int, df: int, dr: int)
    requires
        0 <= i < 64,
    ensures
        offset(i, df, dr) matches Some(j) ==> {
            &&& 0 <= j < 64
            &&& file_of(j) == file_of(i) + df
            &&& rank_of(j) == rank_of(i) + dr
        },
{
    if let Some(j) = offset(i, df, dr) {
        lemma_file_rank(i);
        lemma_fundamental_div_mod_converse(j, 8, rank_of(i) + dr, file_of(i) + df);
    }
}

/// Every square lies at its own file and rank offset from any other.
pub proof fn lemma_offset_between(i: int, j: int)
    requires
        0 <= i < 64,
        0 <= j < 64,
    ensures
        offset(i, file_of(j) - file_of(i), rank_of(j) - rank_of(i)) == Some(j),
{
    lemma_file_rank(i);
    lemma_file_rank(j);
}

/// Two offsets in the same directions along each axis add up: the first leaves the board
/// only where the sum does.
pub proof fn lemma_offset_compose(i: int, a: int, b: int, c: int, e: int)
    requires
        0 <= i < 64,
        (a >= 0 && c >= 0) || (a <= 0 && c <= 0),
        (b >= 0 && e >= 0) || (b <= 0 && e <= 0),
    ensures
        (match offset(i, a, b) {
            Some(j) => offset(j, c, e),
            None => None,
        }) == offset(i, a + c, b + e),
{
    lemma_file_rank(i);
    lemma_offset_file_rank(i, a, b);
}

/// The letter `a..h` of a file counted from 0.
pub open spec fn file_char(f: int) -> char {
    if f == 0 {
        'a'
    } else if f == 1 {
        'b'
    } else if f == 2 {
        'c'
    } else if f == 3 {
        'd'
    } else if f == 4 {
        'e'
    } else if f == 5 {
        'f'
    } else if f == 6 {
        'g'
    } else {
        'h'
    }
}

/// The digit `1..8` of a rank counted from 0.
pub open spec fn rank_char(r: int) -> char {
    if r == 0 {
        '1'
    } else if r == 1 {
        '2'
    } else if r == 2 {
        '3'
    } else if r == 3 {
        '4'
    } else if r == 4 {
        '5'
    } else if r == 5 {
        '6'
    } else if r == 6 {
        '7'
    } else {
        '8'
    }
}

/// The name of the square with index `i`: its file letter, then its rank digit, as in `e4`.
pub open spec fn square_name(i: int) -> Seq<char> {
    seq![file_char(file_of(i)), rank_char(rank_of(i))]
}

fn exec_file_char(f: u8) -> (c: char)
    requires
        f < 8,
    ensures
        c == file_char(f as int),
{
    match f {
        0 => 'a',
        1 => 'b',
        2 => 'c',
        3 => 'd',
        4 => 'e',
        5 => 'f',
        6 => 'g',
        _ => 'h',
    }
}

fn exec_rank_char(r: u8) -> (c: char)
    requires
        r < 8,
    ensures
        c == rank_char(r as int),
{
    match r {
        0 => '1',
        1 => '2',
        2 => '3',
        3 => '4',
        4 => '5',
        5 => '6',
        6 => '7',
        _ => '8',
    }
}

/// The name of a square written as its variant: the file letter in lower case, then the rank
/// digit.
pub open spec fn variant_name(s: Square) -> Seq<char> {
    match s {
            Square::A1 => seq!['a', '1'],
            Square::B1 => seq!['b', '1'],
            Square::C1 => seq!['c', '1'],
            Square::D1 => seq!['d', '1'],
            Square::E1 => seq!['e', '1'],
            Square::F1 => seq!['f', '1'],
            Square::G1 => seq!['g', '1'],
            Square::H1 => seq!['h', '1'],
            Square::A2 => seq!['a', '2'],
            Square::B2 => seq!['b', '2'],
            Square::C2 => seq!['c', '2'],
            Square::D2 => seq!['d', '2'],
            Square::E2 => seq!['e', '2'],
            Square::F2 => seq!['f', '2'],
            Square::G2 => seq!['g', '2'],
            Square::H2 => seq!['h', '2'],
            Square::A3 => seq!['a', '3'],
            Square::B3 => seq!['b', '3'],
            Square::C3 => seq!['c', '3'],
            Square::D3 => seq!['d', '3'],
            Square::E3 => seq!['e', '3'],
            Square::F3 => seq!['f', '3'],
            Square::G3 => seq!['g', '3'],
            Square::H3 => seq!['h', '3'],
            Square::A4 => seq!['a', '4'],
            Square::B4 => seq!['b', '4'],
            Square::C4 => seq!['c', '4'],
            Square::D4 => seq!['d', '4'],
            Square::E4 => seq!['e', '4'],
            Square::F4 => seq!['f', '4'],
            Square::G4 => seq!['g', '4'],
            Square::H4 => seq!['h', '4'],
            Square::A5 => seq!['a', '5'],
            Square::B5 => seq!['b', '5'],
            Square::C5 => seq!['c', '5'],
            Square::D5 => seq!['d', '5'],
            Square::E5 => seq!['e', '5'],
            Square::F5 => seq!['f', '5'],
            Square::G5 => seq!['g', '5'],
            Square::H5 => seq!['h', '5'],
            Square::A6 => seq!['a', '6'],
            Square::B6 => seq!['b', '6'],
            Square::C6 => seq!['c', '6'],
            Square::D6 => seq!['d', '6'],
            Square::E6 => seq!['e', '6'],
            Square::F6 => seq!['f', '6'],
            Square::G6 => seq!['g', '6'],
            Square::H6 => seq!['h', '6'],
            Square::A7 => seq!['a', '7'],
            Square::B7 => seq!['b', '7'],
            Square::C7 => seq!['c', '7'],
            Square::D7 => seq!['d', '7'],
            Square::E7 => seq!['e', '7'],
            Square::F7 => seq!['f', '7'],
            Square::G7 => seq!['g', '7'],
            Square::H7 => seq!['h', '7'],
            Square::A8 => seq!['a', '8'],
            Square::B8 => seq!['b', '8'],
            Square::C8 => seq!['c', '8'],
            Square::D8 => seq!['d', '8'],
            Square::E8 => seq!['e', '8'],
            Square::F8 => seq!['f', '8'],
            Square::G8 => seq!['g', '8'],
            Square::H8 => seq!['h', '8'],
    }
}

/// The name of square index `i` is the letter `'a' + i % 8` followed by the digit
/// `'1' + i / 8`.
pub proof fn lemma_square_name_letters(i: int)
    requires
        0 <= i < 64,
    ensures
        square_name(i).len() == 2,
        square_name(i)[0] as u32 == 'a' as u32 + i % 8,
        square_name(i)[1] as u32 == '1' as u32 + i / 8,
{
    lemma_file_rank(i);
}

/// Every square's index is `8 * rank + file` of the square its variant names: the name of the
/// index spells the variant.
pub proof fn lemma_index_spells_variant(s: Square)
    ensures
        square_name(s.spec_index()) == variant_name(s),
{
    assert(square_name(s.spec_index()) =~= variant_name(s));
}

impl Square {
    /// The index of the square, `8 * rank + file`.
    pub open spec fn spec_index(self) -> int {
        match self {
            Square::A1 => 0,
            Square::B1 => 1,
            Square::C1 => 2,
            Square::D1 => 3,
            Square::E1 => 4,
            Square::F1 => 5,
            Square::G1 => 6,
            Square::H1 => 7,
            Square::A2 => 8,
            Square::B2 => 9,
            Square::C2 => 10,
            Square::D2 => 11,
            Square::E2 => 12,
            Square::F2 => 13,
            Square::G2 => 14,
            Square::H2 => 15,
            Square::A3 => 16,
            Square::B3 => 17,
            Square::C3 => 18,
            Square::D3 => 19,
            Square::E3 => 20,
            Square::F3 => 21,
            Square::G3 => 22,
            Square::H3 => 23,
            Square::A4 => 24,
            Square::B4 => 25,
            Square::C4 => 26,
            Square::D4 => 27,
            Square::E4 => 28,
            Square::F4 => 29,
            Square::G4 => 30,
            Square::H4 => 31,
            Square::A5 => 32,
            Square::B5 => 33,
            Square::C5 => 34,
            Square::D5 => 35,
            Square::E5 => 36,
            Square::F5 => 37,
            Square::G5 => 38,
            Square::H5 => 39,
            Square::A6 => 40,
            Square::B6 => 41,
            Square::C6 => 42,
            Square::D6 => 43,
            Square::E6 => 44,
            Square::F6 => 45,
            Square::G6 => 46,
            Square::H6 => 47,
            Square::A7 => 48,
            Square::B7 => 49,
            Square::C7 => 50,
            Square::D7 => 51,
            Square::E7 => 52,
            Square::F7 => 53,
            Square::G7 => 54,
            Square::H7 => 55,
            Square::A8 => 56,
            Square::B8 => 57,
            Square::C8 => 58,
            Square::D8 => 59,
            Square::E8 => 60,
            Square::F8 => 61,
            Square::G8 => 62,
            Square::H8 => 63,
        }
    }

    /// The square with the given index.
    pub open spec fn spec_from_index(i: int) -> Square {
        if i == 0 {
            Square::A1
        } else if i == 1 {
            Square::B1
        } else if i == 2 {
            Square::C1
        } else if i == 3 {
            Square::D1
        } else if i == 4 {
            Square::E1
        } else if i == 5 {
            Square::F1
        } else if i == 6 {
            Square::G1
        } else if i == 7 {
            Square::H1
        } else if i == 8 {
            Square::A2
        } else if i == 9 {
            Square::B2
        } else if i == 10 {
            Square::C2
        } else if i == 11 {
            Square::D2
        } else if i == 12 {
            Square::E2
        } else if i == 13 {
            Square::F2
        } else if i == 14 {
            Square::G2
        } else if i == 15 {
            Square::H2
        } else if i == 16 {
            Square::A3
        } else if i == 17 {
            Square::B3
        } else if i == 18 {
            Square::C3
        } else if i == 19 {
            Square::D3
        } else if i == 20 {
            Square::E3
        } else if i == 21 {
            Square::F3
        } else if i == 22 {
            Square::G3
        } else if i == 23 {
            Square::H3
        } else if i == 24 {
            Square::A4
        } else if i == 25 {
            Square::B4
        } else if i == 26 {
            Square::C4
        } else if i == 27 {
            Square::D4
        } else if i == 28 {
            Square::E4
        } else if i == 29 {
            Square::F4
        } else if i == 30 {
            Square::G4
        } else if i == 31 {
            Square::H4
        } else if i == 32 {
            Square::A5
        } else if i == 33 {
            Square::B5
        } else if i == 34 {
            Square::C5
        } else if i == 35 {
            Square::D5
        } else if i == 36 {
            Square::E5
        } else if i == 37 {
            Square::F5
        } else if i == 38 {
            Square::G5
        } else if i == 39 {
            Square::H5
        } else if i == 40 {
            Square::A6
        } else if i == 41 {
            Square::B6
        } else if i == 42 {
            Square::C6
        } else if i == 43 {
            Square::D6
        } else if i == 44 {
            Square::E6
        } else if i == 45 {
            Square::F6
        } else if i == 46 {
            Square::G6
        } else if i == 47 {
            Square::H6
        } else if i == 48 {
            Square::A7
        } else if i == 49 {
            Square::B7
        } else if i == 50 {
            Square::C7
        } else if i == 51 {
            Square::D7
        } else if i == 52 {
            Square::E7
        } else if i == 53 {
            Square::F7
        } else if i == 54 {
            Square::G7
        } else if i == 55 {
            Square::H7
        } else if i == 56 {
            Square::A8
        } else if i == 57 {
            Square::B8
        } else if i == 58 {
            Square::C8
        } else if i == 59 {
            Square::D8
        } else if i == 60 {
            Square::E8
        } else if i == 61 {
            Square::F8
        } else if i == 62 {
            Square::G8
        } else {
            Square::H8
        }
    }

    /// Every square has an index in `0..64`, and the index determines the square.
    pub proof fn lemma_index(self)
        ensures
            0 <= self.spec_index() < 64,
            Square::spec_from_index(self.spec_index()) == self,
    {
    }

    /// The index of the square.
    pub fn index(self) -> (r: u8)
        ensures
            r as int == self.spec_index(),
            r < 64,
    {
        match self {
            Square::A1 => 0,
            Square::B1 => 1,
            Square::C1 => 2,
            Square::D1 => 3,
            Square::E1 => 4,
            Square::F1 => 5,
            Square::G1 => 6,
            Square::H1 => 7,
            Square::A2 => 8,
            Square::B2 => 9,
            Square::C2 => 10,
            Square::D2 => 11,
            Square::E2 => 12,
            Square::F2 => 13,
            Square::G2 => 14,
            Square::H2 => 15,
            Square::A3 => 16,
            Square::B3 => 17,
            Square::C3 => 18,
            Square::D3 => 19,
            Square::E3 => 20,
            Square::F3 => 21,
            Square::G3 => 22,
            Square::H3 => 23,
            Square::A4 => 24,
            Square::B4 => 25,
            Square::C4 => 26,
            Square::D4 => 27,
            Square::E4 => 28,
            Square::F4 => 29,
            Square::G4 => 30,
            Square::H4 => 31,
            Square::A5 => 32,
            Square::B5 => 33,
            Square::C5 => 34,
            Square::D5 => 35,
            Square::E5 => 36,
            Square::F5 => 37,
            Square::G5 => 38,
            Square::H5 => 39,
            Square::A6 => 40,
            Square::B6 => 41,
            Square::C6 => 42,
            Square::D6 => 43,
            Square::E6 => 44,
            Square::F6 => 45,
            Square::G6 => 46,
            Square::H6 => 47,
            Square::A7 => 48,
            Square::B7 => 49,
            Square::C7 => 50,
            Square::D7 => 51,
            Square::E7 => 52,
            Square::F7 => 53,
            Square::G7 => 54,
            Square::H7 => 55,
            Square::A8 => 56,
            Square::B8 => 57,
            Square::C8 => 58,
            Square::D8 => 59,
            Square::E8 => 60,
            Square::F8 => 61,
            Square::G8 => 62,
            Square::H8 => 63,
        }
    }

    /// The name of the square, such as `e4`.
    pub fn to_string(self) -> (r: String)
        ensures
            r@ == square_name(self.spec_index()),
    {
        let i: u8 = self.index();
        let mut r = String::new();
        string_push(&mut r, exec_file_char(i % 8));
        string_push(&mut r, exec_rank_char(i / 8));
        assert(r@ =~= square_name(self.spec_index()));
        r
    }

    /// The square with the given index.
    pub fn from_index(i: u8) -> (s: Square)
        requires
            i < 64,
        ensures
            s.spec_index() == i as int,
            s == Square::spec_from_index(i as int),
    {
        match i {
            0 => Square::A1,
            1 => Square::B1,
            2 => Square::C1,
            3 => Square::D1,
            4 => Square::E1,
            5 => Square::F1,
            6 => Square::G1,
            7 => Square::H1,
            8 => Square::A2,
            9 => Square::B2,
            10 => Square::C2,
            11 => Square::D2,
            12 => Square::E2,
            13 => Square::F2,
            14 => Square::G2,
            15 => Square::H2,
            16 => Square::A3,
            17 => Square::B3,
            18 => Square::C3,
            19 => Square::D3,
            20 => Square::E3,
            21 => Square::F3,
            22 => Square::G3,
            23 => Square::H3,
            24 => Square::A4,
            25 => Square::B4,
            26 => Square::C4,
            27 => Square::D4,
            28 => Square::E4,
            29 => Square::F4,
            30 => Square::G4,
            31 => Square::H4,
            32 => Square::A5,
            33 => Square::B5,
            34 => Square::C5,
            35 => Square::D5,
            36 => Square::E5,
            37 => Square::F5,
            38 => Square::G5,
            39 => Square::H5,
            40 => Square::A6,
            41 => Square::B6,
            42 => Square::C6,
            43 => Square::D6,
            44 => Square::E6,
            45 => Square::F6,
            46 => Square::G6,
            47 => Square::H6,
            48 => Square::A7,
            49 => Square::B7,
            50 => Square::C7,
            51 => Square::D7,
            52 => Square::E7,
            53 => Square::F7,
            54 => Square::G7,
            55 => Square::H7,
            56 => Square::A8,
            57 => Square::B8,
            58 => Square::C8,
            59 => Square::D8,
            60 => Square::E8,
            61 => Square::F8,
            62 => Square::G8,
            _ => Square::H8,
        }
    }
}

} // verus!
