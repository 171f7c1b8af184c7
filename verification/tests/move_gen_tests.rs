use chess::bitboard::{BitBoard, Direction};
use chess::move_gen::leaping_pieces::{
    calc_king_atks, calc_knight_atks, calc_pawn_atks, calc_pawn_pushes, LeapingPiecesMoveGen,
};
use chess::position::{Piece, Side};
use chess::square::Square;
use chess::square::Square::{A1, A2, A4, A7, A8, B1, B2, B3, B4, B5, B6, B7, B8, C1, C2, C3, C4, C5, C6, C7, D1, D2, D3, D4, D5, D6, D7, E2, E3, E4, E5, E6, F3, F5, G1, G2, G7, G8, H1, H7, H8};

fn knight(square: Square) -> BitBoard {
    LeapingPiecesMoveGen::new().knight_atks.get_bitboard(square)
}

#[test]
fn test_calc_knight_atks_center() {
    assert_eq!(knight(D4), BitBoard::from_squares(&[B5, C6, E6, F5, B3, C2, E2, F3]));
}

#[test]
fn test_calc_knight_atks_corner() {
    assert_eq!(knight(A8), BitBoard::from_squares(&[B6, C7]));
}

#[test]
fn test_calc_knight_atks_edge() {
    assert_eq!(knight(A4), BitBoard::from_squares(&[B6, C5, C3, B2]));
}

fn king(square: Square) -> BitBoard {
    LeapingPiecesMoveGen::new().king_atks.get_bitboard(square)
}

#[test]
fn test_calc_king_atks_center() {
    assert_eq!(king(D4), BitBoard::from_squares(&[C5, D5, E5, C4, E4, C3, D3, E3]));
}

#[test]
fn test_calc_king_atks_corner() {
    assert_eq!(king(A8), BitBoard::from_squares(&[A7, B7, B8]));
}

#[test]
fn test_calc_king_atks_edge() {
    assert_eq!(king(C1), BitBoard::from_squares(&[B1, B2, C2, D2, D1]));
}

fn pushes(square: Square, side: Side) -> BitBoard {
    LeapingPiecesMoveGen::new().pawn_pushes.get_square_database(side).get_bitboard(square)
}

#[test]
fn test_calc_pawn_pushes() {
    assert_eq!(pushes(D2, Side::White), BitBoard::from_squares(&[D3, D4]));
    assert_eq!(pushes(B3, Side::White), BitBoard::from_squares(&[B4]));
    assert_eq!(pushes(G7, Side::White), BitBoard::from_squares(&[G8]));
    assert_eq!(pushes(G8, Side::White), BitBoard::from_squares(&[]));
    assert_eq!(pushes(D7, Side::Black), BitBoard::from_squares(&[D6, D5]));
    assert_eq!(pushes(B6, Side::Black), BitBoard::from_squares(&[B5]));
    assert_eq!(pushes(G2, Side::Black), BitBoard::from_squares(&[G1]));
    assert_eq!(pushes(G1, Side::Black), BitBoard::from_squares(&[]));
}

fn attacks(square: Square, side: Side) -> BitBoard {
    LeapingPiecesMoveGen::new().pawn_atks.get_square_database(side).get_bitboard(square)
}

#[test]
fn test_calc_pawn_atks() {
    assert_eq!(attacks(D2, Side::White), BitBoard::from_squares(&[C3, E3]));
    assert_eq!(attacks(A7, Side::White), BitBoard::from_squares(&[B8]));
    assert_eq!(attacks(D7, Side::Black), BitBoard::from_squares(&[C6, E6]));
    assert_eq!(attacks(A2, Side::Black), BitBoard::from_squares(&[B1]));
}

#[test]
fn gen_moves_reads_tables() {
    let gen = LeapingPiecesMoveGen::new();
    assert_eq!(gen.gen_moves(Piece::Knight, A8, Side::White), BitBoard::from_squares(&[B6, C7]));
    assert_eq!(gen.gen_moves(Piece::King, A8, Side::Black), BitBoard::from_squares(&[A7, B7, B8]));
    // the pawn entry is the intersection of the push and the attack tables
    assert_eq!(gen.gen_moves(Piece::Pawn, D2, Side::White), BitBoard::from_squares(&[]));
}

#[test]
fn shifts_drop_paths_that_leave_the_board() {
    let paths = vec![vec![Direction::West], vec![Direction::North, Direction::North], vec![Direction::East, Direction::South]];
    assert_eq!(BitBoard::from_square_shifts(H8, &paths), BitBoard::from_squares(&[G8]));
    assert_eq!(BitBoard::from_square_shifts(A7, &paths), BitBoard::from_squares(&[B6]));
    assert_eq!(BitBoard::from_square_shifts(B2, &paths), BitBoard::from_squares(&[A2, B4, C1]));
}

#[test]
fn attack_tables_are_symmetric() {
    let gen = LeapingPiecesMoveGen::new();
    for i in 0..64u8 {
        for j in 0..64u8 {
            let (si, sj) = (Square::from_index(i), Square::from_index(j));
            assert_eq!(
                gen.king_atks.get_bitboard(si).is_piece_at(&sj),
                gen.king_atks.get_bitboard(sj).is_piece_at(&si)
            );
            assert_eq!(
                gen.knight_atks.get_bitboard(si).is_piece_at(&sj),
                gen.knight_atks.get_bitboard(sj).is_piece_at(&si)
            );
            if (8..56).contains(&i) && (8..56).contains(&j) {
                assert_eq!(
                    gen.pawn_atks.white.get_bitboard(si).is_piece_at(&sj),
                    gen.pawn_atks.black.get_bitboard(sj).is_piece_at(&si)
                );
            }
        }
        for side in [Side::White, Side::Black] {
            assert_eq!(gen.gen_moves(Piece::Pawn, Square::from_index(i), side), BitBoard::empty());
        }
    }
    assert!(gen.knight_atks.get_bitboard(B1).is_piece_at(&D2));
    assert!(gen.knight_atks.get_bitboard(D2).is_piece_at(&B1));
}

fn count(bb: BitBoard) -> usize {
    (0..64u8).filter(|&i| bb.is_piece_at(&Square::from_index(i))).count()
}

#[test]
fn calc_tables_called_directly() {
    let knights = calc_knight_atks();
    let kings = calc_king_atks();
    let pushes = calc_pawn_pushes();
    let atks = calc_pawn_atks();
    assert_eq!(knights.get_bitboard(D4), BitBoard::from_squares(&[B5, C6, E6, F5, B3, C2, E2, F3]));
    assert_eq!(kings.get_bitboard(C1), BitBoard::from_squares(&[B1, B2, C2, D2, D1]));
    assert_eq!(pushes.get_square_database(Side::White).get_bitboard(D2), BitBoard::from_squares(&[D3, D4]));
    assert_eq!(pushes.get_square_database(Side::Black).get_bitboard(G1), BitBoard::from_squares(&[]));
    assert_eq!(atks.get_square_database(Side::White).get_bitboard(A7), BitBoard::from_squares(&[B8]));
    assert_eq!(atks.get_square_database(Side::Black).get_bitboard(D7), BitBoard::from_squares(&[C6, E6]));
    for i in 0..64u8 {
        let sq = Square::from_index(i);
        let (f, r) = (i % 8, i / 8);
        let edge_f = f == 0 || f == 7;
        let edge_r = r == 0 || r == 7;
        let want_king = (if edge_f { 2 } else { 3 }) * (if edge_r { 2 } else { 3 }) - 1;
        assert_eq!(count(kings.get_bitboard(sq)), want_king);
        let n = count(knights.get_bitboard(sq));
        assert!((2..=8).contains(&n));
        assert!(!kings.get_bitboard(sq).is_piece_at(&sq));
        assert!(!knights.get_bitboard(sq).is_piece_at(&sq));
    }
    assert_eq!(count(kings.get_bitboard(A1)), 3);
    assert_eq!(count(kings.get_bitboard(A4)), 5);
    assert_eq!(count(kings.get_bitboard(E4)), 8);
    assert_eq!(count(knights.get_bitboard(A1)), 2);
    assert_eq!(count(knights.get_bitboard(E4)), 8);
}

#[test]
fn bitand_is_intersection() {
    let a = BitBoard::from_squares(&[A1, B2, C3]);
    let b = BitBoard::from_squares(&[B2, C3, D4]);
    assert_eq!(a & b, BitBoard::from_squares(&[B2, C3]));
}

#[test]
fn squares_are_ordered_by_index() {
    assert!(Square::A8 > Square::H7);
    assert!(Square::H1 < Square::A2);
    assert!(Square::A1 < Square::H8);
}
