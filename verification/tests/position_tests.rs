use chess::bitboard::BitBoard;
use chess::fen::{from_fen, FenError};
use chess::position::{Piece, Position, Side};
use chess::square::Square;

#[test]
fn test_display() {
    let got = Position::start();
    let want = "RNBQKBNR\nPPPPPPPP\n........\n........\n........\n........\npppppppp\nrnbqkbnr";

    assert_eq!(got.to_string(), want);
}

#[test]
fn test_state_start() {
    let pos = Position::start();

    assert!(pos.state.castling_rights.white_king_side);
    assert!(pos.state.castling_rights.white_queen_side);
    assert!(pos.state.castling_rights.black_king_side);
    assert!(pos.state.castling_rights.black_queen_side);

    assert_eq!(pos.state.half_move_counter, 0);
    assert_eq!(pos.state.en_passant_target, None);
    assert_eq!(pos.state.to_move, Side::White);
}

#[test]
fn test_from_fen() -> Result<(), FenError> {
    let pos: Position = from_fen("1R2k3/2Q5/8/8/7p/8/5P1P/6K1 b - - 7 42")?;

    assert!(pos.state.en_passant_target.is_none());
    assert_eq!(pos.state.half_move_counter, 7);
    assert_eq!(pos.state.castling_rights.white_king_side, false);
    assert_eq!(pos.state.castling_rights.white_queen_side, false);
    assert_eq!(pos.state.castling_rights.black_king_side, false);
    assert_eq!(pos.state.castling_rights.black_queen_side, false);

    const PIECES_EXPECTED: [(Square, Piece, Side); 7] = [
        (Square::B8, Piece::Rook, Side::White),
        (Square::C7, Piece::Queen, Side::White),
        (Square::E8, Piece::King, Side::Black),
        (Square::F2, Piece::Pawn, Side::White),
        (Square::G1, Piece::King, Side::White),
        (Square::H4, Piece::Pawn, Side::Black),
        (Square::H2, Piece::Pawn, Side::White),
    ];

    for idx in 0..64u8 {
        let sq = Square::from_index(idx);
        let piece_here = PIECES_EXPECTED.iter().any(|(piece_sq, piece, side)| {
            if &sq == piece_sq {
                // Make sure the piece exists in the pieces bitboards
                let maybe_piece_side = pos.is_piece_at(piece_sq);
                assert!(maybe_piece_side.is_some());

                let (p, s) = maybe_piece_side.unwrap();
                assert_eq!(&p, piece);
                assert_eq!(&s, side);

                // Make sure the piece exists in the sides bitboards
                if side == &Side::White {
                    assert!(pos.sides.white.is_piece_at(&sq));
                    assert!(!pos.sides.black.is_piece_at(&sq));
                } else {
                    assert!(!pos.sides.white.is_piece_at(&sq));
                    assert!(pos.sides.black.is_piece_at(&sq));
                }

                true
            } else {
                false
            }
        });
        if !piece_here {
            assert!(pos.is_piece_at(&sq).is_none());
            assert!(!pos.sides.white.is_piece_at(&sq));
            assert!(!pos.sides.black.is_piece_at(&sq));
        }
    }
    Ok(())
}

#[test]
fn start_position_from_fen_matches_start() {
    let from_text = Position::from_fen("rnbqkbnr/pppppppp/8/8/8/8/PPPPPPPP/RNBQKBNR w KQkq - 0 1").unwrap();
    let start = Position::start();
    assert_eq!(from_text.to_string(), start.to_string());
    assert_eq!(from_text.state, start.state);
    assert_eq!(from_text.sides.white, start.sides.white);
    assert_eq!(from_text.sides.black, start.sides.black);
}

#[test]
fn fen_fields_are_read() {
    let pos = from_fen("4k3/8/8/3pP3/8/8/8/4K3 w Kq d6 12 30").unwrap();
    assert_eq!(pos.state.to_move, Side::White);
    assert_eq!(pos.state.half_move_counter, 12);
    assert_eq!(pos.state.en_passant_target, Some(Square::D6));
    assert!(pos.state.castling_rights.white_king_side);
    assert!(!pos.state.castling_rights.white_queen_side);
    assert!(!pos.state.castling_rights.black_king_side);
    assert!(pos.state.castling_rights.black_queen_side);
    assert_eq!(pos.is_piece_at(&Square::E5), Some((Piece::Pawn, Side::White)));
    assert_eq!(pos.is_piece_at(&Square::D5), Some((Piece::Pawn, Side::Black)));
    assert_eq!(
        pos.to_string(),
        "....K...\n........\n........\n........\n...pP...\n........\n........\n....k..."
    );
}

#[test]
fn fen_errors() {
    assert_eq!(from_fen("8/8/8/8/8/8/8/8 w - - 0").err(), Some(FenError::FieldCount));
    assert_eq!(from_fen("8/8/8/8/8/8/8/8  w - - 0 1").err(), Some(FenError::FieldCount));
    assert_eq!(from_fen("8/8/8/8/8/8/8 w - - 0 1").err(), Some(FenError::Placement));
    assert_eq!(from_fen("8/8/8/8/8/8/8/7 w - - 0 1").err(), Some(FenError::Placement));
    assert_eq!(from_fen("8/8/8/8/8/8/8/44 w - - 0 1").map(|p| p.to_string()).unwrap(),
        "........\n........\n........\n........\n........\n........\n........\n........");
    assert_eq!(from_fen("8/8/8/8/8/8/8/7x w - - 0 1").err(), Some(FenError::Placement));
    assert_eq!(from_fen("8/8/8/8/8/8/8/8 x - - 0 1").err(), Some(FenError::SideToMove));
    assert_eq!(from_fen("8/8/8/8/8/8/8/8 w KX - 0 1").err(), Some(FenError::Castling));
    assert_eq!(from_fen("8/8/8/8/8/8/8/8 w - i3 0 1").err(), Some(FenError::EnPassant));
    assert_eq!(from_fen("8/8/8/8/8/8/8/8 w - - 256 1").err(), Some(FenError::HalfMoveClock));
    assert_eq!(from_fen("8/8/8/8/8/8/8/8 w - - 255 1").unwrap().state.half_move_counter, 255);
    assert_eq!(from_fen("8/8/8/8/8/8/8/8 w - - 0 x").err(), Some(FenError::FullMoveNumber));
}

#[test]
fn bitboard_sets() {
    let bb = BitBoard::from_squares(&[Square::A1, Square::H8, Square::E4]);
    assert!(bb.is_piece_at(&Square::A1));
    assert!(bb.is_piece_at(&Square::H8));
    assert!(bb.is_piece_at(&Square::E4));
    assert!(!bb.is_piece_at(&Square::E5));
    assert_eq!(bb.0, 1u64 | (1u64 << 63) | (1u64 << 28));
    let other = BitBoard::from_squares(&[Square::E4, Square::E5]);
    assert_eq!(bb.intersection(&other), BitBoard::from_squares(&[Square::E4]));
    assert_eq!(bb.union(&other), BitBoard::from_squares(&[Square::A1, Square::H8, Square::E4, Square::E5]));
    assert_eq!(BitBoard::empty().0, 0);
}

#[test]
fn square_names() {
    assert_eq!(Square::E4.to_string(), "e4");
    assert_eq!(Square::A1.to_string(), "a1");
    assert_eq!(Square::H8.to_string(), "h8");
    assert_eq!(Square::from_index(12), Square::E2);
    assert_eq!(Square::G7.index(), 54);
}

#[test]
fn board_text_layout() {
    let pos = from_fen("r3k2r/8/8/8/8/8/8/R3K2R w KQkq - 0 1").unwrap();
    let text: Vec<char> = pos.to_string().chars().collect();
    assert_eq!(text.len(), 71);
    for i in 0..64usize {
        let expected = match pos.is_piece_at(&Square::from_index(i as u8)) {
            Some((p, Side::White)) => p.to_char().to_ascii_uppercase(),
            Some((p, Side::Black)) => p.to_char(),
            None => '.',
        };
        assert_eq!(text[i + i / 8], expected);
    }
    for r in 0..7usize {
        assert_eq!(text[9 * r + 8], '\n');
    }
    assert_eq!(text[0], 'R');
    assert_eq!(text[70], 'r');
}
