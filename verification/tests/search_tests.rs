use chess::perft::PerftDepthResult;
use chess::search::{moves_to_string, Move, SearchParams};
use chess::square::Square::{D2, D6, E2, E4, E6, F4, G3};

#[test]
fn move_texts() {
    assert_eq!(Move::new(E2, E4).to_string(), "e2e4");
    assert_eq!(moves_to_string(&[]), "");
    assert_eq!(moves_to_string(&[Move::new(F4, G3)]), "f4g3");
    assert_eq!(moves_to_string(&[Move::new(F4, G3), Move::new(E6, D6), Move::new(D2, D6)]), "f4g3 e6d6 d2d6");
}

#[test]
fn search_limits() {
    let params = SearchParams { max_nodes: Some(10), move_time_msec: Some(500), ..SearchParams::default() };
    assert!(!params.limit_reached(false, 9, 499));
    assert!(params.limit_reached(true, 0, 0));
    assert!(params.limit_reached(false, 10, 0));
    assert!(params.limit_reached(false, 0, 500));
    assert!(!SearchParams::default().limit_reached(false, u64::MAX, u128::MAX));
}

#[test]
fn search_leaf_depths() {
    let params = SearchParams { max_depth: Some(3), ..SearchParams::default() };
    assert!(params.is_leaf_depth(2));
    assert!(!params.is_leaf_depth(1));
    assert!(!params.is_leaf_depth(3));
    let mate = SearchParams { mate: Some(2), ..SearchParams::default() };
    assert!(mate.is_leaf_depth(1));
    assert!(!mate.is_leaf_depth(0));
    assert!(!SearchParams { max_depth: Some(0), ..SearchParams::default() }.is_leaf_depth(u64::MAX));
}

#[test]
fn perft_depth_result() {
    let r = PerftDepthResult::new(20, 1, 2, 3, 4, 5, 6, 7, 8);
    assert_eq!(r.tot, 20);
    assert_eq!(r.checkmates, 8);
    assert_eq!(r.double_checks, 7);
    assert_eq!(PerftDepthResult::empty(), PerftDepthResult::new(0, 0, 0, 0, 0, 0, 0, 0, 0));
}

#[test]
fn stop_flag_wins_past_the_node_limit() {
    let params = SearchParams { max_nodes: Some(10), ..SearchParams::default() };
    assert!(params.limit_reached(true, 20, 0));
    assert!(!params.limit_reached(false, 5, u128::MAX));
}
