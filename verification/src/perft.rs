//! Counts of a move-path enumeration (perft), per depth.
use vstd::prelude::*;

verus! {

/// The counts of the positions found at one depth of a perft run, by kind of move.
#[derive(Clone, Copy, Debug, PartialEq, Eq, Structural)]
pub struct PerftDepthResult {
    pub tot: u64,
    pub captures: u64,
    pub en_passants: u64,
    pub castles: u64,
    pub promotions: u64,
    pub checks: u64,
    pub discovery_checks: u64,
    pub double_checks: u64,
    pub checkmates: u64,
}

impl PerftDepthResult {
    /// The counts given.
    pub fn new(
        tot: u64,
        captures: u64,
        en_passants: u64,
        castles: u64,
        promotions: u64,
        checks: u64,
        discovery_checks: u64,
        double_checks: u64,
        checkmates: u64,
    ) -> (r: Self)
        ensures
            r.tot == tot,
            r.captures == captures,
            r.en_passants == en_passants,
            r.castles == castles,
            r.promotions == promotions,
            r.checks == checks,
            r.discovery_checks == discovery_checks,
            r.double_checks == double_checks,
            r.checkmates == checkmates,
    {
        PerftDepthResult {
            tot,
            captures,
            en_passants,
            castles,
            promotions,
            checks,
            discovery_checks,
            double_checks,
            checkmates,
        }
    }

    /// All counts zero.
    pub fn empty() -> (r: PerftDepthResult)
        ensures
            r == PerftDepthResult::new_spec(0, 0, 0, 0, 0, 0, 0, 0, 0),
    {
        PerftDepthResult::new(0, 0, 0, 0, 0, 0, 0, 0, 0)
    }

    /// The counts given.
    pub open spec fn new_spec(
        tot: u64,
        captures: u64,
        en_passants: u64,
        castles: u64,
        promotions: u64,
        checks: u64,
        discovery_checks: u64,
        double_checks: u64,
        checkmates: u64,
    ) -> PerftDepthResult {
        PerftDepthResult {
            tot,
            captures,
            en_passants,
            castles,
            promotions,
            checks,
            discovery_checks,
            double_checks,
            checkmates,
        }
    }
}

} // verus!
