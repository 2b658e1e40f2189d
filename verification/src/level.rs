use vstd::prelude::*;

verus! {

/// One game level's configuration. The twelve scene/camera parameters are
/// IEEE-754 single-precision values; this library stores and transports them
/// as their exact 32-bit patterns, so that every record round-trips bit for
/// bit, non-finite values included.
#[derive(Clone, Copy, PartialEq, Eq, Structural, Debug)]
pub struct Level {
    pub num_miis: u32,
    pub behavior: u32,
    pub level_type: u32,
    pub map: u32,
    pub zoom_out_max: u32,
    pub zoom_in_max: u32,
    pub unk7: u32,
    pub horiz_dist: u32,
    pub vert_dist: u32,
    pub darkness: u32,
    pub head_size: u32,
    pub unk12: u32,
    pub unk13: u32,
    pub unk14: u32,
    pub unk15: u32,
    pub unk16: u32,
}

/// Objective code of a "pick your favorite" level: it opens a favorite
/// pairing that a later `FIND_FAVORITE` level must close.
pub const PICK_FAVORITE: u32 = 6;

/// Objective code of a "find your favorite" level: it closes the pairing
/// opened by the nearest preceding `PICK_FAVORITE` level.
pub const FIND_FAVORITE: u32 = 7;

/// The environment whose Mii ceiling is far lower than everywhere else.
pub const LOW_CAP_MAP: u32 = 4;

/// Number of distinct environment codes; legal codes are `0..=4`.
pub const MAP_CODES: u32 = 5;

/// The hard ceiling on `num_miis` that no environment may exceed.
pub const GLOBAL_MII_CAP: u32 = 99;

/// The empirical rule table, as versioned, overridable configuration: the
/// repository's successive rule revisions disagree on these numbers (the
/// odd-one-out behaviors were also given as 1 and 3, the Mii floor as 6 and
/// the ceiling as 99), so they are data, not constants, and callers may
/// supply another revision.
#[derive(Clone, Copy, PartialEq, Eq, Structural, Debug)]
pub struct RuleConfig {
    /// The fewest Miis the engine places in a level.
    pub mii_min: u32,
    /// The engine's Mii ceiling everywhere but the low-cap environment.
    pub mii_cap: u32,
    /// The Mii ceiling of the `LOW_CAP_MAP` environment.
    pub mii_cap_low: u32,
    /// One of the two behaviors the odd-one-out objectives require.
    pub odd_behavior_a: u32,
    /// The other behavior the odd-one-out objectives require.
    pub odd_behavior_b: u32,
}

impl RuleConfig {
    /// The latest revision of the empirical rules, used when the caller has
    /// no reason to override them.
    pub open spec fn latest_spec() -> RuleConfig {
        RuleConfig {
            mii_min: 4,
            mii_cap: 90,
            mii_cap_low: 40,
            odd_behavior_a: 1,
            odd_behavior_b: 4,
        }
    }

    /// Builds the latest rule revision.
    pub fn latest() -> (r: RuleConfig)
        ensures
            r == RuleConfig::latest_spec(),
    {
        RuleConfig { mii_min: 4, mii_cap: 90, mii_cap_low: 40, odd_behavior_a: 1, odd_behavior_b: 4 }
    }
}

/// The "find the odd Mii(s) out" objective family; these objectives only
/// function with a specific pair of behavior codes.
pub open spec fn is_odd_one_out(t: u32) -> bool {
    t == 9 || t == 10 || t == 11
}

/// The "find the insomniac" objective family; these objectives only function
/// with behavior code 0.
pub open spec fn is_insomniac(t: u32) -> bool {
    t == 17 || t == 18 || t == 19
}

/// The Mii-count ceiling of the given environment: one environment caps far
/// lower than the rest.
pub open spec fn mii_cap(low_cap: u32, map: u32) -> u32 {
    if map == LOW_CAP_MAP {
        low_cap
    } else {
        GLOBAL_MII_CAP
    }
}

} // verus!
