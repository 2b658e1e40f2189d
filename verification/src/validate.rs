use vstd::prelude::*;

use crate::level::{
    is_insomniac, is_odd_one_out, mii_cap, Level, RuleConfig, FIND_FAVORITE, GLOBAL_MII_CAP,
    LOW_CAP_MAP, PICK_FAVORITE,
};

verus! {

/// One advisory finding of the validation pass. Warnings never change the
/// table and never abort a conversion.
#[derive(Clone, Copy, PartialEq, Eq, Structural, Debug)]
pub enum Warning {
    /// A "pick your favorite" level while an earlier pairing is still open.
    DuplicatePickFavorite { index: usize },
    /// A "find your favorite" level with no pairing open.
    UnmatchedFindFavorite { index: usize },
    /// An objective that only functions with the named behavior codes, set to
    /// another one. The insomniac family requires behavior 0, given here as
    /// both required codes.
    IncompatibleBehavior { index: usize, required_a: u32, required_b: u32, actual: u32 },
    /// More Miis than this level's environment can hold.
    MiiCapExceeded { index: usize, cap: u32 },
    /// The table ended while a favorite pairing was still open.
    UnresolvedFavoritePairing,
}

impl Warning {
    /// Whether this warning is about the favorite-pairing discipline.
    pub open spec fn is_pairing(self) -> bool {
        match self {
            Warning::DuplicatePickFavorite { .. } => true,
            Warning::UnmatchedFindFavorite { .. } => true,
            Warning::UnresolvedFavoritePairing => true,
            _ => false,
        }
    }
}

/// The warnings one level earns, given whether a favorite pairing is open
/// when the scan reaches it: at most one objective warning, then at most one
/// Mii-cap warning.
pub open spec fn level_warnings(cfg: RuleConfig, l: Level, i: int, pending: bool) -> Seq<Warning> {
    let objective: Seq<Warning> = if l.level_type == PICK_FAVORITE && pending {
        seq![Warning::DuplicatePickFavorite { index: i as usize }]
    } else if l.level_type == FIND_FAVORITE && !pending {
        seq![Warning::UnmatchedFindFavorite { index: i as usize }]
    } else if is_odd_one_out(l.level_type) && l.behavior != cfg.odd_behavior_a && l.behavior
        != cfg.odd_behavior_b {
        seq![
            (Warning::IncompatibleBehavior {
                index: i as usize,
                required_a: cfg.odd_behavior_a,
                required_b: cfg.odd_behavior_b,
                actual: l.behavior,
            }),
        ]
    } else if is_insomniac(l.level_type) && l.behavior != 0 {
        seq![
            (Warning::IncompatibleBehavior {
                index: i as usize,
                required_a: 0,
                required_b: 0,
                actual: l.behavior,
            }),
        ]
    } else {
        Seq::empty()
    };
    let cap = mii_cap(cfg.mii_cap_low, l.map);
    if l.num_miis > cap {
        objective + seq![Warning::MiiCapExceeded { index: i as usize, cap }]
    } else {
        objective
    }
}

/// How one level moves the pairing accumulator: a pick opens a pairing when
/// none is open, a find closes the open one, everything else leaves it alone.
pub open spec fn next_pending(l: Level, pending: bool) -> bool {
    if l.level_type == PICK_FAVORITE && !pending {
        true
    } else if l.level_type == FIND_FAVORITE && pending {
        false
    } else {
        pending
    }
}

/// The warnings and the pairing accumulator after scanning the first `i`
/// levels of `t`, left to right, starting with no pairing open.
pub open spec fn scan_prefix(cfg: RuleConfig, t: Seq<Level>, i: int) -> (Seq<Warning>, bool)
    decreases i,
{
    if i <= 0 {
        (Seq::empty(), false)
    } else {
        let (w, p) = scan_prefix(cfg, t, i - 1);
        (w + level_warnings(cfg, t[i - 1], i - 1, p), next_pending(t[i - 1], p))
    }
}

/// Every warning of the whole table: the scan's findings, then one
/// `UnresolvedFavoritePairing` if the table ends with a pairing open.
pub open spec fn validate_spec(cfg: RuleConfig, t: Seq<Level>) -> Seq<Warning> {
    let (w, p) = scan_prefix(cfg, t, t.len() as int);
    if p {
        w.push(Warning::UnresolvedFavoritePairing)
    } else {
        w
    }
}

/// Scans a table and reports every structural warning, in table order; the
/// table itself is never touched.
pub fn validate(cfg: &RuleConfig, levels: &Vec<Level>) -> (r: Vec<Warning>)
    ensures
        r@ == validate_spec(*cfg, levels@),
{
    let mut warnings: Vec<Warning> = Vec::new();
    let mut pending: bool = false;
    let mut i: usize = 0;
    while i < levels.len()
        invariant
            i <= levels@.len(),
            (warnings@, pending) == scan_prefix(*cfg, levels@, i as int),
        decreases levels@.len() - i,
    {
        let ghost w_in = warnings@;
        let ghost p_in = pending;
        let l = levels[i];
        if l.level_type == PICK_FAVORITE {
            if pending {
                warnings.push(Warning::DuplicatePickFavorite { index: i });
            } else {
                pending = true;
            }
        } else if l.level_type == FIND_FAVORITE {
            if pending {
                pending = false;
            } else {
                warnings.push(Warning::UnmatchedFindFavorite { index: i });
            }
        } else if (l.level_type == 9 || l.level_type == 10 || l.level_type == 11) && l.behavior
            != cfg.odd_behavior_a && l.behavior != cfg.odd_behavior_b {
            warnings.push(
                Warning::IncompatibleBehavior {
                    index: i,
                    required_a: cfg.odd_behavior_a,
                    required_b: cfg.odd_behavior_b,
                    actual: l.behavior,
                },
            );
        } else if (l.level_type == 17 || l.level_type == 18 || l.level_type == 19) && l.behavior
            != 0 {
            warnings.push(
                Warning::IncompatibleBehavior {
                    index: i,
                    required_a: 0,
                    required_b: 0,
                    actual: l.behavior,
                },
            );
        }
        let cap = if l.map == LOW_CAP_MAP {
            cfg.mii_cap_low
        } else {
            GLOBAL_MII_CAP
        };
        if l.num_miis > cap {
            warnings.push(Warning::MiiCapExceeded { index: i, cap });
        }
        proof {
            assert(warnings@ =~= w_in + level_warnings(*cfg, levels@[i as int], i as int, p_in));
            assert(pending == next_pending(levels@[i as int], p_in));
        }
        i = i + 1;
    }
    if pending {
        warnings.push(Warning::UnresolvedFavoritePairing);
    }
    warnings
}

} // verus!
