use vstd::prelude::*;

use crate::constrained::{
    intersect_result_spec, strictly_sorted, ConstrainedSet, ConstrainedValue,
};
use crate::level::{
    Level, RuleConfig, FIND_FAVORITE, GLOBAL_MII_CAP, LOW_CAP_MAP, MAP_CODES, PICK_FAVORITE,
};
use crate::rng::{chacha8_word, coin, draw_coin, draw_in, uniform_in};

use crate::codec::encode_table_spec;
use crate::constrained::lemma_intersect_membership;
use crate::level::mii_cap;
use crate::validate::{level_warnings, next_pending, scan_prefix, validate_spec, Warning};

verus! {

// The camera and scene bounds of the rule chain, as IEEE-754 single-precision
// bit patterns. For two negative values the bit-pattern order reverses the
// numeric order, so a bit interval whose ends are negative covers exactly the
// numeric interval between them, read backwards.
/// Bit pattern of -135.0, the nearest the maximum zoom-out may sit.
pub const ZOOM_OUT_NEAR_BITS: u32 = 0xC3070000;

/// Bit pattern of -406.0, the farthest the maximum zoom-out may sit.
pub const ZOOM_OUT_FAR_BITS: u32 = 0xC3CB0000;

/// Bit pattern of -22.0, the nearest the maximum zoom-in may sit.
pub const ZOOM_IN_NEAR_BITS: u32 = 0xC1B00000;

/// Bit pattern of -135.0, the farthest the maximum zoom-in may sit.
pub const ZOOM_IN_FAR_BITS: u32 = 0xC3070000;

/// Bit pattern of 38.0, the dimmest a non-disabled darkness effect renders.
pub const DARKNESS_MIN_BITS: u32 = 0x42180000;

/// Bit pattern of 90.0, the strongest darkness effect that stays playable.
pub const DARKNESS_MAX_BITS: u32 = 0x42B40000;

/// Bit pattern of 1.35, the smallest head size.
pub const HEAD_SIZE_MIN_BITS: u32 = 0x3FACCCCD;

/// Bit pattern of 3.5, the largest head size.
pub const HEAD_SIZE_MAX_BITS: u32 = 0x40600000;

/// Which field a failed rule was narrowing.
#[derive(Clone, Copy, PartialEq, Eq, Structural, Debug)]
pub enum FieldId {
    NumMiis,
    Behavior,
}

/// Which rule of the chain reported the failure.
#[derive(Clone, Copy, PartialEq, Eq, Structural, Debug)]
pub enum RuleId {
    /// The floor on `num_miis` contradicted the global ceiling.
    MiiFloor,
    /// The environment's Mii ceiling fell below the floor.
    MiiCeiling,
    /// No behavior code survived the odd-one-out compatibility rule.
    OddOneOutBehavior,
    /// No behavior code survived the insomniac compatibility rule.
    InsomniacBehavior,
}

/// A fatal generation failure: two rules of the chain contradicted each
/// other, at this level, on this field. No partial table is ever produced.
#[derive(Clone, Copy, PartialEq, Eq, Structural, Debug)]
pub struct RandomizationFailure {
    /// The level being generated when the rules clashed.
    pub index: usize,
    /// The field whose domain was being narrowed.
    pub field: FieldId,
    /// The rule whose narrowing failed.
    pub rule: RuleId,
}

/// All behavior codes, the domain every level starts from.
pub open spec fn full_behaviors() -> Seq<u32> {
    seq![0u32, 1u32, 2u32, 3u32, 4u32, 5u32, 6u32]
}

/// Where the stream word `w` lands in the type domain `1..=21` with the one
/// code `avoid` left out: a re-draw after a draw the pairing discipline
/// refused.
pub open spec fn redraw_avoiding(w: u32, avoid: u32) -> u32 {
    let t = uniform_in(w, 1, 20);
    if t >= avoid {
        (t + 1) as u32
    } else {
        t
    }
}

/// The level type the engine decides at stream position `k`, and the pairing
/// accumulator and stream position after it. The last level closes an open
/// pairing by force and never opens one. An earlier level draws from the full
/// type domain; a 6 while a pairing is already open, or a 7 while none is,
/// is re-drawn once with that code left out, so at most one pairing is open
/// at a time and none is ever closed unopened.
pub open spec fn decide_type_spec(seed: u64, k: int, pending: bool, last: bool) -> (
    u32,
    bool,
    int,
) {
    if last {
        if pending {
            (FIND_FAVORITE, false, k)
        } else {
            let t = uniform_in(chacha8_word(seed, k as u64), 1, 19);
            (
                if t > 5 {
                    (t + 2) as u32
                } else {
                    t
                },
                false,
                k + 1,
            )
        }
    } else {
        let t = uniform_in(chacha8_word(seed, k as u64), 1, 21);
        if t == PICK_FAVORITE && pending {
            let t2 = redraw_avoiding(chacha8_word(seed, (k + 1) as u64), PICK_FAVORITE);
            if t2 == FIND_FAVORITE {
                (FIND_FAVORITE, false, k + 2)
            } else {
                (t2, pending, k + 2)
            }
        } else if t == PICK_FAVORITE {
            (PICK_FAVORITE, true, k + 1)
        } else if t == FIND_FAVORITE && pending {
            (FIND_FAVORITE, false, k + 1)
        } else if t == FIND_FAVORITE {
            let t2 = redraw_avoiding(chacha8_word(seed, (k + 1) as u64), FIND_FAVORITE);
            if t2 == PICK_FAVORITE {
                (PICK_FAVORITE, true, k + 2)
            } else {
                (t2, pending, k + 2)
            }
        } else {
            (t, pending, k + 1)
        }
    }
}

/// The engine's Mii-count domain for the given environment: the full
/// non-negative range up to the global cap, floored by the configured
/// minimum, then capped by the environment's ceiling. Either rule may
/// conflict under an overridden configuration.
pub open spec fn mii_domain_spec(cfg: RuleConfig, map: u32) -> Result<ConstrainedValue, RuleId> {
    let base = ConstrainedValue::Bounded { min: 0, max: GLOBAL_MII_CAP };
    match ConstrainedValue::narrow_min_spec(base, cfg.mii_min) {
        Err(_) => Err(RuleId::MiiFloor),
        Ok(cv) => match ConstrainedValue::narrow_max_spec(
            cv,
            if map == LOW_CAP_MAP {
                cfg.mii_cap_low
            } else {
                cfg.mii_cap
            },
        ) {
            Err(_) => Err(RuleId::MiiCeiling),
            Ok(cv2) => Ok(cv2),
        },
    }
}

/// The engine's behavior domain for the given level type: all codes, cut down
/// by the objective-compatibility rules.
pub open spec fn behavior_domain_spec(cfg: RuleConfig, lt: u32) -> Result<Seq<u32>, RuleId> {
    if lt == 9 || lt == 10 || lt == 11 {
        match intersect_result_spec(
            full_behaviors(),
            seq![cfg.odd_behavior_a, cfg.odd_behavior_b],
        ) {
            Err(_) => Err(RuleId::OddOneOutBehavior),
            Ok(s) => Ok(s),
        }
    } else if lt == 17 || lt == 18 || lt == 19 {
        match intersect_result_spec(full_behaviors(), seq![0u32]) {
            Err(_) => Err(RuleId::InsomniacBehavior),
            Ok(s) => Ok(s),
        }
    } else {
        Ok(full_behaviors())
    }
}

/// One whole level of the engine: the type decision, the environment draw,
/// the rule chain over the constrained domains, then one sample per field
/// still undetermined, in the declaration order of the record layout. The
/// scene parameters with no empirical rule stay at a fixed neutral zero
/// rather than an arbitrary draw. Returns the level, the pairing accumulator
/// after it, and the next unused stream position.
pub open spec fn gen_level_spec(
    cfg: RuleConfig,
    seed: u64,
    k: int,
    pending: bool,
    last: bool,
    idx: int,
) -> Result<(Level, bool, int), RandomizationFailure> {
    let (lt, p2, k1) = decide_type_spec(seed, k, pending, last);
    let map = uniform_in(chacha8_word(seed, k1 as u64), 0, (MAP_CODES - 1) as u32);
    let k2 = k1 + 1;
    match mii_domain_spec(cfg, map) {
        Err(rule) => Err(
            RandomizationFailure { index: idx as usize, field: FieldId::NumMiis, rule },
        ),
        Ok(mii_cv) => match behavior_domain_spec(cfg, lt) {
            Err(rule) => Err(
                RandomizationFailure { index: idx as usize, field: FieldId::Behavior, rule },
            ),
            Ok(beh_set) => {
                let num = ConstrainedValue::sample_spec(mii_cv, seed, k2 as u64);
                let k3 = k2 + ConstrainedValue::draws(mii_cv);
                let beh = ConstrainedSet::sample_spec(beh_set, seed, k3 as u64);
                let k4 = k3 + 1;
                let zoom_out = uniform_in(
                    chacha8_word(seed, k4 as u64),
                    ZOOM_OUT_NEAR_BITS,
                    ZOOM_OUT_FAR_BITS,
                );
                let k5 = k4 + 1;
                let zoom_in = uniform_in(
                    chacha8_word(seed, k5 as u64),
                    ZOOM_IN_NEAR_BITS,
                    ZOOM_IN_FAR_BITS,
                );
                let k6 = k5 + 1;
                let heads = coin(chacha8_word(seed, k6 as u64));
                let darkness = if heads {
                    0u32
                } else {
                    uniform_in(
                        chacha8_word(seed, (k6 + 1) as u64),
                        DARKNESS_MIN_BITS,
                        DARKNESS_MAX_BITS,
                    )
                };
                let k7 = if heads {
                    k6 + 1
                } else {
                    k6 + 2
                };
                let head_size = uniform_in(
                    chacha8_word(seed, k7 as u64),
                    HEAD_SIZE_MIN_BITS,
                    HEAD_SIZE_MAX_BITS,
                );
                let k8 = k7 + 1;
                Ok(
                    (
                        Level {
                            num_miis: num,
                            behavior: beh,
                            level_type: lt,
                            map,
                            zoom_out_max: zoom_out,
                            zoom_in_max: zoom_in,
                            unk7: 0,
                            horiz_dist: 0,
                            vert_dist: 0,
                            darkness,
                            head_size,
                            unk12: 0,
                            unk13: 0,
                            unk14: 0,
                            unk15: 0,
                            unk16: 0,
                        },
                        p2,
                        k8,
                    ),
                )
            },
        },
    }
}

/// The first `i` levels of the table the engine generates for `seed`, with
/// the pairing accumulator and stream position after them; the first rule
/// conflict anywhere fails the whole run.
pub open spec fn gen_prefix_spec(cfg: RuleConfig, seed: u64, n: int, i: int) -> Result<
    (Seq<Level>, bool, int),
    RandomizationFailure,
>
    decreases i,
{
    if i <= 0 {
        Ok((Seq::empty(), false, 0))
    } else {
        match gen_prefix_spec(cfg, seed, n, i - 1) {
            Err(e) => Err(e),
            Ok((t, p, k)) => match gen_level_spec(cfg, seed, k, p, i == n, i - 1) {
                Err(e) => Err(e),
                Ok((lv, p2, k2)) => Ok((t.push(lv), p2, k2)),
            },
        }
    }
}

/// The whole table the engine generates for `seed` and length `n` — a
/// function of nothing else, which is the determinism contract.
pub open spec fn randomize_spec(cfg: RuleConfig, seed: u64, n: int) -> Result<
    Seq<Level>,
    RandomizationFailure,
> {
    match gen_prefix_spec(cfg, seed, n, n) {
        Ok((t, _, _)) => Ok(t),
        Err(e) => Err(e),
    }
}

fn full_behavior_codes() -> (r: Vec<u32>)
    ensures
        r@ == full_behaviors(),
{
    let mut v: Vec<u32> = Vec::new();
    v.push(0);
    v.push(1);
    v.push(2);
    v.push(3);
    v.push(4);
    v.push(5);
    v.push(6);
    proof {
        assert(v@ =~= full_behaviors());
    }
    v
}

fn pair_codes(a: u32, b: u32) -> (r: Vec<u32>)
    ensures
        r@ == seq![a, b],
{
    let mut v: Vec<u32> = Vec::new();
    v.push(a);
    v.push(b);
    proof {
        assert(v@ =~= seq![a, b]);
    }
    v
}

fn single_code(a: u32) -> (r: Vec<u32>)
    ensures
        r@ == seq![a],
{
    let mut v: Vec<u32> = Vec::new();
    v.push(a);
    proof {
        assert(v@ =~= seq![a]);
    }
    v
}

/// Draws a level type from the domain with the one code `avoid` left out.
fn draw_avoiding(seed: u64, k: u64, avoid: u32) -> (r: u32)
    ensures
        r == redraw_avoiding(chacha8_word(seed, k), avoid),
{
    let t = draw_in(seed, k, 1, 20);
    if t >= avoid {
        t + 1
    } else {
        t
    }
}

#[verifier::rlimit(100)]
fn gen_level(cfg: &RuleConfig, seed: u64, k: u64, pending: bool, last: bool, idx: usize) -> (r:
    Result<(Level, bool, u64), RandomizationFailure>)
    requires
        k + 16 <= u64::MAX,
    ensures
        match r {
            Ok(out) => gen_level_spec(*cfg, seed, k as int, pending, last, idx as int) == Ok::<
                (Level, bool, int),
                RandomizationFailure,
            >((out.0, out.1, out.2 as int)) && k <= out.2 <= k + 10,
            Err(e) => gen_level_spec(*cfg, seed, k as int, pending, last, idx as int) == Err::<
                (Level, bool, int),
                RandomizationFailure,
            >(e),
        },
{
    let ghost spec_step = decide_type_spec(seed, k as int, pending, last);
    let (lt, p2, k1): (u32, bool, u64) = if last {
        if pending {
            (FIND_FAVORITE, false, k)
        } else {
            let t = draw_in(seed, k, 1, 19);
            (
                if t > 5 {
                    t + 2
                } else {
                    t
                },
                false,
                k + 1,
            )
        }
    } else {
        let t = draw_in(seed, k, 1, 21);
        if t == PICK_FAVORITE && pending {
            let t2 = draw_avoiding(seed, k + 1, PICK_FAVORITE);
            if t2 == FIND_FAVORITE {
                (FIND_FAVORITE, false, k + 2)
            } else {
                (t2, pending, k + 2)
            }
        } else if t == PICK_FAVORITE {
            (PICK_FAVORITE, true, k + 1)
        } else if t == FIND_FAVORITE && pending {
            (FIND_FAVORITE, false, k + 1)
        } else if t == FIND_FAVORITE {
            let t2 = draw_avoiding(seed, k + 1, FIND_FAVORITE);
            if t2 == PICK_FAVORITE {
                (PICK_FAVORITE, true, k + 2)
            } else {
                (t2, pending, k + 2)
            }
        } else {
            (t, pending, k + 1)
        }
    };
    proof {
        assert(lt == spec_step.0 && p2 == spec_step.1 && k1 as int == spec_step.2);
    }
    let map = draw_in(seed, k1, 0, MAP_CODES - 1);
    let k2 = k1 + 1;
    let mut num_cv = ConstrainedValue::Bounded { min: 0, max: GLOBAL_MII_CAP };
    match num_cv.narrow_min(cfg.mii_min) {
        Err(_) => {
            return Err(
                RandomizationFailure { index: idx, field: FieldId::NumMiis, rule: RuleId::MiiFloor },
            );
        },
        Ok(()) => {},
    }
    let cap = if map == LOW_CAP_MAP {
        cfg.mii_cap_low
    } else {
        cfg.mii_cap
    };
    match num_cv.narrow_max(cap) {
        Err(_) => {
            return Err(
                RandomizationFailure {
                    index: idx,
                    field: FieldId::NumMiis,
                    rule: RuleId::MiiCeiling,
                },
            );
        },
        Ok(()) => {},
    }
    proof {
        assert(mii_domain_spec(*cfg, map) == Ok::<ConstrainedValue, RuleId>(num_cv));
    }
    let mut beh_set = {
        let codes = full_behavior_codes();
        proof {
            assert(strictly_sorted(full_behaviors()));
        }
        ConstrainedSet::new(codes.as_slice())
    };
    if lt == 9 || lt == 10 || lt == 11 {
        let keep = pair_codes(cfg.odd_behavior_a, cfg.odd_behavior_b);
        match beh_set.intersect(keep.as_slice()) {
            Err(_) => {
                return Err(
                    RandomizationFailure {
                        index: idx,
                        field: FieldId::Behavior,
                        rule: RuleId::OddOneOutBehavior,
                    },
                );
            },
            Ok(()) => {},
        }
    } else if lt == 17 || lt == 18 || lt == 19 {
        let keep = single_code(0);
        match beh_set.intersect(keep.as_slice()) {
            Err(_) => {
                return Err(
                    RandomizationFailure {
                        index: idx,
                        field: FieldId::Behavior,
                        rule: RuleId::InsomniacBehavior,
                    },
                );
            },
            Ok(()) => {},
        }
    }
    proof {
        assert(behavior_domain_spec(*cfg, lt) == Ok::<Seq<u32>, RuleId>(beh_set@));
        assert(beh_set@.len() > 0);
    }
    let (num, k3) = num_cv.sample(seed, k2);
    let (beh, k4) = match beh_set.sample(seed, k3) {
        Ok(p) => p,
        Err(_) => {
            // The rule chain already rejected an empty behavior domain, so a
            // sample cannot find one.
            proof {
                assert(false);
            }
            return Err(
                RandomizationFailure { index: idx, field: FieldId::Behavior, rule: RuleId::MiiFloor },
            );
        },
    };
    let zoom_out_cv = ConstrainedValue::Bounded { min: ZOOM_OUT_NEAR_BITS, max: ZOOM_OUT_FAR_BITS };
    let (zoom_out, k5) = zoom_out_cv.sample(seed, k4);
    let zoom_in_cv = ConstrainedValue::Bounded { min: ZOOM_IN_NEAR_BITS, max: ZOOM_IN_FAR_BITS };
    let (zoom_in, k6) = zoom_in_cv.sample(seed, k5);
    // Half the levels disable the darkness effect outright; the rest draw it
    // from its playable span.
    let dark_cv = if draw_coin(seed, k6) {
        ConstrainedValue::Exact(0)
    } else {
        ConstrainedValue::Bounded { min: DARKNESS_MIN_BITS, max: DARKNESS_MAX_BITS }
    };
    let (darkness, k7) = dark_cv.sample(seed, k6 + 1);
    let head_cv = ConstrainedValue::Bounded { min: HEAD_SIZE_MIN_BITS, max: HEAD_SIZE_MAX_BITS };
    let (head_size, k8) = head_cv.sample(seed, k7);
    let level = Level {
        num_miis: num,
        behavior: beh,
        level_type: lt,
        map,
        zoom_out_max: zoom_out,
        zoom_in_max: zoom_in,
        unk7: 0,
        horiz_dist: 0,
        vert_dist: 0,
        darkness,
        head_size,
        unk12: 0,
        unk13: 0,
        unk14: 0,
        unk15: 0,
        unk16: 0,
    };
    Ok((level, p2, k8))
}

/// Once a prefix has failed, every longer prefix reports that same failure.
proof fn lemma_prefix_error_persists(cfg: RuleConfig, seed: u64, n: int, i: int, j: int)
    requires
        0 <= i <= j,
        gen_prefix_spec(cfg, seed, n, i) matches Err(_),
    ensures
        gen_prefix_spec(cfg, seed, n, j) == gen_prefix_spec(cfg, seed, n, i),
    decreases j - i,
{
    if j > i {
        lemma_prefix_error_persists(cfg, seed, n, i, j - 1);
    }
}

/// Synthesizes a whole table of `n` levels from nothing but the seed: per
/// level the engine decides the type and environment, runs the rule chain
/// over constrained domains, and samples what is still open, consuming the
/// seeded stream in one fixed order. The result — table or failure — is a
/// function of the configuration, the seed and the length alone, so a run
/// can always be reproduced. The first rule conflict aborts the whole run;
/// no partial table is returned. The bound on `n` only keeps the stream
/// position far from the end of its counter; the canonical table has 99
/// levels.
pub fn randomize(cfg: &RuleConfig, seed: u64, n: usize) -> (r: Result<
    Vec<Level>,
    RandomizationFailure,
>)
    requires
        n <= 0x0100_0000,
    ensures
        match r {
            Ok(t) => randomize_spec(*cfg, seed, n as int) == Ok::<Seq<Level>, RandomizationFailure>(
                t@,
            ),
            Err(e) => randomize_spec(*cfg, seed, n as int) == Err::<
                Seq<Level>,
                RandomizationFailure,
            >(e),
        },
{
    let mut table: Vec<Level> = Vec::new();
    let mut pending: bool = false;
    let mut k: u64 = 0;
    let mut i: usize = 0;
    while i < n
        invariant
            i <= n,
            n <= 0x0100_0000,
            k <= 10 * i,
            gen_prefix_spec(*cfg, seed, n as int, i as int) == Ok::<
                (Seq<Level>, bool, int),
                RandomizationFailure,
            >((table@, pending, k as int)),
        decreases n - i,
    {
        let last = i == n - 1;
        match gen_level(cfg, seed, k, pending, last, i) {
            Ok((lv, p2, k2)) => {
                table.push(lv);
                pending = p2;
                k = k2;
            },
            Err(e) => {
                proof {
                    assert(gen_prefix_spec(*cfg, seed, n as int, i + 1) == Err::<
                        (Seq<Level>, bool, int),
                        RandomizationFailure,
                    >(e));
                    lemma_prefix_error_persists(*cfg, seed, n as int, i + 1, n as int);
                }
                return Err(e);
            },
        }
        i = i + 1;
    }
    Ok(table)
}

/// A bounded draw lands inside its inclusive span.
proof fn lemma_uniform_in_bounds(w: u32, lo: u32, hi: u32)
    requires
        lo <= hi,
    ensures
        lo <= uniform_in(w, lo, hi) <= hi,
{
    assert(0 <= (w as int) % (hi - lo + 1) < hi - lo + 1) by (nonlinear_arith)
        requires
            hi as int - lo as int + 1 > 0,
    ;
}

/// A sample of a nonempty set of codes is one of its codes.
proof fn lemma_set_sample_member(s: Seq<u32>, seed: u64, k: u64)
    requires
        s.len() > 0,
    ensures
        s.contains(ConstrainedSet::sample_spec(s, seed, k)),
{
    let w = chacha8_word(seed, k);
    assert(0 <= (w as int) % (s.len() as int) < s.len() as int) by (nonlinear_arith)
        requires
            s.len() as int > 0,
    ;
}

/// Every level the engine emits is clean: the validation pass finds nothing
/// to warn about in it, its pairing bookkeeping matches the validation scan's,
/// the last level always leaves no pairing open, and its Mii count respects
/// its environment's ceiling.
proof fn lemma_gen_level_props(
    cfg: RuleConfig,
    seed: u64,
    k: int,
    pending: bool,
    last: bool,
    idx: int,
)
    ensures
        gen_level_spec(cfg, seed, k, pending, last, idx) matches Ok(out) ==> ({
            &&& level_warnings(cfg, out.0, idx, pending) == Seq::<Warning>::empty()
            &&& out.1 == next_pending(out.0, pending)
            &&& (last ==> !out.1)
            &&& out.0.num_miis <= mii_cap(cfg.mii_cap_low, out.0.map)
        }),
{
    let r = gen_level_spec(cfg, seed, k, pending, last, idx);
    if r is Ok {
        let out = r->Ok_0;
        let lv = out.0;
        let (lt, p2, k1) = decide_type_spec(seed, k, pending, last);
        if last && !pending {
            lemma_uniform_in_bounds(chacha8_word(seed, k as u64), 1, 19);
        }
        if !last {
            lemma_uniform_in_bounds(chacha8_word(seed, k as u64), 1, 21);
            lemma_uniform_in_bounds(chacha8_word(seed, (k + 1) as u64), 1, 20);
        }
        assert(lt == PICK_FAVORITE ==> (!pending && p2));
        assert(lt == FIND_FAVORITE ==> (pending && !p2));
        assert((lt != PICK_FAVORITE && lt != FIND_FAVORITE) ==> p2 == pending);
        assert(last ==> !p2);
        let map = uniform_in(chacha8_word(seed, k1 as u64), 0, (MAP_CODES - 1) as u32);
        let k2 = k1 + 1;
        let mii_cv = match mii_domain_spec(cfg, map) {
            Ok(cv) => cv,
            Err(_) => arbitrary(),
        };
        let beh_set = match behavior_domain_spec(cfg, lt) {
            Ok(s) => s,
            Err(_) => arbitrary(),
        };
        let num = ConstrainedValue::sample_spec(mii_cv, seed, k2 as u64);
        let k3 = k2 + ConstrainedValue::draws(mii_cv);
        let beh = ConstrainedSet::sample_spec(beh_set, seed, k3 as u64);
        assert(lv.num_miis == num && lv.behavior == beh && lv.level_type == lt && lv.map == map);
        // The engine's ceiling never exceeds the environment's ceiling, so the
        // sampled count respects it whatever the configuration says.
        match mii_cv {
            ConstrainedValue::Bounded { min, max } => {
                lemma_uniform_in_bounds(chacha8_word(seed, k2 as u64), min, max);
                assert(max <= mii_cap(cfg.mii_cap_low, map));
            },
            ConstrainedValue::Exact(_) => {
                // Narrowing a bounded domain never collapses it to an exact
                // value by itself.
                assert(false);
            },
        }
        // The sampled behavior sits in the narrowed domain, which the
        // compatibility rules cut down to exactly the codes the objective
        // functions with.
        assert(beh_set.len() > 0);
        lemma_set_sample_member(beh_set, seed, k3 as u64);
        if lt == 9 || lt == 10 || lt == 11 {
            lemma_intersect_membership(
                full_behaviors(),
                seq![cfg.odd_behavior_a, cfg.odd_behavior_b],
            );
            assert(seq![cfg.odd_behavior_a, cfg.odd_behavior_b].contains(beh));
            let j = choose|j: int|
                0 <= j < 2 && seq![cfg.odd_behavior_a, cfg.odd_behavior_b][j] == beh;
            assert(beh == cfg.odd_behavior_a || beh == cfg.odd_behavior_b);
        }
        if lt == 17 || lt == 18 || lt == 19 {
            lemma_intersect_membership(full_behaviors(), seq![0u32]);
            assert(seq![0u32].contains(beh));
            let j = choose|j: int| 0 <= j < 1 && seq![0u32][j] == beh;
            assert(beh == 0);
        }
        assert(level_warnings(cfg, lv, idx, pending) == Seq::<Warning>::empty());
        assert(p2 == next_pending(lv, pending));
    }
}

/// The scan of a prefix reads nothing past the prefix.
proof fn lemma_scan_prefix_agrees(cfg: RuleConfig, t1: Seq<Level>, t2: Seq<Level>, i: int)
    requires
        forall|j: int| 0 <= j < i ==> t1[j] == t2[j],
    ensures
        scan_prefix(cfg, t1, i) == scan_prefix(cfg, t2, i),
    decreases i,
{
    if i > 0 {
        lemma_scan_prefix_agrees(cfg, t1, t2, i - 1);
    }
}

/// Every prefix the engine generates scans clean: no warnings, the scan's
/// pairing accumulator equal to the engine's, every Mii count within its
/// ceiling, and no pairing open once the whole table is out.
proof fn lemma_prefix_clean(cfg: RuleConfig, seed: u64, n: int, i: int)
    requires
        0 <= i <= n,
    ensures
        gen_prefix_spec(cfg, seed, n, i) matches Ok(out) ==> ({
            &&& out.0.len() == i
            &&& scan_prefix(cfg, out.0, i) == (Seq::<Warning>::empty(), out.1)
            &&& (i == n ==> !out.1)
            &&& forall|j: int|
                0 <= j < i ==> #[trigger] out.0[j].num_miis <= mii_cap(
                    cfg.mii_cap_low,
                    out.0[j].map,
                )
        }),
    decreases i,
{
    if i > 0 {
        lemma_prefix_clean(cfg, seed, n, i - 1);
        let r = gen_prefix_spec(cfg, seed, n, i);
        if r is Ok {
            let out = r->Ok_0;
            let prev = gen_prefix_spec(cfg, seed, n, i - 1);
            let (t0, p0, k0) = prev->Ok_0;
            lemma_gen_level_props(cfg, seed, k0, p0, i == n, i - 1);
            let step = gen_level_spec(cfg, seed, k0, p0, i == n, i - 1);
            let (lv, p2, k2) = step->Ok_0;
            let t = t0.push(lv);
            assert(out.0 == t && out.1 == p2);
            lemma_scan_prefix_agrees(cfg, t, t0, i - 1);
            assert(t[i - 1] == lv);
            assert((Seq::<Warning>::empty() + Seq::<Warning>::empty()) =~= Seq::<
                Warning,
            >::empty());
            assert(scan_prefix(cfg, t, i) == (Seq::<Warning>::empty(), p2));
        }
    }
}

/// An engine-produced table passes the validation pass with nothing at all to
/// report: in particular the favorite-pairing discipline holds — no duplicate
/// pick, no unmatched find, no pairing left open at the end — and no level
/// breaks its behavior-compatibility or Mii-ceiling rules.
pub proof fn lemma_engine_validates_clean(cfg: RuleConfig, seed: u64, n: int)
    ensures
        randomize_spec(cfg, seed, n) matches Ok(t) ==> validate_spec(cfg, t) == Seq::<
            Warning,
        >::empty(),
{
    let r = randomize_spec(cfg, seed, n);
    if r is Ok {
        if n >= 0 {
            lemma_prefix_clean(cfg, seed, n, n);
        }
    }
}

/// Cap invariant: in an engine-produced table no level holds more Miis than
/// its environment's ceiling, whatever rule revision is in force.
pub proof fn lemma_engine_mii_cap(cfg: RuleConfig, seed: u64, n: int)
    ensures
        randomize_spec(cfg, seed, n) matches Ok(t) ==> forall|i: int|
            0 <= i < t.len() ==> #[trigger] t[i].num_miis <= mii_cap(cfg.mii_cap_low, t[i].map),
{
    let r = randomize_spec(cfg, seed, n);
    if r is Ok {
        if n >= 0 {
            lemma_prefix_clean(cfg, seed, n, n);
        }
    }
}

/// Determinism: the engine's output is a function of the rule revision, the
/// seed and the length alone, so two runs that share them produce one table —
/// and, record by record, byte-identical binary encodings.
pub proof fn lemma_engine_deterministic(
    cfg: RuleConfig,
    seed: u64,
    n: int,
    t1: Seq<Level>,
    t2: Seq<Level>,
)
    ensures
        (randomize_spec(cfg, seed, n) == Ok::<Seq<Level>, RandomizationFailure>(t1)
            && randomize_spec(cfg, seed, n) == Ok::<Seq<Level>, RandomizationFailure>(t2)) ==> (t1
            == t2 && encode_table_spec(t1) == encode_table_spec(t2)),
{
}

} // verus!
