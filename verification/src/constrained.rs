use vstd::prelude::*;

use crate::rng::{chacha8_word, draw_in, uniform_in};

verus! {

/// Why a narrowing operation failed. Conflicting narrowing never silently
/// overwrites an earlier decision: it reports one of these instead.
#[derive(Clone, Copy, PartialEq, Eq, Structural, Debug)]
pub enum NarrowError {
    /// Two narrowing calls demanded incompatible values for one field.
    Conflict,
    /// A set operation would have left no legal code at all.
    EmptySet,
}

/// The legal domain of one numeric field as rules accumulate: either fully
/// determined, or an inclusive range of admissible values.
#[derive(Clone, Copy, PartialEq, Eq, Structural, Debug)]
pub enum ConstrainedValue {
    /// The field's value is fully determined.
    Exact(u32),
    /// The field may take any value of `min..=max`.
    Bounded { min: u32, max: u32 },
}

impl ConstrainedValue {
    /// A bounded domain is only meaningful while its ends are ordered.
    pub open spec fn wf(self) -> bool {
        match self {
            ConstrainedValue::Exact(_) => true,
            ConstrainedValue::Bounded { min, max } => min <= max,
        }
    }

    /// What raising the minimum to `v` does to the domain `cv`: the minimum
    /// only ever rises, and a demand above the maximum (or above an exact
    /// value) is a conflict.
    pub open spec fn narrow_min_spec(cv: ConstrainedValue, v: u32) -> Result<
        ConstrainedValue,
        NarrowError,
    > {
        match cv {
            ConstrainedValue::Exact(val) => if v > val {
                Err(NarrowError::Conflict)
            } else {
                Ok(cv)
            },
            ConstrainedValue::Bounded { min, max } => if v > max {
                Err(NarrowError::Conflict)
            } else if v > min {
                Ok(ConstrainedValue::Bounded { min: v, max })
            } else {
                Ok(cv)
            },
        }
    }

    /// What lowering the maximum to `v` does to the domain `cv`: symmetric to
    /// `narrow_min_spec`, the maximum only ever falls.
    pub open spec fn narrow_max_spec(cv: ConstrainedValue, v: u32) -> Result<
        ConstrainedValue,
        NarrowError,
    > {
        match cv {
            ConstrainedValue::Exact(val) => if v < val {
                Err(NarrowError::Conflict)
            } else {
                Ok(cv)
            },
            ConstrainedValue::Bounded { min, max } => if v < min {
                Err(NarrowError::Conflict)
            } else if v < max {
                Ok(ConstrainedValue::Bounded { min, max: v })
            } else {
                Ok(cv)
            },
        }
    }

    /// What collapsing the domain `cv` to the single value `v` does: a
    /// different exact value, or a value outside the current bounds, is a
    /// conflict.
    pub open spec fn set_exact_spec(cv: ConstrainedValue, v: u32) -> Result<
        ConstrainedValue,
        NarrowError,
    > {
        match cv {
            ConstrainedValue::Exact(val) => if val != v {
                Err(NarrowError::Conflict)
            } else {
                Ok(cv)
            },
            ConstrainedValue::Bounded { min, max } => if v < min || v > max {
                Err(NarrowError::Conflict)
            } else {
                Ok(ConstrainedValue::Exact(v))
            },
        }
    }

    /// Raises the effective minimum to `v`. On conflict the domain is left
    /// exactly as it was.
    pub fn narrow_min(&mut self, v: u32) -> (r: Result<(), NarrowError>)
        ensures
            match Self::narrow_min_spec(*old(self), v) {
                Ok(cv) => r == Ok::<(), NarrowError>(()) && *final (self) == cv,
                Err(e) => r == Err::<(), NarrowError>(e) && *final (self) == *old(self),
            },
            (*old(self) matches ConstrainedValue::Bounded { min, max } && v > max) ==> (r == Err::<
                (),
                NarrowError,
            >(NarrowError::Conflict) && *final (self) == *old(self)),
    {
        match *self {
            ConstrainedValue::Exact(val) => {
                if v > val {
                    Err(NarrowError::Conflict)
                } else {
                    Ok(())
                }
            },
            ConstrainedValue::Bounded { min, max } => {
                if v > max {
                    Err(NarrowError::Conflict)
                } else {
                    if v > min {
                        *self = ConstrainedValue::Bounded { min: v, max };
                    }
                    Ok(())
                }
            },
        }
    }

    /// Lowers the effective maximum to `v`. On conflict the domain is left
    /// exactly as it was.
    pub fn narrow_max(&mut self, v: u32) -> (r: Result<(), NarrowError>)
        ensures
            match Self::narrow_max_spec(*old(self), v) {
                Ok(cv) => r == Ok::<(), NarrowError>(()) && *final (self) == cv,
                Err(e) => r == Err::<(), NarrowError>(e) && *final (self) == *old(self),
            },
    {
        match *self {
            ConstrainedValue::Exact(val) => {
                if v < val {
                    Err(NarrowError::Conflict)
                } else {
                    Ok(())
                }
            },
            ConstrainedValue::Bounded { min, max } => {
                if v < min {
                    Err(NarrowError::Conflict)
                } else {
                    if v < max {
                        *self = ConstrainedValue::Bounded { min, max: v };
                    }
                    Ok(())
                }
            },
        }
    }

    /// Raises the minimum and lowers the maximum in one call.
    pub fn constrain(&mut self, new_min: u32, new_max: u32) -> (r: Result<(), NarrowError>)
        ensures
            match Self::narrow_min_spec(*old(self), new_min) {
                Ok(cv) => match Self::narrow_max_spec(cv, new_max) {
                    Ok(cv2) => r == Ok::<(), NarrowError>(()) && *final (self) == cv2,
                    Err(e) => r == Err::<(), NarrowError>(e) && *final (self) == cv,
                },
                Err(e) => r == Err::<(), NarrowError>(e) && *final (self) == *old(self),
            },
    {
        self.narrow_min(new_min)?;
        self.narrow_max(new_max)
    }

    /// Collapses the domain to exactly `v`. On conflict the domain is left
    /// exactly as it was.
    pub fn set_exact(&mut self, v: u32) -> (r: Result<(), NarrowError>)
        ensures
            match Self::set_exact_spec(*old(self), v) {
                Ok(cv) => r == Ok::<(), NarrowError>(()) && *final (self) == cv,
                Err(e) => r == Err::<(), NarrowError>(e) && *final (self) == *old(self),
            },
            (*old(self) matches ConstrainedValue::Bounded { min, max } && (v < min || v > max))
                ==> (r == Err::<(), NarrowError>(NarrowError::Conflict) && *final (self) == *old(
                self,
            )),
    {
        match *self {
            ConstrainedValue::Exact(val) => {
                if val != v {
                    Err(NarrowError::Conflict)
                } else {
                    Ok(())
                }
            },
            ConstrainedValue::Bounded { min, max } => {
                if v < min || v > max {
                    Err(NarrowError::Conflict)
                } else {
                    *self = ConstrainedValue::Exact(v);
                    Ok(())
                }
            },
        }
    }

    /// How many stream words one sample of the domain `cv` consumes.
    pub open spec fn draws(cv: ConstrainedValue) -> u64 {
        match cv {
            ConstrainedValue::Exact(_) => 0,
            ConstrainedValue::Bounded { .. } => 1,
        }
    }

    /// The value one sample of the domain `cv` yields at stream position `k`
    /// of `seed`: an exact value verbatim, a bounded one uniformly from its
    /// inclusive range.
    pub open spec fn sample_spec(cv: ConstrainedValue, seed: u64, k: u64) -> u32 {
        match cv {
            ConstrainedValue::Exact(v) => v,
            ConstrainedValue::Bounded { min, max } => uniform_in(chacha8_word(seed, k), min, max),
        }
    }

    /// Samples the domain at stream position `k` of `seed`, returning the
    /// value and the next unused stream position. An exact domain returns its
    /// value verbatim and consumes no draw, whatever the stream holds.
    pub fn sample(&self, seed: u64, k: u64) -> (r: (u32, u64))
        requires
            self.wf(),
            k < u64::MAX,
        ensures
            r.0 == Self::sample_spec(*self, seed, k),
            r.1 == k + Self::draws(*self),
            (*self matches ConstrainedValue::Exact(v) ==> r.0 == v),
            (*self matches ConstrainedValue::Bounded { min, max } ==> min <= r.0 <= max),
    {
        match *self {
            ConstrainedValue::Exact(v) => (v, k),
            ConstrainedValue::Bounded { min, max } => (draw_in(seed, k, min, max), k + 1),
        }
    }
}

/// Narrowing is idempotent: once a narrowing call has succeeded, repeating it
/// with the same value succeeds and changes nothing.
pub proof fn lemma_narrowing_idempotent(cv: ConstrainedValue, v: u32)
    ensures
        ConstrainedValue::narrow_min_spec(cv, v) matches Ok(cv2)
            ==> ConstrainedValue::narrow_min_spec(cv2, v) == Ok::<ConstrainedValue, NarrowError>(
            cv2,
        ),
        ConstrainedValue::narrow_max_spec(cv, v) matches Ok(cv2)
            ==> ConstrainedValue::narrow_max_spec(cv2, v) == Ok::<ConstrainedValue, NarrowError>(
            cv2,
        ),
        ConstrainedValue::set_exact_spec(cv, v) matches Ok(cv2)
            ==> ConstrainedValue::set_exact_spec(cv2, v) == Ok::<ConstrainedValue, NarrowError>(
            cv2,
        ),
{
}

/// Narrowing is monotonic: a successful call never lowers the minimum, never
/// raises the maximum, and never touches the opposite bound.
pub proof fn lemma_narrowing_monotonic(min: u32, max: u32, v: u32)
    ensures
        ConstrainedValue::narrow_min_spec(ConstrainedValue::Bounded { min, max }, v) matches Ok(cv2)
            ==> (cv2 matches ConstrainedValue::Bounded { min: m2, max: x2 } && m2 >= min && x2
            == max),
        ConstrainedValue::narrow_max_spec(ConstrainedValue::Bounded { min, max }, v) matches Ok(cv2)
            ==> (cv2 matches ConstrainedValue::Bounded { min: m2, max: x2 } && m2 == min && x2
            <= max),
{
}

/// Whether `s` is strictly increasing, the canonical shape of an ordered set
/// of codes.
pub open spec fn strictly_sorted(s: Seq<u32>) -> bool {
    forall|i: int, j: int| 0 <= i < j < s.len() ==> s[i] < s[j]
}

/// The predicate that keeps every code other than `v`.
pub open spec fn keep_ne(v: u32) -> spec_fn(u32) -> bool {
    |x: u32| x != v
}

/// The predicate that keeps exactly the codes `keep` holds.
pub open spec fn keep_in(keep: Seq<u32>) -> spec_fn(u32) -> bool {
    |x: u32| keep.contains(x)
}

/// The elements of `s` other than `v`, in order.
pub open spec fn without_spec(s: Seq<u32>, v: u32) -> Seq<u32> {
    s.filter(keep_ne(v))
}

/// The elements of `s` that `keep` also holds, in order.
pub open spec fn intersect_spec(s: Seq<u32>, keep: Seq<u32>) -> Seq<u32> {
    s.filter(keep_in(keep))
}

/// What removing `v` from the set `s` yields: the remaining codes, or
/// `EmptySet` when the removal would leave none at all.
pub open spec fn remove_spec(s: Seq<u32>, v: u32) -> Result<Seq<u32>, NarrowError> {
    if without_spec(s, v).len() == 0 {
        Err(NarrowError::EmptySet)
    } else {
        Ok(without_spec(s, v))
    }
}

/// What removing each element of `l` from `s` in turn yields; the first
/// removal that would empty the set fails the whole subtraction.
pub open spec fn subtract_spec(s: Seq<u32>, l: Seq<u32>) -> Result<Seq<u32>, NarrowError>
    decreases l.len(),
{
    if l.len() == 0 {
        Ok(s)
    } else {
        match remove_spec(s, l[0]) {
            Ok(t) => subtract_spec(t, l.drop_first()),
            Err(e) => Err(e),
        }
    }
}

/// What intersecting the set `s` with the codes in `keep` yields, or
/// `EmptySet` when nothing survives.
pub open spec fn intersect_result_spec(s: Seq<u32>, keep: Seq<u32>) -> Result<
    Seq<u32>,
    NarrowError,
> {
    if intersect_spec(s, keep).len() == 0 {
        Err(NarrowError::EmptySet)
    } else {
        Ok(intersect_spec(s, keep))
    }
}

/// An element of a filtered sequence sits somewhere in it.
proof fn lemma_filter_index(s: Seq<u32>, p: spec_fn(u32) -> bool, x: u32)
    requires
        s.filter(p).contains(x),
    ensures
        s.contains(x),
        p(x),
{
    s.lemma_filter_contains_rev(p, x);
    let w = s.filter(p);
    let i = choose|i: int| 0 <= i < w.len() && w[i] == x;
    s.lemma_filter_pred(p, i);
}

/// Membership in a removal result: exactly the old members other than `v`.
pub proof fn lemma_without_membership(s: Seq<u32>, v: u32)
    ensures
        forall|x: u32| without_spec(s, v).contains(x) <==> (s.contains(x) && x != v),
{
    assert forall|x: u32| without_spec(s, v).contains(x) implies (s.contains(x) && x != v) by {
        lemma_filter_index(s, keep_ne(v), x);
        assert(keep_ne(v)(x));
    }
    assert forall|x: u32| s.contains(x) && x != v implies without_spec(s, v).contains(x) by {
        let i = choose|i: int| 0 <= i < s.len() && s[i] == x;
        assert(keep_ne(v)(s[i]));
        s.lemma_filter_contains(keep_ne(v), i);
    }
}

/// Membership in an intersection: exactly the members both sides hold.
pub proof fn lemma_intersect_membership(s: Seq<u32>, keep: Seq<u32>)
    ensures
        forall|x: u32| intersect_spec(s, keep).contains(x) <==> (s.contains(x) && keep.contains(x)),
{
    assert forall|x: u32| intersect_spec(s, keep).contains(x) implies (s.contains(x)
        && keep.contains(x)) by {
        lemma_filter_index(s, keep_in(keep), x);
        assert(keep_in(keep)(x));
    }
    assert forall|x: u32| s.contains(x) && keep.contains(x) implies intersect_spec(
        s,
        keep,
    ).contains(x) by {
        let i = choose|i: int| 0 <= i < s.len() && s[i] == x;
        assert(keep_in(keep)(s[i]));
        s.lemma_filter_contains(keep_in(keep), i);
    }
}

/// Filtering keeps a strictly increasing sequence strictly increasing.
proof fn lemma_filter_sorted(s: Seq<u32>, p: spec_fn(u32) -> bool)
    requires
        strictly_sorted(s),
    ensures
        strictly_sorted(s.filter(p)),
    decreases s.len(),
{
    reveal(Seq::filter);
    if s.len() > 0 {
        assert(strictly_sorted(s.drop_last()));
        lemma_filter_sorted(s.drop_last(), p);
        let pre = s.drop_last().filter(p);
        assert forall|i: int| 0 <= i < pre.len() implies pre[i] < s.last() by {
            assert(pre.contains(pre[i]));
            s.drop_last().lemma_filter_contains_rev(p, pre[i]);
            let j = choose|j: int| 0 <= j < s.drop_last().len() && s.drop_last()[j] == pre[i];
            assert(s[j] < s[s.len() - 1]);
        }
    }
}

/// In a strictly increasing sequence of codes each entry is at least its own
/// index, so the sequence can never outgrow the code space.
proof fn lemma_sorted_index_bound(s: Seq<u32>)
    requires
        strictly_sorted(s),
    ensures
        forall|i: int| 0 <= i < s.len() ==> s[i] >= i,
    decreases s.len(),
{
    if s.len() > 0 {
        assert(strictly_sorted(s.drop_last()));
        lemma_sorted_index_bound(s.drop_last());
        assert forall|i: int| 0 <= i < s.len() implies s[i] >= i by {
            if i < s.len() - 1 {
                assert(s.drop_last()[i] >= i);
            } else if i > 0 {
                assert(s.drop_last()[i - 1] >= i - 1);
                assert(s[i - 1] < s[i]);
            }
        }
    }
}

/// The legal domain of one discrete enumerated field: an ordered set of the
/// codes still admissible.
#[derive(PartialEq, Eq, Debug)]
pub struct ConstrainedSet {
    items: Vec<u32>,
}

impl View for ConstrainedSet {
    type V = Seq<u32>;

    closed spec fn view(&self) -> Seq<u32> {
        self.items@
    }
}

fn slice_contains(l: &[u32], v: u32) -> (r: bool)
    ensures
        r == l@.contains(v),
{
    let mut i: usize = 0;
    while i < l.len()
        invariant
            i <= l@.len(),
            forall|j: int| 0 <= j < i ==> l@[j] != v,
        decreases l@.len() - i,
    {
        if l[i] == v {
            return true;
        }
        i = i + 1;
    }
    false
}

impl ConstrainedSet {
    /// The set's codes stay strictly increasing, so each code appears once.
    pub open spec fn wf(self) -> bool {
        strictly_sorted(self@)
    }

    /// Builds the domain holding exactly the given codes, which must come
    /// strictly increasing.
    pub fn new(elems: &[u32]) -> (r: ConstrainedSet)
        requires
            strictly_sorted(elems@),
        ensures
            r@ == elems@,
            r.wf(),
    {
        let mut items: Vec<u32> = Vec::new();
        let mut i: usize = 0;
        while i < elems.len()
            invariant
                i <= elems@.len(),
                items@ == elems@.subrange(0, i as int),
            decreases elems@.len() - i,
        {
            items.push(elems[i]);
            proof {
                assert(items@ =~= elems@.subrange(0, i + 1));
            }
            i = i + 1;
        }
        proof {
            assert(elems@.subrange(0, elems@.len() as int) =~= elems@);
        }
        ConstrainedSet { items }
    }

    /// How many codes remain.
    pub fn len(&self) -> (r: usize)
        ensures
            r == self@.len(),
    {
        self.items.len()
    }

    /// Whether the code `v` is still admissible.
    pub fn contains(&self, v: u32) -> (r: bool)
        ensures
            r == self@.contains(v),
    {
        slice_contains(self.items.as_slice(), v)
    }

    /// Removes `v`; fails with `EmptySet`, leaving the set exactly as it
    /// was, if the removal would empty it.
    pub fn remove(&mut self, v: u32) -> (r: Result<(), NarrowError>)
        requires
            old(self).wf(),
        ensures
            final (self).wf(),
            match remove_spec(old(self)@, v) {
                Ok(s) => r == Ok::<(), NarrowError>(()) && final (self)@ == s,
                Err(e) => r == Err::<(), NarrowError>(e) && *final (self) == *old(self),
            },
    {
        let mut kept: Vec<u32> = Vec::new();
        let mut i: usize = 0;
        proof {
            reveal(Seq::filter);
            assert(self.items@.subrange(0, 0) =~= Seq::<u32>::empty());
        }
        while i < self.items.len()
            invariant
                i <= self.items@.len(),
                kept@ == without_spec(self.items@.subrange(0, i as int), v),
            decreases self.items@.len() - i,
        {
            proof {
                reveal(Seq::filter);
                let cur = self.items@.subrange(0, i + 1);
                assert(cur.drop_last() =~= self.items@.subrange(0, i as int));
                assert(cur.last() == self.items@[i as int]);
                assert(keep_ne(v)(self.items@[i as int]) == (self.items@[i as int] != v));
            }
            if self.items[i] != v {
                kept.push(self.items[i]);
            }
            i = i + 1;
        }
        proof {
            assert(self.items@.subrange(0, self.items@.len() as int) =~= self.items@);
            lemma_filter_sorted(self@, keep_ne(v));
        }
        if kept.len() == 0 {
            Err(NarrowError::EmptySet)
        } else {
            self.items = kept;
            Ok(())
        }
    }

    /// Removes each element of `elems` in turn; the first removal that would
    /// empty the set fails the whole subtraction, leaving the set exactly as
    /// it was.
    pub fn subtract(&mut self, elems: &[u32]) -> (r: Result<(), NarrowError>)
        requires
            old(self).wf(),
        ensures
            final (self).wf(),
            match subtract_spec(old(self)@, elems@) {
                Ok(s) => r == Ok::<(), NarrowError>(()) && final (self)@ == s,
                Err(e) => r == Err::<(), NarrowError>(e) && *final (self) == *old(self),
            },
    {
        let mut cur = ConstrainedSet { items: clone_codes(&self.items) };
        let mut j: usize = 0;
        proof {
            assert(elems@.subrange(0, elems@.len() as int) =~= elems@);
        }
        while j < elems.len()
            invariant
                j <= elems@.len(),
                cur.wf(),
                *self == *old(self),
                old(self).wf(),
                subtract_spec(old(self)@, elems@) == subtract_spec(cur@, elems@.subrange(
                    j as int,
                    elems@.len() as int,
                )),
            decreases elems@.len() - j,
        {
            proof {
                let rest = elems@.subrange(j as int, elems@.len() as int);
                assert(rest[0] == elems@[j as int]);
                assert(rest.drop_first() =~= elems@.subrange(j + 1, elems@.len() as int));
            }
            match cur.remove(elems[j]) {
                Ok(()) => {},
                Err(e) => {
                    return Err(e);
                },
            }
            j = j + 1;
        }
        proof {
            assert(elems@.subrange(elems@.len() as int, elems@.len() as int) =~= Seq::<
                u32,
            >::empty());
        }
        *self = cur;
        Ok(())
    }

    /// Keeps only the codes that `keep` also holds; fails with `EmptySet`,
    /// leaving the set exactly as it was, if nothing would survive.
    pub fn intersect(&mut self, keep: &[u32]) -> (r: Result<(), NarrowError>)
        requires
            old(self).wf(),
        ensures
            final (self).wf(),
            match intersect_result_spec(old(self)@, keep@) {
                Ok(s) => r == Ok::<(), NarrowError>(()) && final (self)@ == s,
                Err(e) => r == Err::<(), NarrowError>(e) && *final (self) == *old(self),
            },
    {
        let mut kept: Vec<u32> = Vec::new();
        let mut i: usize = 0;
        proof {
            reveal(Seq::filter);
            assert(self.items@.subrange(0, 0) =~= Seq::<u32>::empty());
        }
        while i < self.items.len()
            invariant
                i <= self.items@.len(),
                kept@ == intersect_spec(self.items@.subrange(0, i as int), keep@),
            decreases self.items@.len() - i,
        {
            proof {
                reveal(Seq::filter);
                let cur = self.items@.subrange(0, i + 1);
                assert(cur.drop_last() =~= self.items@.subrange(0, i as int));
                assert(cur.last() == self.items@[i as int]);
                assert(keep_in(keep@)(self.items@[i as int]) == keep@.contains(
                    self.items@[i as int],
                ));
            }
            if slice_contains(keep, self.items[i]) {
                kept.push(self.items[i]);
            }
            i = i + 1;
        }
        proof {
            assert(self.items@.subrange(0, self.items@.len() as int) =~= self.items@);
            lemma_filter_sorted(self@, keep_in(keep@));
        }
        if kept.len() == 0 {
            Err(NarrowError::EmptySet)
        } else {
            self.items = kept;
            Ok(())
        }
    }

    /// The code one sample of the set `s` yields at stream position `k` of
    /// `seed`: a uniform pick among the remaining codes, in set order.
    pub open spec fn sample_spec(s: Seq<u32>, seed: u64, k: u64) -> u32
        recommends
            s.len() > 0,
    {
        s[(chacha8_word(seed, k) as int) % (s.len() as int)]
    }

    /// Samples the set at stream position `k` of `seed`, returning the code
    /// and the next unused stream position; fails with `EmptySet` if no code
    /// remains.
    pub fn sample(&self, seed: u64, k: u64) -> (r: Result<(u32, u64), NarrowError>)
        requires
            self.wf(),
            k < u64::MAX,
        ensures
            self@.len() == 0 ==> r == Err::<(u32, u64), NarrowError>(NarrowError::EmptySet),
            self@.len() > 0 ==> r == Ok::<(u32, u64), NarrowError>(
                (Self::sample_spec(self@, seed, k), (k + 1) as u64),
            ),
            (r matches Ok(p) ==> self@.contains(p.0)),
    {
        let n = self.items.len();
        if n == 0 {
            return Err(NarrowError::EmptySet);
        }
        proof {
            lemma_sorted_index_bound(self@);
            assert(self@[n - 1] >= n - 1);
        }
        let idx = draw_in(seed, k, 0, (n - 1) as u32);
        let code = self.items[idx as usize];
        proof {
            let w = chacha8_word(seed, k);
            assert(0 <= (w as int) % (n as int) < n as int) by (nonlinear_arith)
                requires
                    n > 0,
            ;
            assert(idx == uniform_in(w, 0, (n - 1) as u32));
            assert(idx as int == (w as int) % (n as int));
            assert(code == ConstrainedSet::sample_spec(self@, seed, k));
        }
        Ok((code, k + 1))
    }
}

/// Copies a vector of codes element by element.
fn clone_codes(v: &Vec<u32>) -> (r: Vec<u32>)
    ensures
        r@ == v@,
{
    let mut out: Vec<u32> = Vec::new();
    let mut i: usize = 0;
    while i < v.len()
        invariant
            i <= v@.len(),
            out@ == v@.subrange(0, i as int),
        decreases v@.len() - i,
    {
        out.push(v[i]);
        proof {
            assert(out@ =~= v@.subrange(0, i + 1));
        }
        i = i + 1;
    }
    proof {
        assert(v@.subrange(0, v@.len() as int) =~= v@);
    }
    out
}

} // verus!

