use vstd::prelude::*;

use crate::error::StoreError;
use crate::store::lemma_read_after_write;
use crate::store::pass_rel;
use crate::store::Subscriber;

verus! {

/// The operations a derived (selected) value type must offer: an equality
/// test — used exclusively to decide "changed", never ordering — and a
/// cheap duplication, used to hand a cached value out without giving the
/// cache up.
pub trait Derived: Sized {
    /// Equality of derived values, agreeing with mathematical equality.
    fn eq_value(&self, other: &Self) -> (r: bool)
        ensures
            r == (*self == *other),
    ;

    /// An exact copy of the value.
    fn dup(&self) -> (r: Self)
        ensures
            r == *self,
    ;
}

impl Derived for bool {
    fn eq_value(&self, other: &Self) -> (r: bool) {
        *self == *other
    }

    fn dup(&self) -> (r: Self) {
        *self
    }
}

impl Derived for i32 {
    fn eq_value(&self, other: &Self) -> (r: bool) {
        *self == *other
    }

    fn dup(&self) -> (r: Self) {
        *self
    }
}

impl Derived for i64 {
    fn eq_value(&self, other: &Self) -> (r: bool) {
        *self == *other
    }

    fn dup(&self) -> (r: Self) {
        *self
    }
}

impl Derived for u32 {
    fn eq_value(&self, other: &Self) -> (r: bool) {
        *self == *other
    }

    fn dup(&self) -> (r: Self) {
        *self
    }
}

impl Derived for u64 {
    fn eq_value(&self, other: &Self) -> (r: bool) {
        *self == *other
    }

    fn dup(&self) -> (r: Self) {
        *self
    }
}

impl Derived for usize {
    fn eq_value(&self, other: &Self) -> (r: bool) {
        *self == *other
    }

    fn dup(&self) -> (r: Self) {
        *self
    }
}

/// A pure view from the state into a derived value: the unit of
/// change-detection granularity. Observers declare selectors; the registry
/// re-evaluates them on every state transition to decide whether the
/// observer must be woken.
pub trait Selector<T, D>: Sized {
    /// What the selector derives from a given state.
    spec fn spec_select(self, state: T) -> D;

    /// Compute the derived value from the given state.
    fn select(&self, state: &T) -> (r: D)
        ensures
            r == self.spec_select(*state),
    ;
}

/// How many positions of a declaration-kind sequence hold a value-style
/// selector.
pub open spec fn num_value(kinds: Seq<bool>) -> nat
    decreases kinds.len(),
{
    if kinds.len() == 0 {
        0
    } else {
        num_value(kinds.drop_last()) + if kinds.last() {
            1nat
        } else {
            0nat
        }
    }
}

proof fn lemma_num_value_take_succ(kinds: Seq<bool>, i: int)
    requires
        0 <= i < kinds.len(),
    ensures
        num_value(kinds.take(i + 1)) == num_value(kinds.take(i)) + if kinds[i] {
            1nat
        } else {
            0nat
        },
{
    assert(kinds.take(i + 1).drop_last() =~= kinds.take(i));
    assert(kinds.take(i + 1).last() == kinds[i]);
}

proof fn lemma_num_value_take_le(kinds: Seq<bool>, i: int, j: int)
    requires
        0 <= i <= j <= kinds.len(),
    ensures
        num_value(kinds.take(i)) <= num_value(kinds.take(j)),
    decreases j - i,
{
    if i < j {
        lemma_num_value_take_succ(kinds, j - 1);
        lemma_num_value_take_le(kinds, i, j - 1);
    }
}

proof fn lemma_num_value_push(kinds: Seq<bool>, b: bool)
    ensures
        num_value(kinds.push(b)) == num_value(kinds) + if b {
            1nat
        } else {
            0nat
        },
{
    assert(kinds.push(b).drop_last() =~= kinds);
    assert(kinds.push(b).last() == b);
}

/// Increment that sticks at the top of the counter's range instead of
/// wrapping.
pub open spec fn sat_inc(c: u64) -> u64 {
    if c < u64::MAX {
        (c + 1) as u64
    } else {
        c
    }
}

/// The mathematical model of a [`UseStoreHandle`].
#[verifier::ext_equal]
pub struct RegistryView<Sel, D> {
    /// Cached derived values, one per value-style selector, in declaration
    /// order. A cache entry always equals the selector's result on the state
    /// as of the entry's last update.
    pub caches: Seq<D>,
    /// The value-style selectors declared in the current evaluation pass.
    pub value_selectors: Seq<Sel>,
    /// The reference-style selectors declared in the current evaluation
    /// pass.
    pub ref_selectors: Seq<Sel>,
    /// The kind (`true` = value-style) of each declaration position, learnt
    /// in the first evaluation pass.
    pub kinds: Seq<bool>,
    /// Whether a first evaluation pass has completed, fixing `kinds` as the
    /// declaration shape every later pass must repeat.
    pub sealed: bool,
    /// Cleared on detach; a detached registry does no work and asks the
    /// store to drop its subscription.
    pub active: bool,
    /// How many times the observer was woken.
    pub wake_count: u64,
}

impl<Sel, D> RegistryView<Sel, D> {
    /// How many selectors the current pass has declared so far.
    pub open spec fn decl_len(self) -> nat {
        self.value_selectors.len() + self.ref_selectors.len()
    }

    /// The current pass has declared fewer or more selectors than the first
    /// pass did.
    pub open spec fn mismatch(self) -> bool {
        self.sealed && self.decl_len() != self.kinds.len()
    }

    /// A value-style declaration is admissible at the current position.
    pub open spec fn fits_value(self) -> bool {
        !self.sealed || (self.decl_len() < self.kinds.len() && self.kinds[self.decl_len() as int])
    }

    /// A reference-style declaration is admissible at the current position.
    pub open spec fn fits_ref(self) -> bool {
        !self.sealed || (self.decl_len() < self.kinds.len() && !self.kinds[self.decl_len() as int])
    }

    /// Internal consistency of the registry: the caches hold exactly one
    /// entry per value-style position of the declaration shape, and the
    /// current pass has followed that shape so far.
    pub open spec fn wf(self) -> bool {
        if self.sealed {
            &&& self.caches.len() == num_value(self.kinds)
            &&& self.decl_len() <= self.kinds.len()
            &&& self.value_selectors.len() == num_value(self.kinds.take(self.decl_len() as int))
        } else {
            &&& self.kinds.len() == self.decl_len()
            &&& self.caches.len() == self.value_selectors.len()
            &&& self.value_selectors.len() == num_value(self.kinds)
        }
    }

    /// Some value-style selector derives a value from `next` that differs
    /// from its cache.
    pub open spec fn value_dirty<T>(self, next: T) -> bool where Sel: Selector<T, D> {
        exists|i: int|
            0 <= i < self.value_selectors.len() && (#[trigger] self.value_selectors[i].spec_select(
                next,
            )) != self.caches[i]
    }

    /// Some reference-style selector derives different values from `prev`
    /// and from `next`.
    pub open spec fn ref_dirty<T>(self, prev: T, next: T) -> bool where Sel: Selector<T, D> {
        exists|i: int|
            0 <= i < self.ref_selectors.len() && (#[trigger] self.ref_selectors[i].spec_select(
                prev,
            )) != self.ref_selectors[i].spec_select(next)
    }

    /// Whether the transition `prev -> next` wakes the observer: at least
    /// one declared selector observed a change.
    pub open spec fn wake_decision<T>(self, prev: T, next: T) -> bool where Sel: Selector<T, D> {
        self.value_dirty(next) || self.ref_dirty(prev, next)
    }

    /// How a notification of the transition `prev -> next` transforms the
    /// registry: every cache entry is brought up to date with `next`, and
    /// the observer is woken — at most once — exactly when some selector
    /// observed a change.
    pub open spec fn step<T>(self, prev: T, next: T) -> Self where Sel: Selector<T, D> {
        if !self.active || self.mismatch() {
            self
        } else {
            RegistryView {
                caches: Seq::new(
                    self.value_selectors.len(),
                    |i: int| self.value_selectors[i].spec_select(next),
                ),
                wake_count: if self.wake_decision(prev, next) {
                    sat_inc(self.wake_count)
                } else {
                    self.wake_count
                },
                ..self
            }
        }
    }
}

/// A per-observer registry of selectors, multiplexed onto a single store
/// subscription.
///
/// An observer declares its selectors once per evaluation pass, in a stable
/// order, beginning each pass with [`UseStoreHandle::end_pass`]. The first
/// pass fixes the declaration shape — how many selectors, of which kinds, in
/// which order; every later pass must repeat it, and a deviation is reported
/// as a [`StoreError`] rather than silently comparing the wrong pair.
pub struct UseStoreHandle<Sel, D> {
    caches: Vec<D>,
    value_selectors: Vec<Sel>,
    ref_selectors: Vec<Sel>,
    kinds: Vec<bool>,
    sealed: bool,
    active: bool,
    wake_count: u64,
}

impl<Sel, D> View for UseStoreHandle<Sel, D> {
    type V = RegistryView<Sel, D>;

    closed spec fn view(&self) -> RegistryView<Sel, D> {
        RegistryView {
            caches: self.caches@,
            value_selectors: self.value_selectors@,
            ref_selectors: self.ref_selectors@,
            kinds: self.kinds@,
            sealed: self.sealed,
            active: self.active,
            wake_count: self.wake_count,
        }
    }
}

impl<Sel, D: Derived> UseStoreHandle<Sel, D> {
    /// A fresh, attached registry with no selectors declared yet.
    pub fn new() -> (r: Self)
        ensures
            r@.wf(),
            r@.caches == Seq::<D>::empty(),
            r@.value_selectors == Seq::<Sel>::empty(),
            r@.ref_selectors == Seq::<Sel>::empty(),
            r@.kinds == Seq::<bool>::empty(),
            !r@.sealed,
            r@.active,
            r@.wake_count == 0,
    {
        UseStoreHandle {
            caches: Vec::new(),
            value_selectors: Vec::new(),
            ref_selectors: Vec::new(),
            kinds: Vec::new(),
            sealed: false,
            active: true,
            wake_count: 0,
        }
    }

    /// Begin a new evaluation pass: discard the selectors of the previous
    /// pass, so that the observer re-declares them fresh. Completing the
    /// first pass seals the declaration shape. The cached derived values and
    /// the subscription itself are untouched.
    pub fn end_pass(&mut self)
        requires
            old(self)@.wf(),
        ensures
            final(self)@.wf(),
            final(self)@.caches == old(self)@.caches,
            final(self)@.kinds == old(self)@.kinds,
            final(self)@.active == old(self)@.active,
            final(self)@.wake_count == old(self)@.wake_count,
            final(self)@.value_selectors == Seq::<Sel>::empty(),
            final(self)@.ref_selectors == Seq::<Sel>::empty(),
            final(self)@.sealed == (old(self)@.sealed || old(self)@.kinds.len() > 0),
    {
        if !self.sealed && self.kinds.len() > 0 {
            self.sealed = true;
        }
        self.value_selectors.clear();
        self.ref_selectors.clear();
        proof {
            assert(self@.kinds.take(0) =~= Seq::<bool>::empty());
        }
    }

    /// Declare a value-style selector and return the derived value the
    /// registry holds for it: on the first pass the value just computed from
    /// `state`, on later passes the most recently cached value. Fails when
    /// the declaration does not repeat the shape of the first pass.
    pub fn map<T>(&mut self, selector: Sel, state: &T) -> (r: Result<D, StoreError>) where
        Sel: Selector<T, D>,

        requires
            old(self)@.wf(),
        ensures
            final(self)@.wf(),
            r is Err <==> !old(self)@.fits_value(),
            !old(self)@.fits_value() ==> *final(self) == *old(self),
            old(self)@.sealed && old(self)@.decl_len() >= old(self)@.kinds.len() ==> r == Err::<
                D,
                StoreError,
            >(StoreError::SelectorCountMismatch),
            old(self)@.sealed && old(self)@.decl_len() < old(self)@.kinds.len() && !old(
                self,
            )@.kinds[old(self)@.decl_len() as int] ==> r == Err::<D, StoreError>(
                StoreError::SelectorKindMismatch,
            ),
            old(self)@.fits_value() ==> ({
                &&& final(self)@.value_selectors == old(self)@.value_selectors.push(selector)
                &&& final(self)@.ref_selectors == old(self)@.ref_selectors
                &&& final(self)@.sealed == old(self)@.sealed
                &&& final(self)@.active == old(self)@.active
                &&& final(self)@.wake_count == old(self)@.wake_count
            }),
            old(self)@.fits_value() && old(self)@.sealed ==> ({
                &&& final(self)@.caches == old(self)@.caches
                &&& final(self)@.kinds == old(self)@.kinds
                &&& r == Ok::<D, StoreError>(
                    old(self)@.caches[old(self)@.value_selectors.len() as int],
                )
            }),
            old(self)@.fits_value() && !old(self)@.sealed ==> ({
                &&& final(self)@.caches == old(self)@.caches.push(selector.spec_select(*state))
                &&& final(self)@.kinds == old(self)@.kinds.push(true)
                &&& r == Ok::<D, StoreError>(selector.spec_select(*state))
            }),
    {
        if self.sealed {
            let total = self.kinds.len();
            proof {
                assert(self@.decl_len() <= self@.kinds.len());
            }
            let idx = self.value_selectors.len() + self.ref_selectors.len();
            if idx >= total {
                return Err(StoreError::SelectorCountMismatch);
            }
            if !self.kinds[idx] {
                return Err(StoreError::SelectorKindMismatch);
            }
            let slot = self.value_selectors.len();
            proof {
                lemma_num_value_take_succ(self@.kinds, idx as int);
                lemma_num_value_take_le(self@.kinds, idx as int + 1, self@.kinds.len() as int);
                assert(self@.kinds.take(self@.kinds.len() as int) =~= self@.kinds);
            }
            let value = self.caches[slot].dup();
            self.value_selectors.push(selector);
            proof {
                assert(self@.kinds.take(self@.decl_len() as int) =~= old(self)@.kinds.take(
                    idx as int + 1,
                ));
            }
            Ok(value)
        } else {
            let computed = selector.select(state);
            let value = computed.dup();
            self.caches.push(computed);
            self.kinds.push(true);
            self.value_selectors.push(selector);
            proof {
                lemma_num_value_push(old(self)@.kinds, true);
            }
            Ok(value)
        }
    }

    /// Declare a value-style selector without reading its value: a pure
    /// "wake me if this changes" declaration, with the same comparison
    /// semantics as [`UseStoreHandle::map`].
    pub fn watch<T>(&mut self, selector: Sel, state: &T) -> (r: Result<(), StoreError>) where
        Sel: Selector<T, D>,

        requires
            old(self)@.wf(),
        ensures
            final(self)@.wf(),
            r is Err <==> !old(self)@.fits_value(),
            !old(self)@.fits_value() ==> *final(self) == *old(self),
            old(self)@.sealed && old(self)@.decl_len() >= old(self)@.kinds.len() ==> r == Err::<
                (),
                StoreError,
            >(StoreError::SelectorCountMismatch),
            old(self)@.sealed && old(self)@.decl_len() < old(self)@.kinds.len() && !old(
                self,
            )@.kinds[old(self)@.decl_len() as int] ==> r == Err::<(), StoreError>(
                StoreError::SelectorKindMismatch,
            ),
            old(self)@.fits_value() ==> ({
                &&& final(self)@.value_selectors == old(self)@.value_selectors.push(selector)
                &&& final(self)@.ref_selectors == old(self)@.ref_selectors
                &&& final(self)@.sealed == old(self)@.sealed
                &&& final(self)@.active == old(self)@.active
                &&& final(self)@.wake_count == old(self)@.wake_count
            }),
            old(self)@.fits_value() && old(self)@.sealed ==> ({
                &&& final(self)@.caches == old(self)@.caches
                &&& final(self)@.kinds == old(self)@.kinds
            }),
            old(self)@.fits_value() && !old(self)@.sealed ==> ({
                &&& final(self)@.caches == old(self)@.caches.push(selector.spec_select(*state))
                &&& final(self)@.kinds == old(self)@.kinds.push(true)
            }),
    {
        match self.map(selector, state) {
            Ok(_) => Ok(()),
            Err(e) => Err(e),
        }
    }

    /// Declare a reference-style selector without reading its value. On
    /// notification the selector is applied to both the previous and the
    /// next state and the results are compared; nothing is cached.
    pub fn watch_ref(&mut self, selector: Sel) -> (r: Result<(), StoreError>)
        requires
            old(self)@.wf(),
        ensures
            final(self)@.wf(),
            r is Err <==> !old(self)@.fits_ref(),
            !old(self)@.fits_ref() ==> *final(self) == *old(self),
            old(self)@.sealed && old(self)@.decl_len() >= old(self)@.kinds.len() ==> r == Err::<
                (),
                StoreError,
            >(StoreError::SelectorCountMismatch),
            old(self)@.sealed && old(self)@.decl_len() < old(self)@.kinds.len() && old(
                self,
            )@.kinds[old(self)@.decl_len() as int] ==> r == Err::<(), StoreError>(
                StoreError::SelectorKindMismatch,
            ),
            old(self)@.fits_ref() ==> ({
                &&& final(self)@.ref_selectors == old(self)@.ref_selectors.push(selector)
                &&& final(self)@.value_selectors == old(self)@.value_selectors
                &&& final(self)@.caches == old(self)@.caches
                &&& final(self)@.sealed == old(self)@.sealed
                &&& final(self)@.active == old(self)@.active
                &&& final(self)@.wake_count == old(self)@.wake_count
                &&& final(self)@.kinds == if old(self)@.sealed {
                    old(self)@.kinds
                } else {
                    old(self)@.kinds.push(false)
                }
            }),
    {
        if self.sealed {
            let total = self.kinds.len();
            proof {
                assert(self@.decl_len() <= self@.kinds.len());
            }
            let idx = self.value_selectors.len() + self.ref_selectors.len();
            if idx >= total {
                return Err(StoreError::SelectorCountMismatch);
            }
            if self.kinds[idx] {
                return Err(StoreError::SelectorKindMismatch);
            }
            self.ref_selectors.push(selector);
            proof {
                lemma_num_value_take_succ(self@.kinds, idx as int);
                assert(self@.kinds.take(self@.decl_len() as int) =~= old(self)@.kinds.take(
                    idx as int + 1,
                ));
            }
            Ok(())
        } else {
            self.kinds.push(false);
            self.ref_selectors.push(selector);
            proof {
                lemma_num_value_push(old(self)@.kinds, false);
            }
            Ok(())
        }
    }

    /// Declare a reference-style selector and return the value it derives
    /// from `state` right now. Nothing is cached: on notification the
    /// selector is re-applied to both snapshots.
    pub fn map_ref<T>(&mut self, selector: Sel, state: &T) -> (r: Result<D, StoreError>) where
        Sel: Selector<T, D>,

        requires
            old(self)@.wf(),
        ensures
            final(self)@.wf(),
            r is Err <==> !old(self)@.fits_ref(),
            !old(self)@.fits_ref() ==> *final(self) == *old(self),
            old(self)@.sealed && old(self)@.decl_len() >= old(self)@.kinds.len() ==> r == Err::<
                D,
                StoreError,
            >(StoreError::SelectorCountMismatch),
            old(self)@.sealed && old(self)@.decl_len() < old(self)@.kinds.len() && old(
                self,
            )@.kinds[old(self)@.decl_len() as int] ==> r == Err::<D, StoreError>(
                StoreError::SelectorKindMismatch,
            ),
            old(self)@.fits_ref() ==> ({
                &&& r == Ok::<D, StoreError>(selector.spec_select(*state))
                &&& final(self)@.ref_selectors == old(self)@.ref_selectors.push(selector)
                &&& final(self)@.value_selectors == old(self)@.value_selectors
                &&& final(self)@.caches == old(self)@.caches
                &&& final(self)@.sealed == old(self)@.sealed
                &&& final(self)@.active == old(self)@.active
                &&& final(self)@.wake_count == old(self)@.wake_count
                &&& final(self)@.kinds == if old(self)@.sealed {
                    old(self)@.kinds
                } else {
                    old(self)@.kinds.push(false)
                }
            }),
    {
        let value = selector.select(state);
        match self.watch_ref(selector) {
            Ok(()) => Ok(value),
            Err(e) => Err(e),
        }
    }

    /// Permanently retire the observer: further notifications do no work
    /// and ask the store to drop the subscription. Detaching twice is a
    /// no-op, not an error.
    pub fn detach(&mut self)
        ensures
            final(self)@ == (RegistryView { active: false, ..old(self)@ }),
    {
        self.active = false;
    }

    /// Whether the registry is still attached to its observer.
    pub fn is_active(&self) -> (r: bool)
        ensures
            r == self@.active,
    {
        self.active
    }

    /// How many times the observer was woken.
    pub fn wake_count(&self) -> (r: u64)
        ensures
            r == self@.wake_count,
    {
        self.wake_count
    }

    /// React to the state transition `prev -> next`: recompute every
    /// value-style selector against `next` and bring its cache up to date;
    /// then — only if no value-style selector changed — compare every
    /// reference-style selector on both snapshots, in declaration order,
    /// stopping at the first change. The result reports whether the
    /// observer is woken; the wake count advances at most once per
    /// transition, exactly when some selector observed a change. Fails when
    /// the current pass did not re-declare the full selector shape of the
    /// first pass. A detached registry does no work and reports no wake.
    #[verifier::loop_isolation(false)]
    pub fn on_transition<T>(&mut self, prev: &T, next: &T) -> (r: Result<bool, StoreError>) where
        Sel: Selector<T, D>,

        requires
            old(self)@.wf(),
        ensures
            final(self)@.wf(),
            r is Err <==> old(self)@.active && old(self)@.mismatch(),
            r is Err ==> r == Err::<bool, StoreError>(StoreError::SelectorCountMismatch)
                && *final(self) == *old(self),
            !old(self)@.active ==> r == Ok::<bool, StoreError>(false) && *final(self) == *old(self),
            old(self)@.active && !old(self)@.mismatch() ==> ({
                &&& r == Ok::<bool, StoreError>(old(self)@.wake_decision(*prev, *next))
                &&& final(self)@ == old(self)@.step(*prev, *next)
            }),
    {
        if !self.active {
            return Ok(false);
        }
        if self.sealed {
            let total = self.kinds.len();
            proof {
                assert(self@.decl_len() <= self@.kinds.len());
            }
            let decl = self.value_selectors.len() + self.ref_selectors.len();
            if decl != total {
                return Err(StoreError::SelectorCountMismatch);
            }
            proof {
                assert(self@.kinds.take(self@.kinds.len() as int) =~= self@.kinds);
            }
        }
        assert(self@.caches.len() == self@.value_selectors.len());

        let n = self.value_selectors.len();
        let mut dirty = false;
        let mut i: usize = 0;
        while i < n
            invariant
                i <= n,
                n == self@.value_selectors.len(),
                self@.caches.len() == n,
                self@.value_selectors == old(self)@.value_selectors,
                self@.ref_selectors == old(self)@.ref_selectors,
                self@.kinds == old(self)@.kinds,
                self@.sealed == old(self)@.sealed,
                self@.active == old(self)@.active,
                self@.wake_count == old(self)@.wake_count,
                forall|j: int|
                    0 <= j < i ==> self@.caches[j] == (#[trigger] old(
                        self,
                    )@.value_selectors[j].spec_select(*next)),
                forall|j: int| i <= j < n ==> self@.caches[j] == old(self)@.caches[j],
                dirty == exists|j: int|
                    0 <= j < i && (#[trigger] old(self)@.value_selectors[j].spec_select(*next))
                        != old(self)@.caches[j],
            decreases n - i,
        {
            let recomputed = self.value_selectors[i].select(next);
            if !recomputed.eq_value(&self.caches[i]) {
                proof {
                    assert((old(self)@.value_selectors[i as int].spec_select(*next)) != old(
                        self,
                    )@.caches[i as int]);
                }
                self.caches[i] = recomputed;
                dirty = true;
            }
            i += 1;
        }

        if !dirty {
            let m = self.ref_selectors.len();
            let mut j: usize = 0;
            while j < m && !dirty
                invariant
                    j <= m,
                    !dirty ==> forall|k: int|
                        0 <= k < j ==> (#[trigger] old(self)@.ref_selectors[k].spec_select(*prev))
                            == old(self)@.ref_selectors[k].spec_select(*next),
                    dirty ==> old(self)@.ref_dirty(*prev, *next),
                decreases m - j,
            {
                let before = self.ref_selectors[j].select(prev);
                let after = self.ref_selectors[j].select(next);
                if !before.eq_value(&after) {
                    proof {
                        assert((old(self)@.ref_selectors[j as int].spec_select(*prev)) != old(
                            self,
                        )@.ref_selectors[j as int].spec_select(*next));
                    }
                    dirty = true;
                }
                j += 1;
            }
        }

        if dirty {
            if self.wake_count < u64::MAX {
                self.wake_count = self.wake_count + 1;
            }
        }
        proof {
            assert(dirty == old(self)@.wake_decision(*prev, *next));
            assert(self@.caches =~= old(self)@.step(*prev, *next).caches);
            assert(self@ =~= old(self)@.step(*prev, *next));
            assert(self@.kinds.take(self@.decl_len() as int) =~= old(self)@.kinds.take(
                old(self)@.decl_len() as int,
            ));
        }
        Ok(dirty)
    }
}

impl<T, Sel: Selector<T, D>, D: Derived> Subscriber<T> for UseStoreHandle<Sel, D> {
    /// The registry's internal consistency.
    open spec fn inv(self) -> bool {
        self@.wf()
    }

    /// The registry keeps its store subscription while it is attached and
    /// its evaluation pass matches the declared shape; a detached or
    /// faulted registry asks the store to drop it.
    open spec fn spec_keep(self, prev: T, next: T) -> bool {
        self@.active && !self@.mismatch()
    }

    /// A registry never requests a follow-up write.
    open spec fn spec_request(self, prev: T, next: T) -> Option<T> {
        None
    }

    /// A notified registry steps its view as [`RegistryView::step`]
    /// describes; a detached or faulted registry is left untouched.
    open spec fn spec_after(self, prev: T, next: T, post: Self) -> bool {
        if self@.active && !self@.mismatch() {
            post@ == self@.step(prev, next)
        } else {
            post@ == self@
        }
    }

    fn notify(&mut self, prev: &T, next: &T) -> (r: (bool, Option<T>)) {
        match self.on_transition(prev, next) {
            Ok(_) => (self.active, None),
            Err(_) => (false, None),
        }
    }
}

/// No spurious wake: if every declared selector derives a value equal — by
/// the declared equality — to its comparison basis (the cache for
/// value-style selectors, the previous snapshot's result for
/// reference-style selectors), the transition does not wake the observer.
pub proof fn lemma_no_spurious_wake<T, Sel: Selector<T, D>, D>(
    v: RegistryView<Sel, D>,
    prev: T,
    next: T,
)
    requires
        forall|i: int|
            0 <= i < v.value_selectors.len() ==> (#[trigger] v.value_selectors[i].spec_select(next))
                == v.caches[i],
        forall|i: int|
            0 <= i < v.ref_selectors.len() ==> (#[trigger] v.ref_selectors[i].spec_select(prev))
                == v.ref_selectors[i].spec_select(next),
    ensures
        !v.wake_decision(prev, next),
        v.step(prev, next).wake_count == v.wake_count,
{
}

/// Wake on change, value-style: a value-style selector whose derived value
/// differs from its cache wakes the observer, exactly once.
pub proof fn lemma_wake_on_value_change<T, Sel: Selector<T, D>, D>(
    v: RegistryView<Sel, D>,
    prev: T,
    next: T,
    i: int,
)
    requires
        v.active,
        !v.mismatch(),
        0 <= i < v.value_selectors.len(),
        v.value_selectors[i].spec_select(next) != v.caches[i],
    ensures
        v.wake_decision(prev, next),
        v.step(prev, next).wake_count == sat_inc(v.wake_count),
{
    assert((v.value_selectors[i].spec_select(next)) != v.caches[i]);
}

/// Wake on change, reference-style: a reference-style selector that derives
/// different values from the two snapshots wakes the observer, exactly
/// once.
pub proof fn lemma_wake_on_ref_change<T, Sel: Selector<T, D>, D>(
    v: RegistryView<Sel, D>,
    prev: T,
    next: T,
    i: int,
)
    requires
        v.active,
        !v.mismatch(),
        0 <= i < v.ref_selectors.len(),
        v.ref_selectors[i].spec_select(prev) != v.ref_selectors[i].spec_select(next),
    ensures
        v.wake_decision(prev, next),
        v.step(prev, next).wake_count == sat_inc(v.wake_count),
{
    assert((v.ref_selectors[i].spec_select(prev)) != v.ref_selectors[i].spec_select(next));
}

/// At most one wake per transition: however many selectors changed, one
/// notification advances the wake count by at most one.
pub proof fn lemma_at_most_one_wake<T, Sel: Selector<T, D>, D>(
    v: RegistryView<Sel, D>,
    prev: T,
    next: T,
)
    ensures
        v.wake_count <= v.step(prev, next).wake_count,
        v.step(prev, next).wake_count <= sat_inc(v.wake_count),
{
}

/// A registry never requests a follow-up write, so a notification pass of a
/// store whose subscribers are selector registries leaves the freshly
/// installed transition in place: after `set_state(s1)` such a store reads
/// `s1`, and the state `s1` replaced stays readable as the previous one.
pub proof fn lemma_registry_pass_preserves_state<T, Sel: Selector<T, D>, D: Derived>(
    pre: Seq<UseStoreHandle<Sel, D>>,
    prev: T,
    cur: T,
    post: Seq<UseStoreHandle<Sel, D>>,
    final_prev: T,
    final_cur: T,
)
    requires
        pass_rel(pre, prev, cur, post, final_prev, final_cur),
    ensures
        final_prev == prev,
        final_cur == cur,
{
    assert forall|i: int| 0 <= i < pre.len() implies #[trigger] pre[i].spec_request(
        prev,
        cur,
    ) is None by {}
    lemma_read_after_write(pre, prev, cur, post, final_prev, final_cur);
}

/// Detach stops notification: a detached registry is never woken again, is
/// left untouched by any further notification, and asks the store to drop
/// its subscription.
pub proof fn lemma_detached_registry_silent<T, Sel: Selector<T, D>, D: Derived>(
    r: UseStoreHandle<Sel, D>,
    prev: T,
    next: T,
)
    requires
        !r@.active,
    ensures
        !r.spec_keep(prev, next),
        forall|post: UseStoreHandle<Sel, D>| #[trigger]
            r.spec_after(prev, next, post) ==> post@.wake_count == r@.wake_count,
        r@.step(prev, next) == r@,
{
}

} // verus!
