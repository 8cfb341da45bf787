use vstd::prelude::*;

verus! {

/// The interface a store subscriber presents to the notification loop.
///
/// A subscriber is notified with the previous and the next state snapshot of
/// every transition, in subscription order. It answers with a keep-alive
/// flag — returning `false` is the sole cancellation primitive at this layer,
/// so that the store never mutates its list while something iterates it —
/// and with an optional follow-up write. A follow-up write is applied before
/// the remaining subscribers of the pass are notified, so they always observe
/// the latest state by the time they run.
pub trait Subscriber<T>: Sized {
    /// Well-formedness of the subscriber's own data.
    spec fn inv(self) -> bool;

    /// Whether the subscriber stays subscribed when notified of the
    /// transition `prev -> next`.
    spec fn spec_keep(self, prev: T, next: T) -> bool;

    /// The follow-up write, if any, that the subscriber requests when
    /// notified of the transition `prev -> next`.
    spec fn spec_request(self, prev: T, next: T) -> Option<T>;

    /// Relates the subscriber's value after a notification of the
    /// transition `prev -> next` to its value before.
    spec fn spec_after(self, prev: T, next: T, post: Self) -> bool;

    /// React to the transition `prev -> next`: the first component of the
    /// result is the keep-alive flag, the second the requested follow-up
    /// write, if any.
    fn notify(&mut self, prev: &T, next: &T) -> (r: (bool, Option<T>))
        requires
            old(self).inv(),
        ensures
            final(self).inv(),
            r.0 == old(self).spec_keep(*prev, *next),
            r.1 == old(self).spec_request(*prev, *next),
            old(self).spec_after(*prev, *next, *final(self)),
    ;
}

/// The mathematical model of a [`Store`]: the previous and current state
/// snapshot and the sequence of live subscribers.
pub struct StoreView<T, S> {
    pub previous: T,
    pub current: T,
    pub subscribers: Seq<S>,
}

/// How one notification pass transforms the subscriber list and the state
/// pair. `pass_rel(pre, prev, cur, post, final_prev, final_cur)` holds when
/// notifying the subscribers `pre` in order, starting from the freshly
/// installed transition `prev -> cur`, can leave the kept subscribers `post`
/// behind and end with the state pair `(final_prev, final_cur)`. A
/// subscriber that requests a follow-up write `w` advances the pair from
/// `(p, c)` to `(c, w)` for everything notified after it.
pub open spec fn pass_rel<T, S: Subscriber<T>>(
    pre: Seq<S>,
    prev: T,
    cur: T,
    post: Seq<S>,
    final_prev: T,
    final_cur: T,
) -> bool
    decreases pre.len(),
{
    if pre.len() == 0 {
        &&& post == Seq::<S>::empty()
        &&& final_prev == prev
        &&& final_cur == cur
    } else {
        let s = pre[0];
        let step_prev = if s.spec_request(prev, cur) is Some {
            cur
        } else {
            prev
        };
        let step_cur = match s.spec_request(prev, cur) {
            Some(w) => w,
            None => cur,
        };
        if s.spec_keep(prev, cur) {
            &&& post.len() >= 1
            &&& s.spec_after(prev, cur, post[0])
            &&& pass_rel(pre.drop_first(), step_prev, step_cur, post.drop_first(), final_prev, final_cur)
        } else {
            pass_rel(pre.drop_first(), step_prev, step_cur, post, final_prev, final_cur)
        }
    }
}

/// The state pair with which subscriber `i` of a pass is notified, given
/// that the pass starts with the subscribers `pre` and the pair
/// `(prev, cur)`.
pub open spec fn pass_pair<T, S: Subscriber<T>>(pre: Seq<S>, prev: T, cur: T, i: int) -> (T, T)
    decreases pre.len(),
{
    if i <= 0 || pre.len() == 0 {
        (prev, cur)
    } else {
        let s = pre[0];
        let step_prev = if s.spec_request(prev, cur) is Some {
            cur
        } else {
            prev
        };
        let step_cur = match s.spec_request(prev, cur) {
            Some(w) => w,
            None => cur,
        };
        pass_pair(pre.drop_first(), step_prev, step_cur, i - 1)
    }
}

/// How many subscribers of a pass keep their subscription, given that the
/// pass starts with the subscribers `pre` and the pair `(prev, cur)`.
pub open spec fn count_kept<T, S: Subscriber<T>>(pre: Seq<S>, prev: T, cur: T) -> nat
    decreases pre.len(),
{
    if pre.len() == 0 {
        0
    } else {
        let s = pre[0];
        let step_prev = if s.spec_request(prev, cur) is Some {
            cur
        } else {
            prev
        };
        let step_cur = match s.spec_request(prev, cur) {
            Some(w) => w,
            None => cur,
        };
        (if s.spec_keep(prev, cur) {
            1nat
        } else {
            0nat
        }) + count_kept(pre.drop_first(), step_prev, step_cur)
    }
}

/// A store with subscription capability.
///
/// The store owns the current and the previous snapshot of the state and the
/// list of subscribers. Until the first write the previous snapshot equals
/// the current one.
pub struct Store<T, S> {
    /// `None` until the first write; the previous snapshot then equals the
    /// current one.
    previous: Option<T>,
    current: T,
    subscribers: Vec<S>,
}

impl<T, S> View for Store<T, S> {
    type V = StoreView<T, S>;

    closed spec fn view(&self) -> StoreView<T, S> {
        StoreView {
            previous: match self.previous {
                Some(p) => p,
                None => self.current,
            },
            current: self.current,
            subscribers: self.subscribers@,
        }
    }
}

impl<T, S: Subscriber<T>> Store<T, S> {
    /// Every subscriber of the store satisfies its own well-formedness
    /// condition.
    pub open spec fn wf(self) -> bool {
        forall|i: int|
            0 <= i < self@.subscribers.len() ==> #[trigger] self@.subscribers[i].inv()
    }

    /// Create a new store with the given state as initial state. The
    /// previous snapshot starts out equal to the current one.
    pub fn new(initial_state: T) -> (r: Self)
        ensures
            r.wf(),
            r@.current == initial_state,
            r@.previous == initial_state,
            r@.subscribers == Seq::<S>::empty(),
    {
        Store { previous: None, current: initial_state, subscribers: Vec::new() }
    }

    /// The current state snapshot.
    pub fn state(&self) -> (r: &T)
        ensures
            *r == self@.current,
    {
        &self.current
    }

    /// The state snapshot the current one replaced: the state before the
    /// most recent write, or the initial state if nothing was written yet.
    pub fn previous(&self) -> (r: &T)
        ensures
            *r == self@.previous,
    {
        match &self.previous {
            Some(p) => p,
            None => &self.current,
        }
    }

    /// The live subscribers, in subscription order.
    pub fn subscribers(&self) -> (r: &Vec<S>)
        ensures
            r@ == self@.subscribers,
    {
        &self.subscribers
    }

    /// Subscribe to changes of the store state. The subscription stays
    /// active as long as the subscriber answers notifications with `true`.
    pub fn subscribe(&mut self, subscriber: S)
        requires
            old(self).wf(),
            subscriber.inv(),
        ensures
            final(self).wf(),
            final(self)@.subscribers == old(self)@.subscribers.push(subscriber),
            final(self)@.current == old(self)@.current,
            final(self)@.previous == old(self)@.previous,
    {
        self.subscribers.push(subscriber);
        proof {
            assert forall|i: int|
                0 <= i < self@.subscribers.len() implies #[trigger] self@.subscribers[i].inv() by {
                if i < old(self)@.subscribers.len() {
                    assert(old(self)@.subscribers[i].inv());
                } else {
                    assert(self@.subscribers[i] == subscriber);
                }
            }
        }
    }

    /// Remove and return the subscriber at position `i`, so that its owner
    /// can run an evaluation pass on it and subscribe it again.
    pub fn remove_subscriber(&mut self, i: usize) -> (r: S)
        requires
            old(self).wf(),
            i < old(self)@.subscribers.len(),
        ensures
            final(self).wf(),
            r == old(self)@.subscribers[i as int],
            r.inv(),
            final(self)@.subscribers == old(self)@.subscribers.remove(i as int),
            final(self)@.current == old(self)@.current,
            final(self)@.previous == old(self)@.previous,
    {
        self.subscribers.remove(i)
    }

    /// Install `new_state` as the current state — the old current state
    /// becomes the previous one — and notify every subscriber, in
    /// subscription order, with the previous and the next snapshot. The
    /// subscriber list is snapshotted before iterating: a subscriber added
    /// during the pass is not notified of the transition that triggered it.
    /// A subscriber is kept only if it answers `true`; a follow-up write
    /// requested by a subscriber is installed at once, so every subscriber
    /// notified later in the pass observes the latest state.
    pub fn set_state(&mut self, new_state: T)
        requires
            old(self).wf(),
        ensures
            final(self).wf(),
            pass_rel(
                old(self)@.subscribers,
                old(self)@.current,
                new_state,
                final(self)@.subscribers,
                final(self)@.previous,
                final(self)@.current,
            ),
    {
        let mut incoming = new_state;
        core::mem::swap(&mut self.current, &mut incoming);
        self.previous = Some(incoming);
        proof {
            assert forall|i: int|
                0 <= i < self@.subscribers.len() implies #[trigger] self@.subscribers[i].inv() by {
                assert(old(self)@.subscribers[i].inv());
            }
        }
        self.notify();
    }

    /// Run one notification pass over the freshly installed transition, as
    /// [`Store::set_state`] describes.
    fn notify(&mut self)
        requires
            old(self).wf(),
        ensures
            final(self).wf(),
            pass_rel(
                old(self)@.subscribers,
                old(self)@.previous,
                old(self)@.current,
                final(self)@.subscribers,
                final(self)@.previous,
                final(self)@.current,
            ),
    {
        let mut pending: Vec<S> = Vec::new();
        core::mem::swap(&mut pending, &mut self.subscribers);
        let mut kept: Vec<S> = Vec::new();

        let ghost orig: Seq<S> = pending@;
        let ghost p0: T = self@.previous;
        let ghost c0: T = self@.current;

        proof {
            assert(pending@ == old(self)@.subscribers);
            assert forall|i: int|
                0 <= i < pending@.len() implies #[trigger] pending@[i].inv() by {
                assert(old(self)@.subscribers[i].inv());
            }
        }

        while pending.len() > 0
            invariant
                self@.subscribers == Seq::<S>::empty(),
                forall|i: int| 0 <= i < pending@.len() ==> #[trigger] pending@[i].inv(),
                forall|i: int| 0 <= i < kept@.len() ==> #[trigger] kept@[i].inv(),
                forall|post: Seq<S>, fp: T, fc: T|
                    pass_rel(pending@, self@.previous, self@.current, post, fp, fc)
                        ==> pass_rel(orig, p0, c0, kept@ + post, fp, fc),
            decreases pending.len(),
        {
            let ghost before: Seq<S> = pending@;
            let ghost pair_prev: T = self@.previous;
            let ghost pair_cur: T = self@.current;
            let ghost kept_before: Seq<S> = kept@;

            let mut s = pending.remove(0);
            assert(before.remove(0) =~= before.drop_first());

            let (keep, request) = {
                let prev_ref: &T = match &self.previous {
                    Some(p) => p,
                    None => &self.current,
                };
                s.notify(prev_ref, &self.current)
            };

            if keep {
                kept.push(s);
            }
            match request {
                Some(w) => {
                    let mut incoming = w;
                    core::mem::swap(&mut self.current, &mut incoming);
                    self.previous = Some(incoming);
                },
                None => {},
            }

            proof {
                let head = before[0];
                let stepped = if keep {
                    kept@[kept_before.len() as int]
                } else {
                    head
                };
                assert forall|post: Seq<S>, fp: T, fc: T|
                    pass_rel(pending@, self@.previous, self@.current, post, fp, fc)
                        implies pass_rel(orig, p0, c0, kept@ + post, fp, fc) by {
                    if keep {
                        let full = seq![stepped] + post;
                        assert(full.drop_first() =~= post);
                        assert(full[0] == stepped);
                        assert(pass_rel(before, pair_prev, pair_cur, full, fp, fc));
                        assert(kept_before + full =~= kept@ + post);
                        assert(pass_rel(orig, p0, c0, kept_before + full, fp, fc));
                    } else {
                        assert(pass_rel(before, pair_prev, pair_cur, post, fp, fc));
                        assert(kept_before + post =~= kept@ + post);
                        assert(pass_rel(orig, p0, c0, kept_before + post, fp, fc));
                    }
                }
            }
        }

        proof {
            assert(pending@ =~= Seq::<S>::empty());
            assert(pass_rel(
                pending@,
                self@.previous,
                self@.current,
                Seq::<S>::empty(),
                self@.previous,
                self@.current,
            ));
            assert(kept@ + Seq::<S>::empty() =~= kept@);
        }
        self.subscribers = kept;
    }
}

/// Read-after-write: when no subscriber of a pass requests a follow-up
/// write, the pass leaves the freshly installed transition untouched — after
/// `set_state(s1)` the current state is `s1` and the previous state is the
/// state that `s1` replaced.
pub proof fn lemma_read_after_write<T, S: Subscriber<T>>(
    pre: Seq<S>,
    prev: T,
    cur: T,
    post: Seq<S>,
    final_prev: T,
    final_cur: T,
)
    requires
        pass_rel(pre, prev, cur, post, final_prev, final_cur),
        forall|i: int| 0 <= i < pre.len() ==> #[trigger] pre[i].spec_request(prev, cur) is None,
    ensures
        final_prev == prev,
        final_cur == cur,
    decreases pre.len(),
{
    if pre.len() > 0 {
        assert(pre[0].spec_request(prev, cur) is None);
        let rest = pre.drop_first();
        assert forall|i: int| 0 <= i < rest.len() implies #[trigger] rest[i].spec_request(
            prev,
            cur,
        ) is None by {
            assert(rest[i] == pre[i + 1]);
        }
        if pre[0].spec_keep(prev, cur) {
            lemma_read_after_write(rest, prev, cur, post.drop_first(), final_prev, final_cur);
        } else {
            lemma_read_after_write(rest, prev, cur, post, final_prev, final_cur);
        }
    }
}

/// A notification pass keeps exactly the subscribers that answer `true`:
/// the list that survives a pass has length `count_kept`.
pub proof fn lemma_pass_kept_count<T, S: Subscriber<T>>(
    pre: Seq<S>,
    prev: T,
    cur: T,
    post: Seq<S>,
    final_prev: T,
    final_cur: T,
)
    requires
        pass_rel(pre, prev, cur, post, final_prev, final_cur),
    ensures
        post.len() == count_kept(pre, prev, cur),
    decreases pre.len(),
{
    if pre.len() > 0 {
        let s = pre[0];
        let step_prev = if s.spec_request(prev, cur) is Some {
            cur
        } else {
            prev
        };
        let step_cur = match s.spec_request(prev, cur) {
            Some(w) => w,
            None => cur,
        };
        if s.spec_keep(prev, cur) {
            lemma_pass_kept_count(
                pre.drop_first(),
                step_prev,
                step_cur,
                post.drop_first(),
                final_prev,
                final_cur,
            );
        } else {
            lemma_pass_kept_count(pre.drop_first(), step_prev, step_cur, post, final_prev, final_cur);
        }
    }
}

/// Detach removes: when no subscriber of a pass requests a follow-up write
/// and some subscriber declines to be kept, the list that survives the pass
/// is strictly shorter than the list the pass started with.
pub proof fn lemma_dropped_subscriber_leaves<T, S: Subscriber<T>>(
    pre: Seq<S>,
    prev: T,
    cur: T,
    post: Seq<S>,
    final_prev: T,
    final_cur: T,
    i: int,
)
    requires
        pass_rel(pre, prev, cur, post, final_prev, final_cur),
        forall|j: int| 0 <= j < pre.len() ==> #[trigger] pre[j].spec_request(prev, cur) is None,
        0 <= i < pre.len(),
        !pre[i].spec_keep(prev, cur),
    ensures
        post.len() < pre.len(),
{
    lemma_pass_kept_count(pre, prev, cur, post, final_prev, final_cur);
    lemma_count_kept_lt(pre, prev, cur, i);
}

/// Under the hypotheses of [`lemma_dropped_subscriber_leaves`], fewer
/// subscribers are kept than were notified.
proof fn lemma_count_kept_lt<T, S: Subscriber<T>>(pre: Seq<S>, prev: T, cur: T, i: int)
    requires
        forall|j: int| 0 <= j < pre.len() ==> #[trigger] pre[j].spec_request(prev, cur) is None,
        0 <= i < pre.len(),
        !pre[i].spec_keep(prev, cur),
    ensures
        count_kept(pre, prev, cur) < pre.len(),
    decreases pre.len(),
{
    lemma_count_kept_le(pre, prev, cur);
    let rest = pre.drop_first();
    assert forall|j: int| 0 <= j < rest.len() implies #[trigger] rest[j].spec_request(
        prev,
        cur,
    ) is None by {
        assert(rest[j] == pre[j + 1]);
    }
    if i == 0 {
        lemma_count_kept_le(rest, prev, cur);
    } else {
        assert(rest[i - 1] == pre[i]);
        lemma_count_kept_lt(rest, prev, cur, i - 1);
    }
}

/// A pass never keeps more subscribers than it notified.
proof fn lemma_count_kept_le<T, S: Subscriber<T>>(pre: Seq<S>, prev: T, cur: T)
    ensures
        count_kept(pre, prev, cur) <= pre.len(),
    decreases pre.len(),
{
    if pre.len() > 0 {
        let s = pre[0];
        let step_prev = if s.spec_request(prev, cur) is Some {
            cur
        } else {
            prev
        };
        let step_cur = match s.spec_request(prev, cur) {
            Some(w) => w,
            None => cur,
        };
        lemma_count_kept_le(pre.drop_first(), step_prev, step_cur);
    }
}

/// Reentrant write ordering: when exactly one subscriber of a pass — say the
/// one at position `k` — requests a follow-up write `w`, the pass ends with
/// `w` as the current state and the outer write as the previous one, and
/// every subscriber after position `k` is notified with that final pair, not
/// with the intermediate one.
pub proof fn lemma_reentrant_write_orders<T, S: Subscriber<T>>(
    pre: Seq<S>,
    prev: T,
    cur: T,
    post: Seq<S>,
    final_prev: T,
    final_cur: T,
    k: int,
    w: T,
)
    requires
        pass_rel(pre, prev, cur, post, final_prev, final_cur),
        0 <= k < pre.len(),
        pre[k].spec_request(prev, cur) == Some(w),
        forall|i: int| 0 <= i < k ==> #[trigger] pre[i].spec_request(prev, cur) is None,
        forall|i: int| k < i < pre.len() ==> #[trigger] pre[i].spec_request(cur, w) is None,
    ensures
        final_prev == cur,
        final_cur == w,
        forall|i: int| k < i < pre.len() ==> pass_pair(pre, prev, cur, i) == (cur, w),
    decreases pre.len(),
{
    let rest = pre.drop_first();
    if k == 0 {
        assert forall|i: int| 0 <= i < rest.len() implies #[trigger] rest[i].spec_request(
            cur,
            w,
        ) is None by {
            assert(rest[i] == pre[i + 1]);
        }
        if pre[0].spec_keep(prev, cur) {
            lemma_read_after_write(rest, cur, w, post.drop_first(), final_prev, final_cur);
        } else {
            lemma_read_after_write(rest, cur, w, post, final_prev, final_cur);
        }
        lemma_pass_pair_constant(rest, cur, w);
        assert forall|i: int| k < i < pre.len() implies pass_pair(pre, prev, cur, i) == (
            cur,
            w,
        ) by {
            assert(pass_pair(pre, prev, cur, i) == pass_pair(rest, cur, w, i - 1));
        }
    } else {
        assert(pre[0].spec_request(prev, cur) is None);
        assert forall|i: int| 0 <= i < k - 1 implies #[trigger] rest[i].spec_request(
            prev,
            cur,
        ) is None by {
            assert(rest[i] == pre[i + 1]);
        }
        assert forall|i: int| k - 1 < i < rest.len() implies #[trigger] rest[i].spec_request(
            cur,
            w,
        ) is None by {
            assert(rest[i] == pre[i + 1]);
        }
        assert(rest[k - 1] == pre[k]);
        if pre[0].spec_keep(prev, cur) {
            lemma_reentrant_write_orders(
                rest,
                prev,
                cur,
                post.drop_first(),
                final_prev,
                final_cur,
                k - 1,
                w,
            );
        } else {
            lemma_reentrant_write_orders(rest, prev, cur, post, final_prev, final_cur, k - 1, w);
        }
        assert forall|i: int| k < i < pre.len() implies pass_pair(pre, prev, cur, i) == (
            cur,
            w,
        ) by {
            assert(pass_pair(pre, prev, cur, i) == pass_pair(rest, prev, cur, i - 1));
        }
    }
}

/// When no subscriber of a pass requests a follow-up write, every subscriber
/// of the pass is notified with the pair the pass started with.
pub proof fn lemma_pass_pair_constant<T, S: Subscriber<T>>(pre: Seq<S>, prev: T, cur: T)
    requires
        forall|i: int| 0 <= i < pre.len() ==> #[trigger] pre[i].spec_request(prev, cur) is None,
    ensures
        forall|i: int| pass_pair(pre, prev, cur, i) == (prev, cur),
    decreases pre.len(),
{
    if pre.len() > 0 {
        assert(pre[0].spec_request(prev, cur) is None);
        let rest = pre.drop_first();
        assert forall|i: int| 0 <= i < rest.len() implies #[trigger] rest[i].spec_request(
            prev,
            cur,
        ) is None by {
            assert(rest[i] == pre[i + 1]);
        }
        lemma_pass_pair_constant(rest, prev, cur);
        assert forall|i: int| pass_pair(pre, prev, cur, i) == (prev, cur) by {
            if i > 0 {
                assert(pass_pair(pre, prev, cur, i) == pass_pair(rest, prev, cur, i - 1));
            }
        }
    }
}

} // verus!
