//! Write-channel utility for the nullable infrastructure wrappers.
//!
//! A wrapper holds an [`OutputListener`] and emits domain data at the moment
//! of each write. A caller subscribes with [`OutputListener::track`] and gets
//! an [`OutputTracker`] that sees every write emitted after it subscribed,
//! until it is released.

use vstd::prelude::*;

verus! {

/// The writes of one wrapper, recorded while anyone is tracking them.
#[derive(Debug)]
pub struct OutputListener<T> {
    log: Vec<T>,
    /// For each tracker ever handed out: where its view of `log` starts, or
    /// `None` once released.
    starts: Vec<Option<usize>>,
}

/// A subscription to the writes of one [`OutputListener`].
#[derive(Debug)]
pub struct OutputTracker<T> {
    id: usize,
    marker: core::marker::PhantomData<T>,
}

impl<T> OutputListener<T> {
    /// The writes recorded so far.
    pub closed spec fn log(&self) -> Seq<T> {
        self.log@
    }

    /// For each tracker: where its writes start in [`Self::log`], if it is
    /// still subscribed.
    pub closed spec fn starts(&self) -> Seq<Option<usize>> {
        self.starts@
    }

    /// Every start lies within the log.
    pub open spec fn wf(&self) -> bool {
        forall|i: int|
            0 <= i < self.starts().len() ==> (#[trigger] self.starts()[i] matches Some(s) ==> s
                <= self.log().len())
    }

    /// Whether some tracker is subscribed.
    pub open spec fn subscribed(&self) -> bool {
        exists|i: int| 0 <= i < self.starts().len() && #[trigger] self.starts()[i] is Some
    }

    /// Whether the tracker `id` was handed out and is still subscribed.
    pub open spec fn live(&self, id: nat) -> bool {
        id < self.starts().len() && self.starts()[id as int] is Some
    }

    /// The writes the tracker `id` has seen: those emitted since it
    /// subscribed, or none once released.
    pub open spec fn seen_by(&self, id: nat) -> Seq<T> {
        if self.live(id) {
            self.log().skip(self.starts()[id as int]->Some_0 as int)
        } else {
            seq![]
        }
    }

    /// Whether `after` is what one [`Self::emit`] of `data` makes of `self`.
    pub open spec fn emits(&self, after: OutputListener<T>, data: T) -> bool {
        &&& after.wf()
        &&& after.starts() == self.starts()
        &&& after.log() == if self.subscribed() {
            self.log().push(data)
        } else {
            self.log()
        }
    }

    /// Whether `after` is what one [`Self::track`] makes of `self`.
    pub open spec fn tracks(&self, after: OutputListener<T>) -> bool {
        &&& after.wf()
        &&& after.log() == self.log()
        &&& after.starts().len() == self.starts().len() + 1
        &&& after.starts().drop_last() == self.starts()
        &&& after.starts().last() matches Some(s) && s == self.log().len()
    }

    /// A listener with no trackers.
    pub fn new() -> (r: Self)
        ensures
            r.wf(),
            r.log() == Seq::<T>::empty(),
            r.starts() == Seq::<Option<usize>>::empty(),
    {
        OutputListener { log: Vec::new(), starts: Vec::new() }
    }

    /// Record one write. A no-op unless a tracker is subscribed.
    pub fn emit(&mut self, data: T)
        requires
            old(self).wf(),
        ensures
            old(self).emits(*final(self), data),
            forall|id: nat|
                #[trigger] final(self).seen_by(id) == if old(self).live(id) {
                    old(self).seen_by(id).push(data)
                } else {
                    Seq::<T>::empty()
                },
    {
        let mut any = false;
        let mut i: usize = 0;
        while i < self.starts.len()
            invariant
                i <= self.starts@.len(),
                any == exists|j: int| 0 <= j < i && #[trigger] self.starts@[j] is Some,
            decreases self.starts@.len() - i,
        {
            if self.starts[i].is_some() {
                any = true;
            }
            i = i + 1;
        }
        if any {
            self.log.push(data);
        }
        proof {
            lemma_emit_seen(*old(self), *self, data);
        }
    }

    /// Subscribe to every write emitted from now on.
    pub fn track(&mut self) -> (r: OutputTracker<T>)
        requires
            old(self).wf(),
        ensures
            old(self).tracks(*final(self)),
            r.id() == old(self).starts().len(),
            final(self).live(r.id()),
            final(self).seen_by(r.id()) == Seq::<T>::empty(),
            forall|id: nat|
                id != r.id() ==> #[trigger] final(self).seen_by(id) == old(self).seen_by(id),
    {
        let id = self.starts.len();
        self.starts.push(Some(self.log.len()));
        assert(self.starts().drop_last() =~= old(self).starts());
        assert(self.log().skip(self.log().len() as int) =~= Seq::<T>::empty());
        OutputTracker { id, marker: core::marker::PhantomData }
    }

    /// End a subscription: the tracker's writes are no longer observable.
    pub fn release(&mut self, tracker: OutputTracker<T>)
        requires
            old(self).wf(),
        ensures
            final(self).wf(),
            final(self).log() == old(self).log(),
            final(self).starts() == if tracker.id() < old(self).starts().len() {
                old(self).starts().update(tracker.id() as int, None)
            } else {
                old(self).starts()
            },
            final(self).seen_by(tracker.id()) == Seq::<T>::empty(),
            forall|id: nat|
                id != tracker.id() ==> #[trigger] final(self).seen_by(id) == old(self).seen_by(id),
    {
        if tracker.id < self.starts.len() {
            self.starts.set(tracker.id, None);
        }
    }
}

impl<T> OutputTracker<T> {
    /// Which subscription of its listener this is.
    pub closed spec fn id(&self) -> nat {
        self.id as nat
    }

    /// The writes this tracker has seen: those emitted to `listener` since
    /// it subscribed, or none once released.
    pub open spec fn seen(&self, listener: &OutputListener<T>) -> Seq<T> {
        listener.seen_by(self.id())
    }
}

impl<T: Clone> OutputTracker<T> {
    /// Copies of the writes this tracker has seen, in order.
    pub fn data(&self, listener: &OutputListener<T>) -> (r: Vec<T>)
        requires
            listener.wf(),
        ensures
            r@.len() == self.seen(listener).len(),
            forall|i: int| 0 <= i < r@.len() ==> cloned(self.seen(listener)[i], #[trigger] r@[i]),
    {
        let mut r: Vec<T> = Vec::new();
        if self.id < listener.starts.len() {
            if let Some(s) = listener.starts[self.id] {
                let mut i = s;
                while i < listener.log.len()
                    invariant
                        s <= i <= listener.log@.len(),
                        listener.starts@[self.id as int] == Some(s),
                        self.id < listener.starts@.len(),
                        r@.len() == i - s,
                        forall|k: int|
                            0 <= k < r@.len() ==> cloned(listener.log@[s + k], #[trigger] r@[k]),
                    decreases listener.log@.len() - i,
                {
                    let c = listener.log[i].clone();
                    r.push(c);
                    i = i + 1;
                }
            }
        }
        r
    }
}

} // verus!

verus! {

/// A released tracker sees no writes.
pub proof fn law_released_tracker_sees_nothing<T>(
    listener: OutputListener<T>,
    tracker: OutputTracker<T>,
)
    requires
        tracker.id() < listener.starts().len(),
        listener.starts()[tracker.id() as int] is None,
    ensures
        tracker.seen(&listener) == Seq::<T>::empty(),
{
}

/// One emit appends its data to what every subscribed tracker has seen, and
/// leaves the others seeing nothing.
pub proof fn lemma_emit_seen<T>(before: OutputListener<T>, after: OutputListener<T>, data: T)
    requires
        before.wf(),
        before.emits(after, data),
    ensures
        forall|id: nat|
            #[trigger] after.seen_by(id) == if before.live(id) {
                before.seen_by(id).push(data)
            } else {
                Seq::<T>::empty()
            },
{
    assert forall|id: nat| #[trigger] after.seen_by(id) == if before.live(id) {
        before.seen_by(id).push(data)
    } else {
        Seq::<T>::empty()
    } by {
        if before.live(id) {
            assert(before.starts()[id as int] is Some);
            assert(before.subscribed());
            let s = before.starts()[id as int]->Some_0 as int;
            assert(after.log().skip(s) =~= before.log().skip(s).push(data));
        }
    }
}

/// A tracker sees exactly the writes emitted after it subscribed, in the
/// order they were emitted: subscribe to `before`, giving `states[0]`, then
/// emit each of `writes` in turn, giving the later states.
pub proof fn law_tracker_sees_the_writes_since_it_subscribed<T>(
    before: OutputListener<T>,
    states: Seq<OutputListener<T>>,
    writes: Seq<T>,
)
    requires
        before.wf(),
        states.len() == writes.len() + 1,
        before.tracks(states[0]),
        forall|i: int| 0 <= i < writes.len() ==> #[trigger] states[i].emits(states[i + 1], writes[i]),
    ensures
        states.last().seen_by(before.starts().len()) == writes,
    decreases writes.len(),
{
    let id = before.starts().len();
    if writes.len() == 0 {
        assert(states.last() == states[0]);
        assert(states[0].starts()[id as int] == states[0].starts().last());
        assert(states[0].live(id));
        assert(states[0].log().skip(before.log().len() as int) =~= Seq::<T>::empty());
        assert(writes =~= Seq::<T>::empty());
    } else {
        let n = writes.len() - 1;
        assert forall|i: int| 0 <= i < n implies #[trigger] states.drop_last()[i].emits(
            states.drop_last()[i + 1],
            writes.drop_last()[i],
        ) by {
            assert(states[i].emits(states[i + 1], writes[i]));
        }
        law_tracker_sees_the_writes_since_it_subscribed(before, states.drop_last(), writes.drop_last());
        assert(states.drop_last().last() == states[n]);
        assert(states[n].emits(states[n + 1], writes[n]));
        if n > 0 {
            let m = n - 1;
            assert(states[m].emits(states[m + 1], writes[m]));
        }
        assert(states[n].wf());
        assert(states[n].live(id));
        lemma_emit_seen(states[n], states[n + 1], writes[n]);
        assert(states.last() == states[n + 1]);
        assert(states[n + 1].seen_by(id) == states[n].seen_by(id).push(writes[n]));
        assert(writes.drop_last().push(writes[n]) =~= writes);
    }
}

} // verus!
