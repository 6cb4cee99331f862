use vstd::prelude::*;
use vstd::pervasive::VecAdditionalExecFns;

verus! {

// ---------------------------------------------------------------------------
// The shutdown latch: one shared state, any number of handles, each bound to
// a waiter slot.  The first handle to be disposed of signals the latch once
// and hands back the continuations of every other slot so that the caller
// can wake them; polling after that resolves immediately, forever.
//
// This type is the latch's shared state and decision logic.  The caller owns
// the sharing: it keeps one `Shutdown` behind its lock of choice, gives each
// handle a slot id from `another`, polls with `poll`, and wakes whatever
// `dispose` hands back.  `W` is the caller's continuation type (a waker).
// ---------------------------------------------------------------------------

/// The waiters of every slot but `id` that hold one, in slot order: what the
/// first disposal hands back to be woken.
pub open spec fn wake_list_upto<W>(slots: Seq<Option<W>>, id: int, k: int) -> Seq<W>
    decreases k,
{
    if k <= 0 {
        Seq::<W>::empty()
    } else {
        wake_list_upto(slots, id, k - 1) + if k - 1 != id && slots[k - 1] is Some {
            seq![slots[k - 1].unwrap()]
        } else {
            Seq::<W>::empty()
        }
    }
}

pub open spec fn wake_list<W>(slots: Seq<Option<W>>, id: int) -> Seq<W> {
    wake_list_upto(slots, id, slots.len() as int)
}

/// The single-fire, multi-waiter shutdown latch state.
pub struct Shutdown<W> {
    ready: bool,
    tasks: Vec<Option<W>>,
}

impl<W> Shutdown<W> {
    /// The latch has fired.  Monotonic: never reverts to false.
    pub closed spec fn signaled(&self) -> bool {
        self.ready
    }

    /// The waiter slots, one per handle, in slot-id order.
    pub closed spec fn waiters(&self) -> Seq<Option<W>> {
        self.tasks@
    }

    /// A fresh latch: not signaled, with one empty slot (id 0) reserved for
    /// the creator.
    pub fn new() -> (s: Shutdown<W>)
        ensures
            !s.signaled(),
            s.waiters() =~= seq![Option::<W>::None],
    {
        let mut tasks: Vec<Option<W>> = Vec::new();
        tasks.push(None);
        Shutdown { ready: false, tasks }
    }

    /// Registers one more handle: a new empty waiter slot, whose id the new
    /// handle keeps.  The signaled flag is untouched, so a handle forked
    /// after the latch fired resolves on its first poll.
    pub fn another(&mut self) -> (id: usize)
        ensures
            id == old(self).waiters().len(),
            final(self).waiters() == old(self).waiters().push(None),
            final(self).signaled() == old(self).signaled(),
    {
        let id = self.tasks.len();
        self.tasks.push(None);
        id
    }

    /// One poll of the handle bound to slot `id`: resolved exactly when the
    /// latch has been signaled; until then the handle's continuation is
    /// recorded (replacing any earlier one) so that the disposal broadcast
    /// reaches it.
    pub fn poll(&mut self, id: usize, waker: W) -> (ready: bool)
        requires
            id < old(self).waiters().len(),
        ensures
            ready == old(self).signaled(),
            final(self).signaled() == old(self).signaled(),
            ready ==> final(self).waiters() == old(self).waiters(),
            !ready ==> final(self).waiters() == old(self).waiters().update(
                id as int,
                Some(waker),
            ),
    {
        if self.ready {
            true
        } else {
            self.tasks.set(id, Some(waker));
            false
        }
    }

    /// Disposal of the handle bound to slot `id`.  The first disposal
    /// signals the latch and hands back the recorded continuation of every
    /// *other* slot, in slot order, to be woken (the disposed handle is
    /// exiting, not waiting); the handed-back slots are emptied.  Every
    /// later disposal is a no-op that hands back nothing.
    pub fn dispose(&mut self, id: usize) -> (wake: Vec<W>)
        requires
            id < old(self).waiters().len(),
        ensures
            final(self).signaled(),
            final(self).waiters().len() == old(self).waiters().len(),
            old(self).signaled() ==> wake@ == Seq::<W>::empty() && final(self).waiters() == old(
                self,
            ).waiters(),
            !old(self).signaled() ==> wake@ == wake_list(old(self).waiters(), id as int),
            !old(self).signaled() ==> forall|k: int|
                0 <= k < old(self).waiters().len() ==> #[trigger] final(self).waiters()[k] == (
                if k == id {
                    old(self).waiters()[k]
                } else {
                    None::<W>
                }),
    {
        if self.ready {
            Vec::new()
        } else {
            self.ready = true;
            let ghost slots0 = self.tasks@;
            let n = self.tasks.len();
            let mut wake: Vec<W> = Vec::new();
            let mut j: usize = 0;
            while j < n
                invariant
                    0 <= j <= n,
                    n == self.tasks@.len(),
                    n == slots0.len(),
                    id < n,
                    self.ready,
                    wake@ == wake_list_upto(slots0, id as int, j as int),
                    forall|k: int|
                        j <= k < n ==> #[trigger] self.tasks@[k] == slots0[k],
                    forall|k: int|
                        0 <= k < j ==> #[trigger] self.tasks@[k] == (if k == id {
                            slots0[k]
                        } else {
                            None::<W>
                        }),
                decreases n - j,
            {
                if j != id {
                    let mut taken: Option<W> = None;
                    self.tasks.set_and_swap(j, &mut taken);
                    match taken {
                        Some(w) => {
                            wake.push(w);
                            assert(wake@ =~= wake_list_upto(slots0, id as int, j + 1));
                        },
                        None => {
                            assert(wake@ =~= wake_list_upto(slots0, id as int, j + 1));
                        },
                    }
                } else {
                    assert(wake@ =~= wake_list_upto(slots0, id as int, j + 1));
                }
                j = j + 1;
            }
            wake
        }
    }
}

/// The broadcast is complete: whichever other slot held a waiter when the
/// latch fired, that waiter is in what the firing disposal hands back.
pub proof fn lemma_wake_list_complete<W>(slots: Seq<Option<W>>, id: int, j: int)
    ensures
        0 <= j < slots.len() && j != id && slots[j] is Some ==> wake_list(
            slots,
            id,
        ).contains(slots[j].unwrap()),
{
    if 0 <= j < slots.len() && j != id && slots[j] is Some {
        lemma_wake_list_upto_complete(slots, id, j, slots.len() as int);
    }
}

proof fn lemma_wake_list_upto_complete<W>(slots: Seq<Option<W>>, id: int, j: int, k: int)
    requires
        0 <= j < k <= slots.len(),
        j != id,
        slots[j] is Some,
    ensures
        wake_list_upto(slots, id, k).contains(slots[j].unwrap()),
    decreases k,
{
    if j == k - 1 {
        let w = wake_list_upto(slots, id, k);
        let prefix = wake_list_upto(slots, id, k - 1);
        assert(w[prefix.len() as int] == slots[j].unwrap());
    } else {
        lemma_wake_list_upto_complete(slots, id, j, k - 1);
        let prefix = wake_list_upto(slots, id, k - 1);
        let u = choose|u: int| 0 <= u < prefix.len() && prefix[u] == slots[j].unwrap();
        assert(wake_list_upto(slots, id, k)[u] == slots[j].unwrap());
    }
}

/// The broadcast is sound: everything the firing disposal hands back was the
/// recorded waiter of some slot other than the disposed one.
pub proof fn lemma_wake_list_sound<W>(slots: Seq<Option<W>>, id: int, u: int)
    requires
        0 <= u < wake_list(slots, id).len(),
    ensures
        exists|j: int|
            0 <= j < slots.len() && j != id && slots[j] == Some(
                #[trigger] wake_list(slots, id)[u],
            ),
{
    lemma_wake_list_upto_sound(slots, id, u, slots.len() as int);
}

proof fn lemma_wake_list_upto_sound<W>(slots: Seq<Option<W>>, id: int, u: int, k: int)
    requires
        0 <= k <= slots.len(),
        0 <= u < wake_list_upto(slots, id, k).len(),
    ensures
        exists|j: int|
            0 <= j < k && j != id && slots[j] == Some(
                #[trigger] wake_list_upto(slots, id, k)[u],
            ),
    decreases k,
{
    let w = wake_list_upto(slots, id, k);
    let prefix = wake_list_upto(slots, id, k - 1);
    if k > 0 && u < prefix.len() {
        lemma_wake_list_upto_sound(slots, id, u, k - 1);
        let j = choose|j: int| 0 <= j < k - 1 && j != id && slots[j] == Some(prefix[u]);
        assert(w[u] == prefix[u]);
        assert(slots[j] == Some(w[u]));
    } else {
        assert(k - 1 != id && slots[k - 1] is Some);
        assert(w[u] == slots[k - 1].unwrap());
        assert(slots[k - 1] == Some(w[u]));
    }
}

} // verus!
