//! A global unix signal broadcasting
//!
//! Every time the concrete signal happens, all corresponding receivers get notified.
//!
//! There's no way to unregister currently, only by dropping the receiver. Once another signal is
//! attempted to be sent, the sender is also dropped. Note that the signal handler is never switched
//! back after the first registration.
use vstd::prelude::*;

use crate::signal::{Signal, NSIG};

verus! {

/// How many signals there are.
pub const SIG_COUNT: usize = 32;

/// Who is interested in which signals.
pub struct SignalDispatch<N> {
    /// The notifiers of the receivers, for each signal.
    pub registered: Vec<Vec<N>>,
    /// Is the handler of the signal set up?
    pub setup: Vec<bool>,
}

/// How an attempt to wake a receiver up ended.
#[derive(Debug, Clone, Copy, PartialEq, Eq, Structural)]
pub enum Wakeup {
    /// It went well.
    Sent,
    /// There's some wakeup there already, so it will wake up anyway.
    Full,
    /// The other side is gone.
    Disconnected,
}

/// There's still someone at the other end.
pub open spec fn connected<N>() -> spec_fn((N, Wakeup)) -> bool {
    |woken: (N, Wakeup)| woken.1 != Wakeup::Disconnected
}

/// The notifiers with someone at the other end, in order.
pub open spec fn kept<N>(woken: Seq<(N, Wakeup)>) -> Seq<N> {
    woken.filter(connected()).map_values(|w: (N, Wakeup)| w.0)
}

/// Every notifier was marked with the signal and then used for waking up.
pub open spec fn notified<N, M: Fn(N, usize) -> N, W: Fn(N) -> (N, Wakeup)>(
    notifiers: Seq<N>,
    snum: usize,
    mark: M,
    wake: W,
    marked: Seq<N>,
    woken: Seq<(N, Wakeup)>,
) -> bool {
    &&& marked.len() == notifiers.len()
    &&& woken.len() == notifiers.len()
    &&& forall|i: int|
        0 <= i < notifiers.len() ==> mark.ensures((notifiers[i], snum), #[trigger] marked[i])
    &&& forall|i: int|
        0 <= i < notifiers.len() ==> wake.ensures((marked[i],), #[trigger] woken[i])
}

impl<N> SignalDispatch<N> {
    /// There is an entry for each signal.
    pub open spec fn wf(&self) -> bool {
        self.registered@.len() == SIG_COUNT && self.setup@.len() == SIG_COUNT
    }

    /// Nobody is interested in anything.
    pub fn new() -> (d: SignalDispatch<N>)
        ensures
            d.wf(),
            forall|i: int| 0 <= i < SIG_COUNT ==> (#[trigger] d.registered@[i])@.len() == 0,
            forall|i: int| 0 <= i < SIG_COUNT ==> !#[trigger] d.setup@[i],
    {
        let mut d: SignalDispatch<N> = SignalDispatch { registered: Vec::new(), setup: Vec::new() };
        let mut i: usize = 0;
        while i < SIG_COUNT
            invariant
                i <= SIG_COUNT,
                d.registered@.len() == i,
                d.setup@.len() == i,
                forall|j: int| 0 <= j < i ==> (#[trigger] d.registered@[j])@.len() == 0,
                forall|j: int| 0 <= j < i ==> !#[trigger] d.setup@[j],
            decreases SIG_COUNT - i,
        {
            d.registered.push(Vec::new());
            d.setup.push(false);
            i = i + 1;
        }
        d
    }

    /// Add another receiver of the signal.
    ///
    /// If the result is true, the handler of the signal is to be set up, as nobody needed it yet.
    pub fn register(&mut self, signal: Signal, notifier: N) -> (needs_setup: bool)
        requires
            old(self).wf(),
        ensures
            final(self).wf(),
            needs_setup == !old(self).setup@[signal.num() as int],
            final(self).setup@ == old(self).setup@.update(signal.num() as int, true),
            final(self).registered@ == old(self).registered@.update(
                signal.num() as int,
                final(self).registered@[signal.num() as int],
            ),
            final(self).registered@[signal.num() as int]@
                == old(self).registered@[signal.num() as int]@.push(notifier),
    {
        let snum: usize = signal.number() as usize;
        let needs_setup = !self.setup[snum];
        if needs_setup {
            self.setup[snum] = true;
        }
        let list = &mut self.registered[snum];
        list.push(notifier);
        needs_setup
    }

    /// Notify all the receivers of the signal.
    ///
    /// Each notifier is first marked with the signal and then the receiver is woken up. That way
    /// the mark is there for sure when it wakes up. If there's nobody at the other end, the notifier
    /// is dropped.
    ///
    /// Both `mark` and `wake` consume the notifier and give it back. As they are the only ones who
    /// know what they make out of it, each is called exactly once for each receiver of the signal
    /// and never for anybody else.
    pub fn dispatch<M: Fn(N, usize) -> N, W: Fn(N) -> (N, Wakeup)>(
        &mut self,
        signal: i32,
        mark: M,
        wake: W,
    )
        requires
            old(self).wf(),
            0 <= signal < NSIG,
            forall|n: N| #[trigger] mark.requires((n, signal as usize)),
            forall|n: N| #[trigger] wake.requires((n,)),
        ensures
            final(self).wf(),
            final(self).setup == old(self).setup,
            final(self).registered@ == old(self).registered@.update(
                signal as int,
                final(self).registered@[signal as int],
            ),
            exists|marked: Seq<N>, woken: Seq<(N, Wakeup)>|
                {
                    &&& #[trigger] notified(
                        old(self).registered@[signal as int]@,
                        signal as usize,
                        mark,
                        wake,
                        marked,
                        woken,
                    )
                    &&& final(self).registered@[signal as int]@ == kept(woken)
                },
    {
        let snum: usize = signal as usize;
        let ghost all = self.registered@[snum as int]@;
        let mut tmp: Vec<N> = Vec::new();
        // We swap the thing out and put back what is left
        std::mem::swap(&mut tmp, &mut self.registered[snum]);
        let mut left: Vec<N> = Vec::new();
        let ghost mut marked = Seq::<N>::empty();
        let ghost mut woken = Seq::<(N, Wakeup)>::empty();
        proof {
            reveal(Seq::filter);
            assert(left@ =~= kept(woken));
        }
        for notifier in it: tmp
            invariant
                it.seq() == all,
                forall|n: N| #[trigger] mark.requires((n, snum)),
                forall|n: N| #[trigger] wake.requires((n,)),
                notified(all.take(it.index()), snum, mark, wake, marked, woken),
                left@ == kept(woken),
        {
            let ghost asked = notifier;
            let before = mark(notifier, snum);
            let ghost given = before;
            let (after, outcome) = wake(before);
            proof {
                reveal(Seq::filter);
                let i = it.index();
                let w = (after, outcome);
                let old_marked = marked;
                let old_woken = woken;
                marked = marked.push(given);
                woken = woken.push(w);
                assert(woken.drop_last() =~= old_woken);
                assert(all.take(i + 1) =~= all.take(i).push(asked));
                assert forall|j: int| 0 <= j < i + 1 implies mark.ensures(
                    (all.take(i + 1)[j], snum),
                    #[trigger] marked[j],
                ) by {
                    if j < i {
                        assert(marked[j] == old_marked[j]);
                        assert(all.take(i + 1)[j] == all.take(i)[j]);
                    }
                }
                assert forall|j: int| 0 <= j < i + 1 implies wake.ensures(
                    (marked[j],),
                    #[trigger] woken[j],
                ) by {
                    if j < i {
                        assert(marked[j] == old_marked[j]);
                        assert(woken[j] == old_woken[j]);
                    }
                }
                if outcome != Wakeup::Disconnected {
                    assert(kept(woken) =~= kept(old_woken).push(after));
                } else {
                    assert(kept(woken) =~= kept(old_woken));
                }
            }
            if outcome != Wakeup::Disconnected {
                left.push(after);
            }
        }
        proof {
            assert(all.take(all.len() as int) =~= all);
        }
        self.registered[snum] = left;
    }
}

} // verus!
