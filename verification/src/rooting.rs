//! The liveness registry: a scoped, stack-disciplined collection of holds
//! that keeps every chain member alive for the duration of one dispatch call.

use vstd::prelude::*;

verus! {

/// One instrumented registry operation.
#[derive(Clone, Copy, PartialEq, Eq, Structural, Debug)]
pub enum RootOp {
    /// A strong hold on the node was acquired.
    Acquire(usize),
    /// The hold on the node was released.
    Release(usize),
}

/// The nodes acquired in `log`, in acquisition order.
pub open spec fn acquires_of(log: Seq<RootOp>) -> Seq<usize>
    decreases log.len(),
{
    if log.len() == 0 {
        Seq::empty()
    } else {
        let init = acquires_of(log.drop_last());
        match log.last() {
            RootOp::Acquire(n) => init.push(n),
            RootOp::Release(_) => init,
        }
    }
}

/// The nodes released in `log`, in release order.
pub open spec fn releases_of(log: Seq<RootOp>) -> Seq<usize>
    decreases log.len(),
{
    if log.len() == 0 {
        Seq::empty()
    } else {
        let init = releases_of(log.drop_last());
        match log.last() {
            RootOp::Acquire(_) => init,
            RootOp::Release(n) => init.push(n),
        }
    }
}

/// A scoped liveness registry, opened at the start of a dispatch call.
///
/// `held` lists the holds currently outstanding, in acquisition order; `log`
/// is the instrumented trace of every acquire and release.
pub struct RootCollection {
    pub held: Vec<usize>,
    pub log: Vec<RootOp>,
}

impl RootCollection {
    pub fn new() -> (r: RootCollection)
        ensures
            r.held@ =~= Seq::<usize>::empty(),
            r.log@ =~= Seq::<RootOp>::empty(),
    {
        RootCollection { held: Vec::new(), log: Vec::new() }
    }

    /// Acquire a strong hold on `node`, preventing its reclamation until the
    /// hold is released.
    pub fn root(&mut self, node: usize)
        ensures
            final(self).held@ == old(self).held@.push(node),
            final(self).log@ == old(self).log@.push(RootOp::Acquire(node)),
    {
        self.held.push(node);
        self.log.push(RootOp::Acquire(node));
    }

    /// Release every outstanding hold, in exactly the reverse of acquisition
    /// order — the stack discipline the target environment demands.
    pub fn unroot_all(&mut self)
        ensures
            final(self).held@ =~= Seq::<usize>::empty(),
            final(self).log@ == old(self).log@ + release_ops(old(self).held@.reverse()),
    {
        let ghost orig_held = self.held@;
        let ghost orig_log = self.log@;
        loop
            invariant
                orig_held.subrange(0, self.held@.len() as int) == self.held@,
                self.held@.len() <= orig_held.len(),
                self.log@ == orig_log + release_ops(
                    orig_held.subrange(self.held@.len() as int, orig_held.len() as int).reverse(),
                ),
            ensures
                self.held@ =~= Seq::<usize>::empty(),
                self.log@ == orig_log + release_ops(orig_held.reverse()),
            decreases self.held@.len(),
        {
            proof {
                assert(orig_held.subrange(0, self.held@.len() as int) == self.held@);
            }
            match self.held.pop() {
                Some(n) => {
                    proof {
                        let k = self.held@.len() as int;
                        assert(orig_held.subrange(0, k + 1).drop_last() =~= orig_held.subrange(0, k));
                        assert(n == orig_held[k]);
                        let tail_old = orig_held.subrange(k + 1, orig_held.len() as int);
                        let tail_new = orig_held.subrange(k, orig_held.len() as int);
                        assert(tail_new.reverse() =~= tail_old.reverse().push(orig_held[k]));
                        lemma_release_ops_push(tail_old.reverse(), n);
                        assert((orig_log + release_ops(tail_old.reverse())).push(RootOp::Release(n))
                            =~= orig_log + release_ops(tail_new.reverse()));
                    }
                    self.log.push(RootOp::Release(n));
                }
                None => {
                    proof {
                        assert(orig_held.subrange(0, orig_held.len() as int) =~= orig_held);
                    }
                    break;
                }
            }
        }
    }
}

/// The release operations for the nodes of `s`, in order.
pub open spec fn release_ops(s: Seq<usize>) -> Seq<RootOp>
    decreases s.len(),
{
    if s.len() == 0 {
        Seq::empty()
    } else {
        release_ops(s.drop_last()).push(RootOp::Release(s.last()))
    }
}

proof fn lemma_release_ops_push(s: Seq<usize>, n: usize)
    ensures
        release_ops(s.push(n)) == release_ops(s).push(RootOp::Release(n)),
{
    assert(s.push(n).drop_last() =~= s);
    assert(s.push(n).last() == n);
}

/// The liveness registry obeys the stack discipline: over any acquisition
/// sequence `chain`, acquiring every member in order and then releasing all
/// holds yields a log whose releases are exactly the reverse of its
/// acquisitions.
pub proof fn lemma_release_order_is_reverse_of_acquisition(chain: Seq<usize>)
    ensures
        acquires_of(acquire_ops(chain) + release_ops(chain.reverse())) == chain,
        releases_of(acquire_ops(chain) + release_ops(chain.reverse())) == chain.reverse(),
{
    let log = acquire_ops(chain) + release_ops(chain.reverse());
    lemma_acquires_of_concat(acquire_ops(chain), release_ops(chain.reverse()));
    lemma_releases_of_concat(acquire_ops(chain), release_ops(chain.reverse()));
    lemma_acquire_ops_ops(chain);
    lemma_release_ops_ops(chain.reverse());
    assert(acquires_of(log) =~= chain);
    assert(releases_of(log) =~= chain.reverse());
}

/// The acquisition operations for the nodes of `s`, in order.
pub open spec fn acquire_ops(s: Seq<usize>) -> Seq<RootOp>
    decreases s.len(),
{
    if s.len() == 0 {
        Seq::empty()
    } else {
        acquire_ops(s.drop_last()).push(RootOp::Acquire(s.last()))
    }
}

proof fn lemma_acquire_ops_ops(s: Seq<usize>)
    ensures
        acquires_of(acquire_ops(s)) == s,
        releases_of(acquire_ops(s)) == Seq::<usize>::empty(),
    decreases s.len(),
{
    if s.len() == 0 {
        assert(acquires_of(acquire_ops(s)) =~= s);
    } else {
        lemma_acquire_ops_ops(s.drop_last());
        assert(acquire_ops(s).drop_last() =~= acquire_ops(s.drop_last()));
        assert(acquires_of(acquire_ops(s)) =~= s);
    }
}

proof fn lemma_release_ops_ops(s: Seq<usize>)
    ensures
        releases_of(release_ops(s)) == s,
        acquires_of(release_ops(s)) == Seq::<usize>::empty(),
    decreases s.len(),
{
    if s.len() == 0 {
        assert(releases_of(release_ops(s)) =~= s);
    } else {
        lemma_release_ops_ops(s.drop_last());
        assert(release_ops(s).drop_last() =~= release_ops(s.drop_last()));
        assert(releases_of(release_ops(s)) =~= s);
    }
}

proof fn lemma_acquires_of_concat(a: Seq<RootOp>, b: Seq<RootOp>)
    ensures
        acquires_of(a + b) == acquires_of(a) + acquires_of(b),
    decreases b.len(),
{
    if b.len() == 0 {
        assert(a + b =~= a);
        assert(acquires_of(a) + acquires_of(b) =~= acquires_of(a));
    } else {
        lemma_acquires_of_concat(a, b.drop_last());
        assert((a + b).drop_last() =~= a + b.drop_last());
        assert((a + b).last() == b.last());
        assert(acquires_of(a + b) =~= acquires_of(a) + acquires_of(b));
    }
}

proof fn lemma_releases_of_concat(a: Seq<RootOp>, b: Seq<RootOp>)
    ensures
        releases_of(a + b) == releases_of(a) + releases_of(b),
    decreases b.len(),
{
    if b.len() == 0 {
        assert(a + b =~= a);
        assert(releases_of(a) + releases_of(b) =~= releases_of(a));
    } else {
        lemma_releases_of_concat(a, b.drop_last());
        assert((a + b).drop_last() =~= a + b.drop_last());
        assert((a + b).last() == b.last());
        assert(releases_of(a + b) =~= releases_of(a) + releases_of(b));
    }
}

} // verus!
