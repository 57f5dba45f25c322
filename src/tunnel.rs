use vstd::prelude::*;
use crate::load_balancer::{
    lemma_select_in_range, lemma_skipped_only_when_exhausted, skipped, LoadBalancer,
    LoadBalancerPool,
};

verus! {

/// Failover state of one tunnelled connection: which egresses it has tried.
pub struct TunnelAttempt {
    tried: Vec<bool>,
}

/// What to do after a failed connect.
#[derive(Debug, Clone, Copy, PartialEq, Eq, Structural)]
pub enum TunnelStep {
    /// Select again; some egress has not been tried.
    Retry,
    /// Every egress has been tried: give up on the connection.
    Exhausted,
}

impl View for TunnelAttempt {
    type V = Seq<bool>;

    closed spec fn view(&self) -> Seq<bool> {
        self.tried@
    }
}

impl TunnelAttempt {
    /// A fresh attempt over a pool of `n` egresses, none tried yet.
    pub fn new(n: usize) -> (r: Self)
        ensures
            r@ == Seq::new(n as nat, |i: int| false),
    {
        let mut tried: Vec<bool> = Vec::new();
        let mut i: usize = 0;
        while i < n
            invariant
                i <= n,
                tried@ == Seq::new(i as nat, |j: int| false),
            decreases n - i,
        {
            tried.push(false);
            assert(tried@ =~= Seq::new(i as nat + 1, |j: int| false));
            i += 1;
        }
        TunnelAttempt { tried }
    }

    /// Selects the next egress to try, skipping those already tried.
    pub fn next(&self, pool: &mut LoadBalancerPool) -> (r: (LoadBalancer, usize))
        requires
            old(pool)@.wf(),
            self@.len() == old(pool)@.len(),
        ensures
            final(pool)@.wf(),
            r.1 as int == old(pool)@.select(Some(self@), None).0,
            final(pool)@ == old(pool)@.select(Some(self@), None).1,
            r.0 == final(pool)@.egresses[r.1 as int],
            r.1 < self@.len(),
            (exists|i: int| 0 <= i < self@.len() && !self@[i]) ==> !self@[r.1 as int],
    {
        proof {
            lemma_select_in_range(pool@, Some(self@), None);
            lemma_skipped_only_when_exhausted(pool@, Some(self@), None);
        }
        let r = pool.get_load_balancer(Some(self.tried.as_slice()), None);
        proof {
            if exists|i: int| 0 <= i < self@.len() && !self@[i] {
                let w = choose|i: int| 0 <= i < self@.len() && !self@[i];
                assert(!skipped(Some(self@), w));
            }
        }
        r
    }

    /// Records that the egress `idx` failed, and says whether any is left.
    pub fn record_failure(&mut self, idx: usize) -> (r: TunnelStep)
        requires
            idx < old(self)@.len(),
        ensures
            final(self)@ == old(self)@.update(idx as int, true),
            r == TunnelStep::Exhausted <==> forall|i: int|
                0 <= i < final(self)@.len() ==> #[trigger] final(self)@[i],
    {
        self.tried.set(idx, true);
        let mut i: usize = 0;
        while i < self.tried.len()
            invariant
                i <= self.tried@.len(),
                self.tried@ == old(self)@.update(idx as int, true),
                forall|j: int| 0 <= j < i ==> #[trigger] self.tried@[j],
            decreases self.tried@.len() - i,
        {
            if !self.tried[i] {
                assert(!self@[i as int]);
                return TunnelStep::Retry;
            }
            i += 1;
        }
        TunnelStep::Exhausted
    }
}

} // verus!
