//! Bounded FIFO history of recent metric samples, used by the memory graph:
//! pushing beyond the capacity evicts the oldest sample.

use vstd::prelude::*;

verus! {

/// The at most `cap` most recent elements of `s`, oldest first.
pub open spec fn recent(s: Seq<u32>, cap: int) -> Seq<u32> {
    if s.len() <= cap {
        s
    } else {
        s.skip(s.len() - cap)
    }
}

/// `vs` pushed one by one into a history holding `s`, each push trimmed to
/// the `cap` most recent samples.
pub open spec fn push_seq(s: Seq<u32>, vs: Seq<u32>, cap: int) -> Seq<u32>
    decreases vs.len(),
{
    if vs.len() == 0 {
        s
    } else {
        push_seq(recent(s.push(vs[0]), cap), vs.drop_first(), cap)
    }
}

/// Bounded ordered sequence of recent samples; the oldest sample is evicted
/// on overflow.
pub struct SampleHistory {
    samples: Vec<u32>,
}

impl SampleHistory {
    pub closed spec fn view_seq(&self) -> Seq<u32> {
        self.samples@
    }

    pub fn new() -> (r: SampleHistory)
        ensures
            r.view_seq() == Seq::<u32>::empty(),
    {
        SampleHistory { samples: Vec::new() }
    }

    pub fn len(&self) -> (r: usize)
        ensures
            r == self.view_seq().len(),
    {
        self.samples.len()
    }

    pub fn get(&self, i: usize) -> (r: u32)
        requires
            i < self.view_seq().len(),
        ensures
            r == self.view_seq()[i as int],
    {
        self.samples[i]
    }

    /// Appends one sample, then evicts from the front until at most `cap`
    /// samples remain.
    pub fn push(&mut self, value: u32, cap: usize)
        requires
            cap >= 1,
        ensures
            final(self).view_seq() == recent(old(self).view_seq().push(value), cap as int),
    {
        self.samples.push(value);
        let ghost pushed = self.samples@;
        while self.samples.len() > cap
            invariant
                cap >= 1,
                recent(self.samples@, cap as int) == recent(pushed, cap as int),
            decreases self.samples@.len(),
        {
            let ghost before = self.samples@;
            self.samples.remove(0);
            proof {
                assert(self.samples@ =~= before.skip(1));
                if before.len() > cap + 1 {
                    assert(before.skip(1).skip(before.skip(1).len() - cap) =~= before.skip(
                        before.len() - cap,
                    ));
                } else {
                    assert(before.skip(1) =~= before.skip(before.len() - cap));
                }
            }
        }
        proof {
            assert(recent(self.samples@, cap as int) == self.samples@);
        }
    }
}

/// Memory history bound: pushing any run of samples into a history that
/// already holds at most `cap` samples leaves exactly the `cap` most recent
/// samples of the combined run, in arrival order; in particular the length
/// is `min(previous length + number pushed, cap)`.
pub proof fn lemma_history_bound(s: Seq<u32>, vs: Seq<u32>, cap: int)
    requires
        cap >= 1,
        s.len() <= cap,
    ensures
        push_seq(s, vs, cap) == recent(s + vs, cap),
        push_seq(s, vs, cap).len() == vstd::math::min(s.len() + vs.len() as int, cap),
    decreases vs.len(),
{
    if vs.len() == 0 {
        assert(s + vs =~= s);
    } else {
        let s1 = recent(s.push(vs[0]), cap);
        assert(s1.len() <= cap);
        lemma_history_bound(s1, vs.drop_first(), cap);
        assert(s1 + vs.drop_first() =~= recent(s.push(vs[0]), cap) + vs.drop_first());
        lemma_recent_absorb(s.push(vs[0]), vs.drop_first(), cap);
        assert(s.push(vs[0]) + vs.drop_first() =~= s + vs);
    }
}

/// Trimming a prefix to the `cap` most recent elements before appending more
/// does not change the `cap` most recent elements of the whole.
proof fn lemma_recent_absorb(a: Seq<u32>, b: Seq<u32>, cap: int)
    requires
        cap >= 1,
    ensures
        recent(recent(a, cap) + b, cap) == recent(a + b, cap),
{
    assert(recent(recent(a, cap) + b, cap) =~= recent(a + b, cap));
}

} // verus!
