//! The mutable capture table threaded through a match attempt.
//!
//! Captures are stored as an association list whose most recent entry for a
//! key wins; the model is the finite map obtained by replaying the entries in
//! order. The same structure carries the counter the parser uses to hand out
//! group indices.

use vstd::prelude::*;

verus! {

/// The map described by an association list: later entries override earlier
/// ones.
pub open spec fn pairs_map(s: Seq<(usize, Vec<char>)>) -> Map<usize, Seq<char>>
    decreases s.len(),
{
    if s.len() == 0 {
        Map::empty()
    } else {
        pairs_map(s.drop_last()).insert(s.last().0, s.last().1@)
    }
}

/// Mutable context of a single top-level match call: the capture table, and
/// the counter used while parsing to assign group indices in the order the
/// opening parentheses appear.
pub struct CaptureState {
    pub captured: Vec<(usize, Vec<char>)>,
    pub counter: usize,
}

impl CaptureState {
    /// The capture table as a map from group index to captured characters.
    pub open spec fn captures(self) -> Map<usize, Seq<char>> {
        pairs_map(self.captured@)
    }

    /// A fresh state: no captures, and group numbering starting at one.
    pub fn new() -> (r: CaptureState)
        ensures
            r.captures() == Map::<usize, Seq<char>>::empty(),
            r.counter == 1,
    {
        CaptureState { captured: Vec::new(), counter: 1 }
    }

    /// Record the capture of a group, replacing any earlier capture under the
    /// same index.
    pub fn record(&mut self, k: usize, v: Vec<char>)
        ensures
            final(self).captures() == old(self).captures().insert(k, v@),
            final(self).counter == old(self).counter,
    {
        let ghost s0 = self.captured@;
        self.captured.push((k, v));
        proof {
            assert(self.captured@.drop_last() =~= s0);
        }
    }

    /// Look up the capture of a group, if any has been recorded.
    pub fn lookup(&self, k: usize) -> (r: Option<Vec<char>>)
        ensures
            match r {
                Option::Some(v) => self.captures().dom().contains(k) && v@ == self.captures()[k],
                Option::None => !self.captures().dom().contains(k),
            },
    {
        let n = self.captured.len();
        let mut i: usize = n;
        proof {
            assert(self.captured@.take(n as int) =~= self.captured@);
        }
        while i > 0
            invariant
                i <= n,
                n == self.captured@.len(),
                pairs_map(self.captured@).dom().contains(k) == pairs_map(
                    self.captured@.take(i as int),
                ).dom().contains(k),
                pairs_map(self.captured@).dom().contains(k) ==> pairs_map(self.captured@)[k]
                    == pairs_map(self.captured@.take(i as int))[k],
            decreases i,
        {
            i = i - 1;
            let ghost prefix = self.captured@.take(i as int + 1);
            proof {
                assert(prefix.drop_last() =~= self.captured@.take(i as int));
                assert(prefix.last() == self.captured@[i as int]);
            }
            if self.captured[i].0 == k {
                let v = copy_chars(&self.captured[i].1);
                return Option::Some(v);
            }
        }
        proof {
            assert(self.captured@.take(0) =~= Seq::<(usize, Vec<char>)>::empty());
        }
        Option::None
    }
}

/// Copy a contiguous range of characters out of a line.
pub fn copy_range(v: &Vec<char>, lo: usize, hi: usize) -> (r: Vec<char>)
    requires
        lo <= hi <= v@.len(),
    ensures
        r@ == v@.subrange(lo as int, hi as int),
{
    let mut r: Vec<char> = Vec::new();
    let mut j: usize = lo;
    while j < hi
        invariant
            lo <= j <= hi <= v@.len(),
            r@ == v@.subrange(lo as int, j as int),
        decreases hi - j,
    {
        r.push(v[j]);
        j = j + 1;
        proof {
            assert(r@ =~= v@.subrange(lo as int, j as int));
        }
    }
    r
}

/// Copy a whole character vector.
pub fn copy_chars(v: &Vec<char>) -> (r: Vec<char>)
    ensures
        r@ == v@,
{
    let n = v.len();
    let r = copy_range(v, 0, n);
    proof {
        assert(v@.subrange(0, n as int) =~= v@);
    }
    r
}

} // verus!
