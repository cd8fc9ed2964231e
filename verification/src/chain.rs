//! The chain view: the node's best header chain indexed by height, and the
//! contiguous prefix of it for which block bodies have been validated and
//! stored. The sync engine reads it to build locators, answer header
//! requests and schedule body fetches, and appends to it when blocks
//! arrive.

use vstd::prelude::*;

use crate::types::Block;
use crate::types::Hash256;
use crate::types::Header;

verus! {

/// Whether some header of `chain` has hash `h`.
pub open spec fn chain_has_hash(chain: Seq<Header>, h: Hash256) -> bool {
    exists|i: int| 0 <= i < chain.len() && (#[trigger] chain[i]).hash == h
}

/// The locator hash sequence rooted at height `tip` of `chain`: the hash at
/// `tip`, then ancestors walking down by `step`, where `step` stays 1 for
/// the first ten entries (counted by `pushed`) and doubles afterwards,
/// ending at the genesis hash.
pub open spec fn spec_locator(chain: Seq<Header>, tip: int, pushed: int, step: int) -> Seq<
    Hash256,
>
    decreases tip,
{
    if tip <= 0 {
        seq![chain[0].hash]
    } else {
        let stepx: int = if step < 1 {
            1
        } else {
            step
        };
        let pushed2: int = pushed + 1;
        let next: int = if pushed2 >= 10 {
            if stepx + stepx < tip {
                tip - (stepx + stepx)
            } else {
                0
            }
        } else {
            if stepx < tip {
                tip - stepx
            } else {
                0
            }
        };
        let step2: int = if pushed2 >= 10 && stepx + stepx < tip {
            stepx + stepx
        } else if pushed2 >= 10 {
            1
        } else {
            stepx
        };
        seq![chain[tip].hash] + spec_locator(chain, next, pushed2, step2)
    }
}

/// Outcome of handing a block body to the chain.
#[derive(PartialEq, Eq, Structural, Clone, Copy, Debug)]
pub enum BlockAcceptance {
    /// The body extended the stored chain.
    Accepted,
    /// The body's header is already part of the stored chain.
    AlreadyKnown,
    /// The body does not fit the known header chain at its height.
    Rejected,
}

/// The node's chain: `headers` is the best known header chain indexed by
/// height (entry 0 is genesis); bodies are stored for the contiguous
/// prefix `blocks`, so the validated tip is at height `blocks.len() - 1`.
pub struct ChainView {
    pub headers: Vec<Header>,
    pub blocks: Vec<Block>,
}

impl ChainView {
    /// Whether a body with this header is the one the chain accepts next:
    /// it fills the first missing height and matches the known header
    /// there.
    pub open spec fn accepts(self, header: Header) -> bool {
        &&& header.number == self.blocks@.len()
        &&& self.blocks@.len() < self.headers@.len()
        &&& header == self.headers@[self.blocks@.len() as int]
    }

    /// Chain well-formedness: a genesis exists; header numbers equal their
    /// heights; each header's parent is the previous header's hash; header
    /// hashes are pairwise distinct; bodies form a prefix of the header
    /// chain and match it header for header.
    pub open spec fn wf(self) -> bool {
        &&& self.headers@.len() >= 1
        &&& self.blocks@.len() >= 1
        &&& forall|i: int|
            0 <= i < self.headers@.len() ==> (#[trigger] self.headers@[i]).number == i
        &&& forall|i: int|
            1 <= i < self.headers@.len() ==> (#[trigger] self.headers@[i]).parent_hash
                == self.headers@[i - 1].hash
        &&& forall|i: int, j: int|
            0 <= i < self.headers@.len() && 0 <= j < self.headers@.len() && i != j
                ==> (#[trigger] self.headers@[i]).hash != (#[trigger] self.headers@[j]).hash
        &&& self.blocks@.len() <= self.headers@.len()
        &&& forall|i: int|
            0 <= i < self.blocks@.len() ==> (#[trigger] self.blocks@[i]).header
                == self.headers@[i]
    }

    /// Height of the validated (body) tip.
    pub open spec fn spec_tip_number(self) -> int {
        self.blocks@.len() - 1
    }

    /// Start a chain from its genesis block.
    pub fn new(genesis: Block) -> (r: ChainView)
        requires
            genesis.header.number == 0,
        ensures
            r.wf(),
            r.headers@ == seq![genesis.header],
            r.blocks@.len() == 1,
            r.blocks@[0] == genesis,
    {
        let ghost gh = genesis.header;
        let mut headers: Vec<Header> = Vec::new();
        headers.push(genesis.header);
        let mut blocks: Vec<Block> = Vec::new();
        blocks.push(genesis);
        proof {
            assert(headers@ =~= seq![gh]);
        }
        ChainView { headers, blocks }
    }

    /// The header of the validated tip.
    pub fn tip_header(&self) -> (r: Header)
        requires
            self.wf(),
        ensures
            r == self.headers@[self.spec_tip_number()],
            r.number == self.spec_tip_number(),
    {
        let t = self.blocks.len() - 1;
        let h = self.headers[t];
        h
    }

    /// Number of headers known (header tip height + 1).
    pub fn header_count(&self) -> (r: usize)
        ensures
            r == self.headers@.len(),
    {
        self.headers.len()
    }

    /// Number of bodies stored (validated tip height + 1).
    pub fn block_count(&self) -> (r: usize)
        ensures
            r == self.blocks@.len(),
    {
        self.blocks.len()
    }

    /// Find the height whose header has hash `h`, if any.
    pub fn find_header_height(&self, h: &Hash256) -> (r: Option<usize>)
        ensures
            r is Some ==> 0 <= r->0 < self.headers@.len()
                && self.headers@[r->0 as int].hash == *h,
            r is None ==> !chain_has_hash(self.headers@, *h),
            r is Some <==> chain_has_hash(self.headers@, *h),
    {
        let mut i: usize = 0;
        while i < self.headers.len()
            invariant
                0 <= i <= self.headers@.len(),
                forall|j: int| 0 <= j < i ==> (#[trigger] self.headers@[j]).hash != *h,
            decreases self.headers@.len() - i,
        {
            if self.headers[i].hash == *h {
                return Some(i);
            }
            i = i + 1;
        }
        None
    }

    /// Build the locator rooted at height `tip`: the last ten consecutive
    /// ancestor hashes starting at the tip, then hashes with the step
    /// doubling at each entry, down to the genesis hash.
    #[verifier::rlimit(100)]
    pub fn get_locator(&self, tip: usize) -> (r: Vec<Hash256>)
        requires
            self.wf(),
            tip < self.headers@.len(),
        ensures
            r@ == spec_locator(self.headers@, tip as int, 0, 1),
    {
        let n = self.headers.len();
        assert(tip < n);
        self.locator_from(tip, 0, 1)
    }

    /// One step of locator construction: the hash at `tip`, then the
    /// locator of the ancestor `step` (doubled past the tenth entry)
    /// heights below.
    #[verifier::rlimit(100)]
    fn locator_from(&self, tip: usize, pushed: usize, step: usize) -> (r: Vec<Hash256>)
        requires
            self.wf(),
            tip < self.headers@.len(),
            step >= 1,
            pushed + tip < usize::MAX,
        ensures
            r@ == spec_locator(self.headers@, tip as int, pushed as int, step as int),
        decreases tip,
    {
        if tip == 0 {
            let mut out: Vec<Hash256> = Vec::new();
            out.push(self.headers[0].hash);
            proof {
                assert(out@ =~= spec_locator(self.headers@, 0, pushed as int, step as int));
            }
            out
        } else {
            let pushed2 = pushed + 1;
            // `pushed` counts entries already emitted; past the tenth entry
            // the step doubles at each further entry
            let doubled = pushed2 >= 10 && step < tip && tip - step > step;
            let next = if doubled {
                tip - (step + step)
            } else if pushed2 < 10 && step < tip {
                tip - step
            } else {
                0
            };
            let step2 = if doubled {
                step + step
            } else if pushed2 >= 10 {
                1
            } else {
                step
            };
            let mut rest = self.locator_from(next, pushed2, step2);
            rest.insert(0, self.headers[tip].hash);
            proof {
                assert(rest@ =~= seq![self.headers@[tip as int].hash] + spec_locator(
                    self.headers@,
                    next as int,
                    pushed2 as int,
                    step2 as int,
                ));
            }
            rest
        }
    }

    /// Headers following height `start`, at most `max_count` of them, in
    /// ascending height order.
    pub fn headers_after(&self, start: usize, max_count: usize) -> (r: Vec<Header>)
        requires
            self.wf(),
            start < self.headers@.len(),
        ensures
            r@.len() == if self.headers@.len() - 1 - start <= max_count {
                self.headers@.len() - 1 - start
            } else {
                max_count as int
            },
            forall|i: int| 0 <= i < r@.len() ==> r@[i] == self.headers@[start + 1 + i],
    {
        let n = self.headers.len();
        assert(start < n);
        let mut out: Vec<Header> = Vec::new();
        let mut h = start + 1;
        while h < self.headers.len() && out.len() < max_count
            invariant
                self.wf(),
                start + 1 <= h <= self.headers@.len(),
                out@.len() == h - start - 1,
                out@.len() <= max_count,
                forall|i: int| 0 <= i < out@.len() ==> out@[i] == self.headers@[start + 1 + i],
            decreases self.headers@.len() - h,
        {
            out.push(self.headers[h]);
            h = h + 1;
        }
        out
    }

    /// Append headers extending the known header chain (a header-only
    /// index: bodies arrive later). Each appended header must continue the
    /// chain by number and parent hash and carry a hash not seen before.
    pub fn store_header(&mut self, header: Header) -> (r: bool)
        requires
            old(self).wf(),
        ensures
            final(self).wf(),
            final(self).blocks@ == old(self).blocks@,
            r == (header.number == old(self).headers@.len()
                && header.parent_hash == old(self).headers@.last().hash
                && !chain_has_hash(old(self).headers@, header.hash)),
            r ==> final(self).headers@ == old(self).headers@.push(header),
            !r ==> final(self).headers@ == old(self).headers@,
    {
        let n = self.headers.len();
        if header.number == n as u64 && header.parent_hash == self.headers[n - 1].hash
            && self.find_header_height(&header.hash).is_none() {
            self.headers.push(header);
            true
        } else {
            false
        }
    }

    /// Find the stored body whose header has hash `h`, returning its
    /// height, if the node has that block.
    pub fn find_block(&self, h: &Hash256) -> (r: Option<usize>)
        requires
            self.wf(),
        ensures
            r is Some ==> 0 <= r->0 < self.blocks@.len()
                && self.blocks@[r->0 as int].header.hash == *h,
            r is None ==> forall|i: int|
                0 <= i < self.blocks@.len() ==> (#[trigger] self.blocks@[i]).header.hash != *h,
    {
        let mut i: usize = 0;
        while i < self.blocks.len()
            invariant
                0 <= i <= self.blocks@.len(),
                forall|j: int| 0 <= j < i ==> (#[trigger] self.blocks@[j]).header.hash != *h,
            decreases self.blocks@.len() - i,
        {
            if self.blocks[i].header.hash == *h {
                return Some(i);
            }
            i = i + 1;
        }
        None
    }

    /// The stored body at height `height`.
    pub fn block_at(&self, height: usize) -> (r: &Block)
        requires
            height < self.blocks@.len(),
        ensures
            *r == self.blocks@[height as int],
    {
        &self.blocks[height]
    }

    /// Hand a block body to the chain. It is accepted exactly when it is
    /// the next missing body and matches the known header chain there; a
    /// body already stored is reported as such; anything else is rejected.
    pub fn process_block(&mut self, block: Block) -> (r: BlockAcceptance)
        requires
            old(self).wf(),
        ensures
            final(self).wf(),
            final(self).headers@ == old(self).headers@,
            r == BlockAcceptance::Accepted <==> old(self).accepts(block.header),
            r == BlockAcceptance::Accepted ==> final(self).blocks@
                == old(self).blocks@.push(block),
            r != BlockAcceptance::Accepted ==> final(self).blocks@ == old(self).blocks@,
            r == BlockAcceptance::AlreadyKnown ==> block.header.number < old(self).blocks@.len(),
    {
        let n = self.blocks.len();
        if block.header.number == n as u64 && n < self.headers.len() {
            let expected = self.headers[n];
            if block.header == expected {
                self.blocks.push(block);
                return BlockAcceptance::Accepted;
            }
            return BlockAcceptance::Rejected;
        }
        if block.header.number < n as u64 {
            let height = block.header.number as usize;
            if self.blocks[height].header == block.header {
                return BlockAcceptance::AlreadyKnown;
            }
            return BlockAcceptance::Rejected;
        }
        BlockAcceptance::Rejected
    }
}

} // verus!
