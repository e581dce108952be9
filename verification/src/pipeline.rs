//! Reading and encrypting the blocks of an upload: a block is read in full before it
//! is encrypted, and no more blocks are in flight than may be.

use vstd::prelude::*;

use crate::transport::{cut_size, DEFAULT_BLOCK_SIZE};
use crate::upload::{sum_of, PlaintextTally, MAX_CONCURRENT_BLOCK_ENCRYPTS};

verus! {

/// A block that is being filled. A reader may hand out less than asked for, so it is
/// asked again until the block is full or there is nothing left.
#[derive(Debug, Clone, Copy, PartialEq, Eq, Structural)]
pub struct BlockFill {
    pub size: usize,
    pub filled: usize,
    pub ended: bool,
}

impl BlockFill {
    pub open spec fn well_formed(self) -> bool {
        self.filled <= self.size
    }

    /// Whether nothing more is read into the block.
    pub open spec fn is_settled(self) -> bool {
        self.ended || self.filled == self.size
    }

    /// Whether the block can come from a reader with `left` bytes to give, one that
    /// hands out nothing only when nothing is left.
    pub open spec fn reads_from(self, left: int) -> bool {
        self.filled <= left && (self.ended ==> self.filled == left)
    }

    pub fn start(size: usize) -> (fill: BlockFill)
        ensures
            fill.well_formed(),
            fill.size == size,
            fill.filled == 0,
            !fill.ended,
            forall|left: int| left >= 0 ==> #[trigger] fill.reads_from(left),
    {
        BlockFill { size, filled: 0, ended: false }
    }

    /// Where to read to next, and how much at most; nothing once the block is full or
    /// the reader has no more.
    pub fn wanted(&self) -> (r: Option<(usize, usize)>)
        requires
            self.well_formed(),
        ensures
            r == (if self.is_settled() {
                None
            } else {
                Some((self.filled, (self.size - self.filled) as usize))
            }),
            r is None <==> self.ended || self.filled == self.size,
            r is Some ==> (r->0).0 == self.filled && (r->0).1 == self.size - self.filled,
    {
        if self.ended || self.filled == self.size {
            None
        } else {
            Some((self.filled, self.size - self.filled))
        }
    }

    /// Takes in how much was read. Nothing means that there is no more.
    pub fn read(&mut self, count: usize)
        requires
            old(self).well_formed(),
            count <= old(self).size - old(self).filled,
        ensures
            final(self).well_formed(),
            final(self).size == old(self).size,
            final(self).filled == old(self).filled + count,
            final(self).ended == (old(self).ended || count == 0),
            forall|left: int|
                #![trigger old(self).reads_from(left)]
                old(self).reads_from(left) && old(self).filled + count <= left && (count == 0
                    ==> old(self).filled == left) ==> final(self).reads_from(left),
    {
        if count == 0 {
            self.ended = true;
        }
        self.filled = self.filled + count;
    }
}

/// Whether the blocks of a plaintext were read one after the other from a reader with
/// `total` bytes to give, up to the first one that stayed empty.
pub open spec fn are_reads_of(fills: Seq<BlockFill>, sizes: Seq<i32>, total: int) -> bool {
    &&& fills.len() == sizes.len() + 1
    &&& fills.last().filled == 0
    &&& forall|i: int| 0 <= i < sizes.len() ==> (#[trigger] fills[i]).filled == sizes[i]
    &&& forall|i: int|
        0 <= i < fills.len() ==> {
            &&& (#[trigger] fills[i]).well_formed()
            &&& fills[i].size == DEFAULT_BLOCK_SIZE
            &&& fills[i].is_settled()
            &&& fills[i].reads_from(total - sum_of(sizes.take(i)))
        }
}

proof fn lemma_sum_of_next(sizes: Seq<i32>, i: int)
    requires
        0 <= i < sizes.len(),
    ensures
        sum_of(sizes.take(i + 1)) == sum_of(sizes.take(i)) + sizes[i],
{
    assert(sizes.take(i + 1).drop_last() =~= sizes.take(i));
}

proof fn lemma_sum_of_full(sizes: Seq<i32>, n: int)
    requires
        0 <= n <= sizes.len(),
        forall|i: int| 0 <= i < n ==> #[trigger] sizes[i] == DEFAULT_BLOCK_SIZE,
    ensures
        sum_of(sizes.take(n)) == DEFAULT_BLOCK_SIZE * n,
    decreases n,
{
    if n > 0 {
        lemma_sum_of_full(sizes, n - 1);
        lemma_sum_of_next(sizes, n - 1);
    } else {
        assert(sizes.take(0) =~= Seq::<i32>::empty());
    }
}

/// A plaintext is read to its end, and every block of it but the last is full, however
/// little the reader hands out at a time. So there are no more blocks than it takes, and
/// their sizes are those that a plaintext of this length is cut into.
pub proof fn law_every_block_but_the_last_is_full(
    tally: PlaintextTally,
    fills: Seq<BlockFill>,
    total: int,
)
    requires
        tally.well_formed(),
        are_reads_of(fills, tally.block_sizes@, total),
    ensures
        tally.plaintext().len() == total,
        tally.block_sizes@.len() == (total + DEFAULT_BLOCK_SIZE - 1) / DEFAULT_BLOCK_SIZE as int,
        forall|i: int|
            0 <= i < tally.block_sizes@.len() - 1 ==> #[trigger] tally.block_sizes@[i]
                == DEFAULT_BLOCK_SIZE,
        forall|i: int|
            0 <= i < tally.block_sizes@.len() ==> #[trigger] tally.block_sizes@[i] == cut_size(
                total,
                i,
            ),
{
    let sizes = tally.block_sizes@;
    let n = sizes.len() as int;
    assert(sizes.take(n) =~= sizes);
    assert(fills[n].reads_from(total - sum_of(sizes)));
    assert(fills[n].is_settled());
    assert forall|i: int| 0 <= i < n - 1 implies #[trigger] sizes[i] == DEFAULT_BLOCK_SIZE by {
        lemma_sum_of_next(sizes, i);
        assert(fills[i].is_settled());
        assert(fills[i + 1].reads_from(total - sum_of(sizes.take(i + 1))));
        assert(fills[i + 1].filled == sizes[i + 1]);
        assert(0 < sizes[i + 1]);
    }
    if n > 0 {
        lemma_sum_of_full(sizes, n - 1);
        lemma_sum_of_next(sizes, n - 1);
        assert(0 < sizes[n - 1] <= DEFAULT_BLOCK_SIZE);
    }
}

/// What the encryption of blocks does next.
#[derive(Debug, Clone, Copy, PartialEq, Eq, Structural)]
pub enum WindowStep {
    /// Get a permit for another block, and read it. Only with `wait` is there time to
    /// wait for one.
    Acquire { wait: bool },
    /// Take the block that was encrypted first, and hand it on.
    Drain,
    /// Everything was read and handed on.
    End,
}

/// The blocks that are being encrypted. Each of them holds a permit until it is
/// stored.
#[derive(Debug, Clone, Copy, PartialEq, Eq, Structural)]
pub struct EncryptWindow {
    pub in_flight: usize,
    pub drained: bool,
    pub out_of_permits: bool,
}

/// What a window does next: it is filled up as long as there is something to read and
/// permits can be had, and otherwise a block is handed on.
pub open spec fn window_step(window: EncryptWindow) -> WindowStep {
    if !window.drained && !window.out_of_permits && window.in_flight
        < MAX_CONCURRENT_BLOCK_ENCRYPTS {
        WindowStep::Acquire { wait: window.in_flight == 0 }
    } else if window.in_flight > 0 {
        WindowStep::Drain
    } else {
        WindowStep::End
    }
}

impl EncryptWindow {
    /// No more blocks than may be, and permits run out only while some are held.
    pub open spec fn well_formed(self) -> bool {
        &&& self.in_flight <= MAX_CONCURRENT_BLOCK_ENCRYPTS
        &&& self.out_of_permits ==> self.in_flight > 0
    }

    pub fn start() -> (window: EncryptWindow)
        ensures
            window.well_formed(),
            window.in_flight == 0,
            !window.drained,
            !window.out_of_permits,
    {
        EncryptWindow { in_flight: 0, drained: false, out_of_permits: false }
    }

    /// What to do next.
    pub fn next(&self) -> (step: WindowStep)
        requires
            self.well_formed(),
        ensures
            step == window_step(*self),
            !self.drained && !self.out_of_permits && self.in_flight < 4 ==> step == (WindowStep::Acquire {
                wait: self.in_flight == 0,
            }),
            (self.drained || self.out_of_permits || self.in_flight >= 4) && self.in_flight > 0 ==> step
                == WindowStep::Drain,
            self.drained && self.in_flight == 0 ==> step == WindowStep::End,
    {
        if !self.drained && !self.out_of_permits && self.in_flight < MAX_CONCURRENT_BLOCK_ENCRYPTS {
            WindowStep::Acquire { wait: self.in_flight == 0 }
        } else if self.in_flight > 0 {
            WindowStep::Drain
        } else {
            WindowStep::End
        }
    }

    /// There is no permit to be had without waiting: a block is handed on first.
    pub fn no_permit(&mut self)
        requires
            old(self).well_formed(),
            old(self).in_flight > 0,
        ensures
            final(self).well_formed(),
            *final(self) == (EncryptWindow { out_of_permits: true, ..*old(self) }),
    {
        self.out_of_permits = true;
    }

    /// Takes in how much was read into a block. A block with something in it is being
    /// encrypted from now on; an empty one is the end.
    pub fn read(&mut self, count: usize)
        requires
            old(self).well_formed(),
            old(self).in_flight < MAX_CONCURRENT_BLOCK_ENCRYPTS,
        ensures
            final(self).well_formed(),
            *final(self) == (if count == 0 {
                EncryptWindow { drained: true, ..*old(self) }
            } else {
                EncryptWindow { in_flight: (old(self).in_flight + 1) as usize, ..*old(self) }
            }),
    {
        if count == 0 {
            self.drained = true;
        } else {
            self.in_flight = self.in_flight + 1;
        }
    }

    /// A block was handed on. Permits may be had again.
    pub fn handed_on(&mut self)
        requires
            old(self).well_formed(),
            old(self).in_flight > 0,
        ensures
            final(self).well_formed(),
            *final(self) == (EncryptWindow {
                in_flight: (old(self).in_flight - 1) as usize,
                out_of_permits: false,
                ..*old(self)
            }),
    {
        self.in_flight = self.in_flight - 1;
        self.out_of_permits = false;
    }
}

/// A permit is waited for only while none is held, so that an upload never waits for
/// itself; and it does not end before everything was read and handed on.
pub proof fn law_never_waits_for_itself(window: EncryptWindow)
    requires
        window.well_formed(),
    ensures
        window_step(window) == (WindowStep::Acquire { wait: true }) ==> window.in_flight == 0,
        window_step(window) == WindowStep::End ==> window.drained && window.in_flight == 0,
        window_step(window) == WindowStep::Drain ==> window.in_flight > 0,
{
}

} // verus!
