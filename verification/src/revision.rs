//! Reading a revision: which blocks a range needs, how the answer is put together
//! from them, and how expired block addresses are replaced.

use vstd::prelude::*;
use vstd::string::StringExecFns;

use crate::dtos::BlockDto;
use crate::error::{invalid, is_expired_block_url, ProtonError};
use crate::ids::NodeUid;
use crate::node::RevisionState;
use crate::text::{decimal, owned, push_decimal};

verus! {

/// Blocks of one file fetched at the same time.
pub const MAX_CONCURRENT_BLOCK_DOWNLOADS: usize = 10;

/// One entry of a file's history. What is `claimed` comes from the uploader.
#[derive(Debug, Clone, PartialEq, Eq)]
pub struct Revision {
    pub file_uid: NodeUid,
    pub revision_id: String,
    pub state: RevisionState,
    pub creation_time: i64,
    pub size_on_storage: i64,
    pub claimed_size: Option<i64>,
    pub claimed_modification_time: Option<String>,
    pub claimed_sha1: Option<String>,
    pub signature_email: Option<String>,
    pub has_thumbnails: bool,
}

impl Revision {
    /// Whether this is the revision that the file shows.
    pub fn is_active(&self) -> (r: bool)
        ensures
            r == (self.state == RevisionState::Active),
    {
        match self.state {
            RevisionState::Active => true,
            RevisionState::Superseded => false,
        }
    }
}

// ---------------------------------------------------------------------------
// Ranges and blocks
// ---------------------------------------------------------------------------

/// Where block `i` starts: the sum of the sizes before it.
pub open spec fn block_start(sizes: Seq<u64>, i: int) -> int
    decreases i,
{
    if i <= 0 {
        0
    } else {
        block_start(sizes, i - 1) + sizes[i - 1]
    }
}

/// The size of a file with these blocks.
pub open spec fn total_size(sizes: Seq<u64>) -> int {
    block_start(sizes, sizes.len() as int)
}

/// Whether a read of `[offset, end)` fetches block `i`: it starts before the end
/// and ends after the offset.
pub open spec fn is_wanted(sizes: Seq<u64>, offset: int, end: int, i: int) -> bool {
    0 <= i < sizes.len() && block_start(sizes, i) < end && block_start(sizes, i + 1) > offset
}

/// The blocks that a read of `[offset, end)` fetches among the first `n`, in
/// order, each with where it starts.
pub open spec fn wanted_blocks(sizes: Seq<u64>, offset: int, end: int, n: int) -> Seq<(int, int)>
    decreases n,
{
    if n <= 0 {
        Seq::empty()
    } else if is_wanted(sizes, offset, end, n - 1) {
        wanted_blocks(sizes, offset, end, n - 1).push((n - 1, block_start(sizes, n - 1)))
    } else {
        wanted_blocks(sizes, offset, end, n - 1)
    }
}

/// The part of a block that starts at `start` which lies in `[offset, end)`.
pub open spec fn spliced(plaintext: Seq<u8>, start: int, offset: int, end: int) -> Seq<u8> {
    let from = if offset > start {
        offset - start
    } else {
        0
    };
    let to = if end - start < plaintext.len() {
        end - start
    } else {
        plaintext.len() as int
    };
    if from < to {
        plaintext.subrange(from, to)
    } else {
        Seq::empty()
    }
}

/// The end of a read that starts at `offset`, cut off at the end of the file.
pub open spec fn read_end(sizes: Seq<u64>, offset: int, length: int) -> int {
    if offset + length < total_size(sizes) {
        offset + length
    } else {
        total_size(sizes)
    }
}

/// The plan of a read: nothing when it is empty or starts at or past the end of
/// the file, and otherwise the blocks it overlaps.
pub open spec fn read_plan(sizes: Seq<u64>, offset: int, length: int) -> Seq<(int, int)> {
    if length == 0 || offset >= total_size(sizes) {
        Seq::empty()
    } else {
        wanted_blocks(sizes, offset, read_end(sizes, offset, length), sizes.len() as int)
    }
}

/// What a read puts together out of the blocks of its plan.
pub open spec fn read_result(
    plan: Seq<(int, int)>,
    fetched: Seq<Seq<u8>>,
    offset: int,
    end: int,
    n: int,
) -> Seq<u8>
    decreases n,
{
    if n <= 0 {
        Seq::empty()
    } else {
        read_result(plan, fetched, offset, end, n - 1) + spliced(
            fetched[n - 1],
            plan[n - 1].1,
            offset,
            end,
        )
    }
}

/// Whether the planned pairs are those of the specification.
pub open spec fn is_plan(planned: Seq<(usize, u64)>, plan: Seq<(int, int)>) -> bool {
    &&& planned.len() == plan.len()
    &&& forall|i: int|
        0 <= i < plan.len() ==> (#[trigger] planned[i]).0 == plan[i].0 && planned[i].1 == plan[i].1
}

proof fn lemma_starts_grow(sizes: Seq<u64>, i: int, j: int)
    requires
        0 <= i <= j <= sizes.len(),
    ensures
        0 <= block_start(sizes, i) <= block_start(sizes, j),
    decreases j,
{
    if j > 0 {
        if i < j {
            lemma_starts_grow(sizes, i, j - 1);
        } else {
            lemma_starts_grow(sizes, i - 1, j - 1);
        }
    }
}

proof fn lemma_nothing_wanted_after(sizes: Seq<u64>, offset: int, end: int, i: int, n: int)
    requires
        0 <= i <= n <= sizes.len(),
        block_start(sizes, i) >= end,
    ensures
        wanted_blocks(sizes, offset, end, n) == wanted_blocks(sizes, offset, end, i),
    decreases n,
{
    if i < n {
        lemma_starts_grow(sizes, i, n - 1);
        lemma_nothing_wanted_after(sizes, offset, end, i, n - 1);
    }
}

/// Which blocks overlap `[offset, end)`, each with where it starts.
pub fn plan_blocks(block_sizes: &Vec<u64>, offset: u64, end: u64) -> (wanted: Vec<(usize, u64)>)
    requires
        total_size(block_sizes@) <= u64::MAX,
    ensures
        is_plan(
            wanted@,
            wanted_blocks(block_sizes@, offset as int, end as int, block_sizes@.len() as int),
        ),
        forall|k: int, l: int|
            0 <= k < l < wanted@.len() ==> (#[trigger] wanted@[k]).0 < (#[trigger] wanted@[l]).0,
        forall|k: int|
            0 <= k < wanted@.len() ==> {
                &&& (#[trigger] wanted@[k]).0 < block_sizes@.len()
                &&& wanted@[k].1 == block_start(block_sizes@, wanted@[k].0 as int)
                &&& wanted@[k].1 < end
                &&& wanted@[k].1 + block_sizes@[wanted@[k].0 as int] > offset
            },
        forall|i: int|
            0 <= i < block_sizes@.len() && block_start(block_sizes@, i) < end && #[trigger] block_start(
                block_sizes@,
                i,
            ) + block_sizes@[i] > offset ==> exists|k: int|
                0 <= k < wanted@.len() && (#[trigger] wanted@[k]).0 == i,
{
    proof {
        lemma_wanted(block_sizes@, offset as int, end as int, block_sizes@.len() as int);
    }
    let mut wanted: Vec<(usize, u64)> = Vec::new();
    let mut start: u64 = 0;
    let mut index: usize = 0;
    while index < block_sizes.len() && start < end
        invariant
            index <= block_sizes@.len(),
            total_size(block_sizes@) <= u64::MAX,
            start == block_start(block_sizes@, index as int),
            is_plan(
                wanted@,
                wanted_blocks(block_sizes@, offset as int, end as int, index as int),
            ),
        decreases block_sizes@.len() - index,
    {
        proof {
            lemma_starts_grow(block_sizes@, index + 1, block_sizes@.len() as int);
        }
        let block_end: u64 = start + block_sizes[index];
        if block_end > offset {
            wanted.push((index, start));
        }
        start = block_end;
        index += 1;
    }
    proof {
        if start >= end {
            lemma_nothing_wanted_after(
                block_sizes@,
                offset as int,
                end as int,
                index as int,
                block_sizes@.len() as int,
            );
        }
    }
    proof {
        let plan = wanted_blocks(block_sizes@, offset as int, end as int, block_sizes@.len() as int);
        assert forall|i: int|
            0 <= i < block_sizes@.len() && block_start(block_sizes@, i) < end
                && #[trigger] block_start(block_sizes@, i) + block_sizes@[i]
                > offset implies exists|k: int|
            0 <= k < wanted@.len() && (#[trigger] wanted@[k]).0 == i by {
            let k = choose|k: int| 0 <= k < plan.len() && (#[trigger] plan[k]).0 == i;
            assert(wanted@[k].0 == plan[k].0);
        }
    }
    wanted
}

/// Appends the part of a block that lies in `[offset, end)`.
pub fn splice_block(out: &mut Vec<u8>, plaintext: &Vec<u8>, start: u64, offset: u64, end: u64)
    requires
        start <= end,
    ensures
        final(out)@ == old(out)@ + spliced(plaintext@, start as int, offset as int, end as int),
{
    let from: u64 = offset.saturating_sub(start);
    let span: u64 = end - start;
    let len: u64 = plaintext.len() as u64;
    let to: u64 = if span < len {
        span
    } else {
        len
    };
    if from < to {
        let mut i: usize = from as usize;
        let stop: usize = to as usize;
        while i < stop
            invariant
                from <= i <= stop,
                stop == to,
                to <= plaintext@.len(),
                out@ == old(out)@ + plaintext@.subrange(from as int, i as int),
            decreases stop - i,
        {
            out.push(plaintext[i]);
            i += 1;
            assert(out@ =~= old(out)@ + plaintext@.subrange(from as int, i as int));
        }
    }
    assert(out@ =~= old(out)@ + spliced(
        plaintext@,
        start as int,
        offset as int,
        end as int,
    ));
}

// ---------------------------------------------------------------------------
// The reader
// ---------------------------------------------------------------------------

/// Where each block is to be had, numbered so that callers who met the same
/// expired address list the revision once between them.
#[derive(Debug, PartialEq, Eq)]
pub struct BlockTable {
    pub blocks: Vec<BlockDto>,
    pub generation: u64,
}

/// An open handle on one revision: its block table and the plaintext size of each
/// block. It stays with that revision, whatever the file shows later.
#[derive(Debug, PartialEq, Eq)]
pub struct RevisionReader {
    uid: NodeUid,
    revision_id: String,
    table: BlockTable,
    block_sizes: Vec<u64>,
    file_size: u64,
}

/// What is said of a block that the table does not have.
pub open spec fn missing_block_message(index: nat, revision_id: Seq<char>) -> Seq<char> {
    "block "@ + decimal(index) + " is missing from revision "@ + revision_id
}

/// What is said of a revision whose listing grew or shrank while it was open.
pub open spec fn block_count_message(revision_id: Seq<char>, was: nat, is: nat) -> Seq<char> {
    "revision "@ + revision_id + " changed block count while open ("@ + decimal(was) + " -> "@
        + decimal(is) + ")"@
}

impl RevisionReader {
    /// The plaintext sizes of the blocks.
    pub closed spec fn sizes(self) -> Seq<u64> {
        self.block_sizes@
    }

    /// The block table.
    pub closed spec fn blocks(self) -> Seq<BlockDto> {
        self.table.blocks@
    }

    /// The number of the block table.
    pub closed spec fn generation(self) -> u64 {
        self.table.generation
    }

    /// The revision that is read.
    pub closed spec fn revision(self) -> Seq<char> {
        self.revision_id@
    }

    /// The node that is read.
    pub closed spec fn node(self) -> NodeUid {
        self.uid
    }

    /// The recorded size is the sum of the block sizes.
    #[verifier::type_invariant]
    spec fn well_formed(self) -> bool {
        self.file_size == total_size(self.block_sizes@)
    }

    /// A reader of a revision with these blocks.
    pub fn new(
        uid: NodeUid,
        revision_id: String,
        blocks: Vec<BlockDto>,
        block_sizes: Vec<u64>,
    ) -> (reader: RevisionReader)
        requires
            total_size(block_sizes@) <= u64::MAX,
        ensures
            reader.node() == uid,
            reader.revision() == revision_id@,
            reader.blocks() == blocks@,
            reader.sizes() == block_sizes@,
            reader.generation() == 0,
    {
        let mut file_size: u64 = 0;
        let mut i: usize = 0;
        while i < block_sizes.len()
            invariant
                i <= block_sizes@.len(),
                total_size(block_sizes@) <= u64::MAX,
                file_size == block_start(block_sizes@, i as int),
            decreases block_sizes@.len() - i,
        {
            proof {
                lemma_starts_grow(block_sizes@, i + 1, block_sizes@.len() as int);
            }
            file_size = file_size + block_sizes[i];
            i += 1;
        }
        RevisionReader {
            uid,
            revision_id,
            table: BlockTable { blocks, generation: 0 },
            block_sizes,
            file_size,
        }
    }

    /// The node that is read.
    pub fn uid(&self) -> (r: &NodeUid)
        ensures
            *r == self.node(),
    {
        &self.uid
    }

    /// The revision that is read.
    pub fn revision_id(&self) -> (r: &str)
        ensures
            r@ == self.revision(),
    {
        self.revision_id.as_str()
    }

    /// The size of the plaintext.
    pub fn size(&self) -> (r: u64)
        ensures
            r == total_size(self.sizes()),
    {
        proof {
            use_type_invariant(self);
        }
        self.file_size
    }

    /// The plaintext size of each block.
    pub fn block_sizes(&self) -> (r: &Vec<u64>)
        ensures
            r@ == self.sizes(),
    {
        &self.block_sizes
    }

    /// The blocks that a read of `length` bytes at `offset` has to fetch, each
    /// with where it starts, in the order in which [`RevisionReader::read_at`]
    /// wants them.
    pub fn plan_read(&self, offset: u64, length: u64) -> (wanted: Vec<(usize, u64)>)
        ensures
            is_plan(wanted@, read_plan(self.sizes(), offset as int, length as int)),
    {
        proof {
            use_type_invariant(self);
        }
        if length == 0 || offset >= self.file_size {
            return Vec::new();
        }
        let end: u64 = self.end_of_read(offset, length);
        plan_blocks(&self.block_sizes, offset, end)
    }

    fn end_of_read(&self, offset: u64, length: u64) -> (end: u64)
        ensures
            end == read_end(self.sizes(), offset as int, length as int),
    {
        proof {
            use_type_invariant(self);
        }
        let end: u64 = offset.saturating_add(length);
        if end < self.file_size {
            end
        } else {
            self.file_size
        }
    }

    /// The bytes `[offset, offset + length)`, cut off at the end of the file, put
    /// together out of the plaintext of the planned blocks.
    pub fn read_at(&self, offset: u64, length: u64, fetched: &Vec<Vec<u8>>) -> (out: Vec<u8>)
        requires
            fetched@.len() == read_plan(self.sizes(), offset as int, length as int).len(),
        ensures
            out@ == read_result(
                read_plan(self.sizes(), offset as int, length as int),
                Seq::new(fetched@.len(), |i: int| fetched@[i]@),
                offset as int,
                read_end(self.sizes(), offset as int, length as int),
                fetched@.len() as int,
            ),
    {
        let wanted: Vec<(usize, u64)> = self.plan_read(offset, length);
        let end: u64 = self.end_of_read(offset, length);
        let ghost plan = read_plan(self.sizes(), offset as int, length as int);
        let ghost bytes = Seq::new(fetched@.len(), |i: int| fetched@[i]@);
        let mut out: Vec<u8> = Vec::new();
        let mut next: usize = 0;
        while next < fetched.len()
            invariant
                next <= fetched@.len(),
                fetched@.len() == plan.len(),
                plan == read_plan(self.sizes(), offset as int, length as int),
                end == read_end(self.sizes(), offset as int, length as int),
                bytes == Seq::new(fetched@.len(), |i: int| fetched@[i]@),
                is_plan(wanted@, plan),
                out@ == read_result(plan, bytes, offset as int, end as int, next as int),
            decreases fetched@.len() - next,
        {
            proof {
                lemma_wanted_starts_before_end(
                    self.sizes(),
                    offset as int,
                    end as int,
                    self.sizes().len() as int,
                    next as int,
                );
                assert(bytes[next as int] == fetched@[next as int]@);
            }
            splice_block(&mut out, &fetched[next], wanted[next].1, offset, end);
            next += 1;
        }
        out
    }

    /// Where block `index` is to be had, and the number of the table that says so.
    pub fn block_location(&self, index: usize) -> (r: Result<(String, String, u64), ProtonError>)
        ensures
            match r {
                Ok((url, token, generation)) => index < self.blocks().len() && url
                    == self.blocks()[index as int].bare_url && token
                    == self.blocks()[index as int].token && generation == self.generation(),
                Err(e) => index >= self.blocks().len() && invalid(
                    e,
                    missing_block_message(index as nat, self.revision()),
                ),
            },
    {
        if index < self.table.blocks.len() {
            let block: &BlockDto = &self.table.blocks[index];
            Ok((block.bare_url.clone(), block.token.clone(), self.table.generation))
        } else {
            let mut message: String = owned("block ");
            push_decimal(&mut message, index as u64);
            message.append(" is missing from revision ");
            message.append(self.revision_id.as_str());
            Err(ProtonError::invalid_operation(message.as_str()))
        }
    }

    /// Whether the caller that saw an address of table `seen_generation` expire
    /// has to list the revision again. It has not when somebody already has.
    pub fn needs_refresh(&self, seen_generation: u64) -> (r: bool)
        ensures
            r == (self.generation() == seen_generation),
    {
        self.table.generation == seen_generation
    }

    /// Whether a failed block fetch is tried once more after the revision was
    /// listed again.
    pub fn retries_block(error: &ProtonError, already_refreshed: bool) -> (r: bool)
        ensures
            r == (!already_refreshed && (error.status() == Some(401u16) || error.status() == Some(
                403u16,
            ) || error.status() == Some(404u16))),
    {
        !already_refreshed && is_expired_block_url(error)
    }

    /// Puts a fresh listing in place of the block table. A listing with another
    /// number of blocks is refused and changes nothing.
    pub fn refresh_blocks(&mut self, blocks: Vec<BlockDto>) -> (r: Result<(), ProtonError>)
        requires
            old(self).generation() < u64::MAX,
        ensures
            final(self).node() == old(self).node(),
            final(self).revision() == old(self).revision(),
            final(self).sizes() == old(self).sizes(),
            match r {
                Ok(()) => blocks@.len() == old(self).sizes().len() && final(self).blocks()
                    == blocks@ && final(self).generation() == old(self).generation() + 1,
                Err(e) => blocks@.len() != old(self).sizes().len() && *final(self) == *old(self)
                    && invalid(
                    e,
                    block_count_message(
                        old(self).revision(),
                        old(self).sizes().len(),
                        blocks@.len(),
                    ),
                ),
            },
    {
        if blocks.len() != self.block_sizes.len() {
            let mut message: String = owned("revision ");
            message.append(self.revision_id.as_str());
            message.append(" changed block count while open (");
            push_decimal(&mut message, self.block_sizes.len() as u64);
            message.append(" -> ");
            push_decimal(&mut message, blocks.len() as u64);
            message.append(")");
            return Err(ProtonError::invalid_operation(message.as_str()));
        }
        proof {
            use_type_invariant(&*self);
        }
        let generation: u64 = self.table.generation + 1;
        self.table = BlockTable { blocks, generation };
        Ok(())
    }
}

proof fn lemma_wanted_starts_before_end(sizes: Seq<u64>, offset: int, end: int, n: int, k: int)
    requires
        0 <= n <= sizes.len(),
        0 <= k < wanted_blocks(sizes, offset, end, n).len(),
    ensures
        0 <= wanted_blocks(sizes, offset, end, n)[k].0 < n,
        wanted_blocks(sizes, offset, end, n)[k].1 == block_start(
            sizes,
            wanted_blocks(sizes, offset, end, n)[k].0,
        ),
        is_wanted(sizes, offset, end, wanted_blocks(sizes, offset, end, n)[k].0),
        0 <= wanted_blocks(sizes, offset, end, n)[k].1 < end,
    decreases n,
{
    if n > 0 {
        if is_wanted(sizes, offset, end, n - 1) {
            lemma_starts_grow(sizes, 0, n - 1);
            if k < wanted_blocks(sizes, offset, end, n - 1).len() {
                lemma_wanted_starts_before_end(sizes, offset, end, n - 1, k);
            }
        } else {
            lemma_wanted_starts_before_end(sizes, offset, end, n - 1, k);
        }
    }
}

// ---------------------------------------------------------------------------
// What a read returns
// ---------------------------------------------------------------------------

/// Whether the sizes are the true ones of the blocks.
pub open spec fn truthful(sizes: Seq<u64>, blocks: Seq<Seq<u8>>) -> bool {
    &&& sizes.len() == blocks.len()
    &&& forall|i: int| 0 <= i < sizes.len() ==> (#[trigger] blocks[i]).len() == sizes[i]
}

/// The plaintext of the first `n` blocks.
pub open spec fn plaintext_of(blocks: Seq<Seq<u8>>, n: int) -> Seq<u8>
    decreases n,
{
    if n <= 0 {
        Seq::empty()
    } else {
        plaintext_of(blocks, n - 1) + blocks[n - 1]
    }
}

/// The blocks that a plan names.
pub open spec fn fetched_for(plan: Seq<(int, int)>, blocks: Seq<Seq<u8>>) -> Seq<Seq<u8>> {
    Seq::new(plan.len(), |k: int| blocks[plan[k].0])
}

/// A read of a revision whose sizes are the true ones returns exactly the bytes
/// of the file in the range asked for, cut off at the end of the file.
pub proof fn law_truthful_read_is_exact(
    sizes: Seq<u64>,
    blocks: Seq<Seq<u8>>,
    offset: int,
    length: int,
)
    requires
        truthful(sizes, blocks),
        0 <= offset,
        0 <= length,
    ensures
        ({
            let plan = read_plan(sizes, offset, length);
            let end = read_end(sizes, offset, length);
            let whole = plaintext_of(blocks, blocks.len() as int);
            &&& whole.len() == total_size(sizes)
            &&& read_result(plan, fetched_for(plan, blocks), offset, end, plan.len() as int) == (
            if offset < total_size(sizes) {
                whole.subrange(offset, end)
            } else {
                Seq::empty()
            })
        }),
{
    let end = read_end(sizes, offset, length);
    lemma_plaintext_len(sizes, blocks, sizes.len() as int);
    if length == 0 || offset >= total_size(sizes) {
        if offset < total_size(sizes) {
            assert(plaintext_of(blocks, blocks.len() as int).subrange(offset, end) =~= Seq::empty());
        }
    } else {
        lemma_read_prefix(sizes, blocks, offset, end, sizes.len() as int);
        lemma_starts_grow(sizes, sizes.len() as int, sizes.len() as int);
    }
}

/// Reading a range in two pieces gives the same bytes as reading it at once.
pub proof fn law_adjacent_reads_join(
    sizes: Seq<u64>,
    blocks: Seq<Seq<u8>>,
    offset: int,
    first: int,
    second: int,
)
    requires
        truthful(sizes, blocks),
        0 <= offset,
        0 <= first,
        0 <= second,
    ensures
        ({
            let read = |at: int, length: int|
                {
                    let plan = read_plan(sizes, at, length);
                    read_result(
                        plan,
                        fetched_for(plan, blocks),
                        at,
                        read_end(sizes, at, length),
                        plan.len() as int,
                    )
                };
            read(offset, first) + read(offset + first, second) == read(offset, first + second)
        }),
{
    let whole = plaintext_of(blocks, blocks.len() as int);
    law_truthful_read_is_exact(sizes, blocks, offset, first);
    law_truthful_read_is_exact(sizes, blocks, offset + first, second);
    law_truthful_read_is_exact(sizes, blocks, offset, first + second);
    if offset < total_size(sizes) {
        let middle = read_end(sizes, offset, first);
        let end = read_end(sizes, offset, first + second);
        if offset + first < total_size(sizes) {
            assert(whole.subrange(offset, middle) + whole.subrange(middle, end)
                =~= whole.subrange(offset, end));
        } else {
            assert(whole.subrange(offset, middle) + Seq::<u8>::empty() =~= whole.subrange(
                offset,
                end,
            ));
        }
    } else {
        assert(Seq::<u8>::empty() + Seq::<u8>::empty() =~= Seq::<u8>::empty());
    }
}

proof fn lemma_plaintext_len(sizes: Seq<u64>, blocks: Seq<Seq<u8>>, n: int)
    requires
        truthful(sizes, blocks),
        0 <= n <= sizes.len(),
    ensures
        plaintext_of(blocks, n).len() == block_start(sizes, n),
    decreases n,
{
    if n > 0 {
        lemma_plaintext_len(sizes, blocks, n - 1);
    }
}

/// The part of a read that the first `n` blocks contribute.
proof fn lemma_read_prefix(
    sizes: Seq<u64>,
    blocks: Seq<Seq<u8>>,
    offset: int,
    end: int,
    n: int,
)
    requires
        truthful(sizes, blocks),
        0 <= n <= sizes.len(),
        0 <= offset < end <= total_size(sizes),
    ensures
        ({
            let plan = wanted_blocks(sizes, offset, end, n);
            let reach = if block_start(sizes, n) < end {
                block_start(sizes, n)
            } else {
                end
            };
            &&& read_result(plan, fetched_for(plan, blocks), offset, end, plan.len() as int) == (
            if reach <= offset {
                Seq::empty()
            } else {
                plaintext_of(blocks, n).subrange(offset, reach)
            })
        }),
    decreases n,
{
    let plan = wanted_blocks(sizes, offset, end, n);
    let got = fetched_for(plan, blocks);
    if n > 0 {
        let shorter = wanted_blocks(sizes, offset, end, n - 1);
        let fewer = fetched_for(shorter, blocks);
        lemma_read_prefix(sizes, blocks, offset, end, n - 1);
        lemma_plaintext_len(sizes, blocks, n - 1);
        lemma_plaintext_len(sizes, blocks, n);
        lemma_starts_grow(sizes, n - 1, n);
        let start = block_start(sizes, n - 1);
        let stop = block_start(sizes, n);
        let before = plaintext_of(blocks, n - 1);
        let after = plaintext_of(blocks, n);
        let last = blocks[n - 1];
        if is_wanted(sizes, offset, end, n - 1) {
            lemma_result_ignores_rest(shorter, fewer, plan, got, offset, end, shorter.len() as int);
            let reach = if stop < end {
                stop
            } else {
                end
            };
            assert(got[plan.len() - 1] == last);
            if start <= offset {
                assert(spliced(last, start, offset, end) =~= after.subrange(offset, reach));
            } else {
                assert(before.subrange(offset, start) + spliced(last, start, offset, end)
                    =~= after.subrange(offset, reach));
            }
        } else {
            if start >= end {
                assert(before.subrange(offset, end) =~= after.subrange(offset, end));
            }
        }
    }
}

/// What the first entries of a plan contribute does not depend on later ones.
proof fn lemma_result_ignores_rest(
    plan: Seq<(int, int)>,
    fetched: Seq<Seq<u8>>,
    longer: Seq<(int, int)>,
    more: Seq<Seq<u8>>,
    offset: int,
    end: int,
    n: int,
)
    requires
        0 <= n <= plan.len() <= longer.len(),
        fetched.len() == plan.len(),
        more.len() == longer.len(),
        forall|i: int| 0 <= i < plan.len() ==> plan[i] == longer[i] && fetched[i] == more[i],
    ensures
        read_result(plan, fetched, offset, end, n) == read_result(longer, more, offset, end, n),
    decreases n,
{
    if n > 0 {
        lemma_result_ignores_rest(plan, fetched, longer, more, offset, end, n - 1);
    }
}

proof fn lemma_wanted(sizes: Seq<u64>, offset: int, end: int, n: int)
    requires
        0 <= n <= sizes.len(),
    ensures
        ({
            let plan = wanted_blocks(sizes, offset, end, n);
            &&& forall|k: int, l: int|
                0 <= k < l < plan.len() ==> (#[trigger] plan[k]).0 < (#[trigger] plan[l]).0
            &&& forall|k: int|
                0 <= k < plan.len() ==> {
                    &&& 0 <= (#[trigger] plan[k]).0 < n
                    &&& plan[k].1 == block_start(sizes, plan[k].0)
                    &&& plan[k].1 < end
                    &&& plan[k].1 + sizes[plan[k].0] > offset
                }
            &&& forall|i: int|
                0 <= i < n && block_start(sizes, i) < end && #[trigger] block_start(sizes, i)
                    + sizes[i] > offset ==> exists|k: int|
                    0 <= k < plan.len() && (#[trigger] plan[k]).0 == i
        }),
    decreases n,
{
    if n > 0 {
        lemma_wanted(sizes, offset, end, n - 1);
        let before = wanted_blocks(sizes, offset, end, n - 1);
        let plan = wanted_blocks(sizes, offset, end, n);
        assert(block_start(sizes, n) == block_start(sizes, n - 1) + sizes[n - 1]);
        assert forall|i: int|
            0 <= i < n && block_start(sizes, i) < end && #[trigger] block_start(sizes, i) + sizes[i]
                > offset implies exists|k: int|
            0 <= k < plan.len() && (#[trigger] plan[k]).0 == i by {
            if i < n - 1 {
                let k = choose|k: int| 0 <= k < before.len() && (#[trigger] before[k]).0 == i;
                assert(plan[k] == before[k]);
            } else {
                assert(is_wanted(sizes, offset, end, n - 1));
                assert(plan[before.len() as int].0 == i);
            }
        }
    }
}

/// A read fetches just the blocks that hold some of what is asked for, in order, each
/// with the place where it begins. It ends where it was asked to, or with the file.
pub proof fn law_only_needed_blocks_are_read(sizes: Seq<u64>, offset: int, length: int, i: int)
    requires
        0 <= offset,
        0 < length,
        offset < total_size(sizes),
    ensures
        ({
            let plan = read_plan(sizes, offset, length);
            let end = if offset + length <= total_size(sizes) {
                offset + length
            } else {
                total_size(sizes)
            };
            &&& read_end(sizes, offset, length) == end
            &&& forall|k: int, l: int|
                0 <= k < l < plan.len() ==> (#[trigger] plan[k]).0 < (#[trigger] plan[l]).0
            &&& forall|k: int|
                0 <= k < plan.len() ==> {
                    &&& 0 <= (#[trigger] plan[k]).0 < sizes.len()
                    &&& plan[k].1 == block_start(sizes, plan[k].0)
                    &&& plan[k].1 < end
                    &&& plan[k].1 + sizes[plan[k].0] > offset
                }
            &&& 0 <= i < sizes.len() && block_start(sizes, i) < end && block_start(sizes, i)
                + sizes[i] > offset ==> exists|k: int|
                0 <= k < plan.len() && (#[trigger] plan[k]).0 == i
        }),
{
    let end = read_end(sizes, offset, length);
    lemma_wanted(sizes, offset, end, sizes.len() as int);
    let plan = read_plan(sizes, offset, length);
    assert(plan == wanted_blocks(sizes, offset, end, sizes.len() as int));
    assert(end == (if offset + length <= total_size(sizes) {
        offset + length
    } else {
        total_size(sizes)
    }));
    if 0 <= i < sizes.len() && block_start(sizes, i) < end && block_start(sizes, i) + sizes[i]
        > offset {
        assert(exists|k: int| 0 <= k < plan.len() && (#[trigger] plan[k]).0 == i);
    }
}

/// Blocks begin one behind the other, the first at the start of the file.
pub proof fn law_blocks_begin_behind_each_other(sizes: Seq<u64>, i: int)
    requires
        0 <= i < sizes.len(),
    ensures
        block_start(sizes, 0) == 0,
        block_start(sizes, i + 1) == block_start(sizes, i) + sizes[i],
        total_size(sizes) == block_start(sizes, sizes.len() as int),
{
}

/// What a block gives to a read is just the part of it that lies in what is asked for.
pub proof fn law_a_block_gives_its_part(
    plaintext: Seq<u8>,
    start: int,
    offset: int,
    end: int,
    j: int,
)
    ensures
        ({
            let part = spliced(plaintext, start, offset, end);
            let from = if offset > start {
                offset - start
            } else {
                0
            };
            &&& forall|k: int|
                0 <= k < part.len() ==> #[trigger] part[k] == plaintext[from + k] && offset <= start
                    + from + k < end
            &&& 0 <= j < plaintext.len() && offset <= start + j < end ==> from <= j < from
                + part.len()
            &&& part.len() <= plaintext.len()
        }),
{
}

/// What is said of blocks that are not there, or no longer as many.
pub proof fn law_missing_blocks_are_counted(index: nat, was: nat, is: nat, revision_id: Seq<char>)
    ensures
        missing_block_message(index, revision_id) == "block "@ + decimal(index)
            + " is missing from revision "@ + revision_id,
        block_count_message(revision_id, was, is) == "revision "@ + revision_id
            + " changed block count while open ("@ + decimal(was) + " -> "@ + decimal(is) + ")"@,
{
}

} // verus!
