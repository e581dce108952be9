//! What a revision read needs from its client: the block listing, the plaintext
//! size of each block, and how a dead session is replaced.

use vstd::prelude::*;
use vstd::string::StringExecFns;

use crate::dtos::{BlockDto, DecryptedCommonExtendedAttributes};
use crate::error::{is_session_expired, invalid, ProtonError};
use crate::ids::{LinkId, VolumeId};
use crate::order::{
    arranged, comes_before, is_stable_order, lemma_stable_order_exists, stable_order,
    stable_order_of,
};
use crate::text::{decimal, owned, push_decimal};

verus! {

/// Content blocks hold this many bytes of plaintext each, except the last.
pub const DEFAULT_BLOCK_SIZE: usize = 4194304;

/// Blocks per page of a revision listing.
pub const BLOCK_PAGE_SIZE: usize = 50;

/// The most pages asked for at once.
pub const MAX_PAGE_WINDOW: u64 = 6;

// ---------------------------------------------------------------------------
// Block sizes
// ---------------------------------------------------------------------------

/// The size of block `i` of a file of `total` bytes, cut into full blocks with a
/// shorter one at the end.
pub open spec fn cut_size(total: int, i: int) -> int {
    let left = total - DEFAULT_BLOCK_SIZE * i;
    if left <= 0 {
        0
    } else if left < DEFAULT_BLOCK_SIZE {
        left
    } else {
        DEFAULT_BLOCK_SIZE as int
    }
}

/// The block sizes that the uploader recorded, when they describe every block.
pub open spec fn recorded_sizes(
    common: Option<&DecryptedCommonExtendedAttributes>,
    block_count: nat,
) -> Option<Seq<i64>> {
    match common {
        Some(c) => match c.block_sizes {
            Some(sizes) => if sizes@.len() == block_count {
                Some(sizes@)
            } else {
                None
            },
            None => None,
        },
        None => None,
    }
}

/// The total size that the uploader recorded, when it is one.
pub open spec fn recorded_total(common: Option<&DecryptedCommonExtendedAttributes>) -> Option<int> {
    match common {
        Some(c) => match c.size {
            Some(n) => if n >= 0 {
                Some(n as int)
            } else {
                None
            },
            None => None,
        },
        None => None,
    }
}

/// Whether `bad` is the first position of `sizes` that holds no positive size.
pub open spec fn first_non_positive(sizes: Seq<i64>, bad: int) -> bool {
    &&& 0 <= bad < sizes.len()
    &&& sizes[bad] <= 0
    &&& forall|i: int| 0 <= i < bad ==> sizes[i] > 0
}

/// What is said of a revision whose recorded sizes hold a non-positive one.
pub open spec fn bad_size_message(revision_id: Seq<char>, bad: nat) -> Seq<char> {
    "revision "@ + revision_id + " records a non-positive size for block "@ + decimal(bad)
}

/// What is said of a revision of several blocks whose sizes nothing tells.
pub open spec fn no_sizes_message(revision_id: Seq<char>, block_count: nat) -> Seq<char> {
    "revision "@ + revision_id + " has "@ + decimal(block_count)
        + " blocks but no usable size information (no block sizes and no total in its extended attributes)"@
}

/// The plaintext size of each block of a revision.
///
/// The sizes that the uploader recorded win, then the recorded total cut into
/// full blocks. With neither, a single block is taken to be full; several are
/// refused, since a wrong size misplaces every block after it.
pub fn rank_block_sizes(
    common: Option<&DecryptedCommonExtendedAttributes>,
    revision_id: &str,
    block_count: usize,
) -> (r: Result<Vec<u64>, ProtonError>)
    ensures
        match recorded_sizes(common, block_count as nat) {
            Some(sizes) => match r {
                Ok(out) => {
                    &&& forall|i: int| 0 <= i < sizes.len() ==> sizes[i] > 0
                    &&& out@.len() == sizes.len()
                    &&& forall|i: int| 0 <= i < sizes.len() ==> out@[i] == sizes[i]
                },
                Err(e) => exists|bad: int| #[trigger]
                    first_non_positive(sizes, bad) && invalid(
                        e,
                        bad_size_message(revision_id@, bad as nat),
                    ),
            },
            None => match recorded_total(common) {
                Some(total) => {
                    &&& r is Ok
                    &&& r->Ok_0@.len() == block_count
                    &&& forall|i: int| 0 <= i < block_count ==> r->Ok_0@[i] == cut_size(total, i)
                },
                None => if block_count <= 1 {
                    &&& r is Ok
                    &&& r->Ok_0@.len() == block_count
                    &&& forall|i: int| 0 <= i < block_count ==> r->Ok_0@[i] == DEFAULT_BLOCK_SIZE
                } else {
                    &&& r is Err
                    &&& invalid(r->Err_0, no_sizes_message(revision_id@, block_count as nat))
                },
            },
        },
        r is Ok ==> r->Ok_0@.len() == block_count,
        common is Some && common->0.block_sizes is Some && common->0.block_sizes->0@.len()
            == block_count ==> {
            let sizes = common->0.block_sizes->0@;
            &&& r is Ok <==> forall|i: int| 0 <= i < sizes.len() ==> #[trigger] sizes[i] > 0
            &&& r is Ok ==> forall|i: int| 0 <= i < sizes.len() ==> #[trigger] r->Ok_0@[i] == sizes[i]
            &&& r is Err ==> exists|bad: int|
                #![trigger sizes[bad]]
                0 <= bad < sizes.len() && sizes[bad] <= 0 && (forall|i: int|
                    0 <= i < bad ==> #[trigger] sizes[i] > 0) && invalid(
                    r->Err_0,
                    "revision "@ + revision_id@ + " records a non-positive size for block "@
                        + decimal(bad as nat),
                )
        },
        common is Some && !(common->0.block_sizes is Some && common->0.block_sizes->0@.len()
            == block_count) && common->0.size is Some && common->0.size->0 >= 0 ==> r is Ok && forall|
            i: int,
        |
            0 <= i < block_count ==> #[trigger] r->Ok_0@[i] == (if common->0.size->0 <= 4194304 * i {
                0
            } else if common->0.size->0 <= 4194304 * (i + 1) {
                common->0.size->0 - 4194304 * i
            } else {
                4194304
            }),
        common is None || (!(common->0.block_sizes is Some && common->0.block_sizes->0@.len()
            == block_count) && !(common->0.size is Some && common->0.size->0 >= 0)) ==> {
            &&& r is Ok <==> block_count <= 1
            &&& block_count == 1 ==> r->Ok_0@[0] == 4194304
            &&& r is Err ==> invalid(
                r->Err_0,
                "revision "@ + revision_id@ + " has "@ + decimal(block_count as nat)
                    + " blocks but no usable size information (no block sizes and no total in its extended attributes)"@,
            )
        },
{
    let block: u64 = DEFAULT_BLOCK_SIZE as u64;
    if let Some(c) = common {
        if let Some(sizes) = &c.block_sizes {
            if sizes.len() == block_count {
                let mut out: Vec<u64> = Vec::new();
                let mut i: usize = 0;
                while i < sizes.len()
                    invariant
                        i <= sizes@.len(),
                        sizes@.len() == block_count,
                        recorded_sizes(common, block_count as nat) == Some(sizes@),
                        out@.len() == i,
                        forall|j: int| 0 <= j < i ==> sizes@[j] > 0 && out@[j] == sizes@[j],
                    decreases sizes@.len() - i,
                {
                    if sizes[i] <= 0 {
                        let mut message: String = owned("revision ");
                        message.append(revision_id);
                        message.append(" records a non-positive size for block ");
                        push_decimal(&mut message, i as u64);
                        let refusal = ProtonError::invalid_operation(message.as_str());
                        assert(first_non_positive(sizes@, i as int));
                        assert(exists|bad: int| #[trigger]
                            first_non_positive(sizes@, bad) && invalid(
                                refusal,
                                bad_size_message(revision_id@, bad as nat),
                            ));
                        assert(recorded_sizes(common, block_count as nat)->0 == sizes@);
                        return Err(refusal);
                    }
                    out.push(sizes[i] as u64);
                    i += 1;
                }
                return Ok(out);
            }
        }
        if let Some(total) = c.size {
            if total >= 0 {
                let mut out: Vec<u64> = Vec::new();
                let mut left: u64 = total as u64;
                let mut i: usize = 0;
                while i < block_count
                    invariant
                        i <= block_count,
                        block == DEFAULT_BLOCK_SIZE,
                        total >= 0,
                        left == (if total - DEFAULT_BLOCK_SIZE * i > 0 {
                            total - DEFAULT_BLOCK_SIZE * i
                        } else {
                            0
                        }),
                        out@.len() == i,
                        forall|j: int| 0 <= j < i ==> out@[j] == cut_size(total as int, j),
                    decreases block_count - i,
                {
                    let size: u64 = if left < block {
                        left
                    } else {
                        block
                    };
                    out.push(size);
                    left = left - size;
                    i += 1;
                }
                proof {
                    assert forall|j: int| 0 <= j < block_count implies #[trigger] out@[j] == (
                    if total <= 4194304 * j {
                        0
                    } else if total <= 4194304 * (j + 1) {
                        total - 4194304 * j
                    } else {
                        4194304
                    }) by {
                        assert(out@[j] == cut_size(total as int, j));
                    }
                }
                return Ok(out);
            }
        }
    }
    if block_count <= 1 {
        let mut out: Vec<u64> = Vec::new();
        if block_count == 1 {
            out.push(block);
        }
        return Ok(out);
    }
    let mut message: String = owned("revision ");
    message.append(revision_id);
    message.append(" has ");
    push_decimal(&mut message, block_count as u64);
    message.append(
        " blocks but no usable size information (no block sizes and no total in its extended attributes)",
    );
    Err(ProtonError::invalid_operation(message.as_str()))
}

/// The sum of the first `n` blocks of a file of `total` bytes.
pub open spec fn cut_sum(total: int, n: nat) -> int
    decreases n,
{
    if n == 0 {
        0
    } else {
        cut_sum(total, (n - 1) as nat) + cut_size(total, n - 1)
    }
}

/// Cutting a total into blocks loses nothing: the blocks sum to the total as
/// soon as there are enough of them, and to full blocks before that.
pub proof fn law_cut_sizes_sum_to_total(total: int, n: nat)
    requires
        0 <= total,
    ensures
        cut_sum(total, n) == (if total <= DEFAULT_BLOCK_SIZE * n {
            total
        } else {
            DEFAULT_BLOCK_SIZE * n
        }),
    decreases n,
{
    if n > 0 {
        law_cut_sizes_sum_to_total(total, (n - 1) as nat);
    }
}

// ---------------------------------------------------------------------------
// The block listing
// ---------------------------------------------------------------------------

/// The page of a revision listing that starts at block `from`.
pub open spec fn listing_path(
    volume_id: Seq<char>,
    link_id: Seq<char>,
    revision_id: Seq<char>,
    from: nat,
) -> Seq<char> {
    "v2/volumes/"@ + volume_id + "/files/"@ + link_id + "/revisions/"@ + revision_id
        + "?FromBlockIndex="@ + decimal(from) + "&PageSize=50&NoBlockUrls=0"@
}

/// The request for page `page` of a revision listing. Pages hold
/// [`BLOCK_PAGE_SIZE`] blocks and blocks are numbered from one.
pub fn block_page_path(
    volume_id: &VolumeId,
    link_id: &LinkId,
    revision_id: &str,
    page: u64,
) -> (path: String)
    requires
        page * BLOCK_PAGE_SIZE + 1 <= u64::MAX,
    ensures
        path@ == listing_path(
            volume_id@,
            link_id@,
            revision_id@,
            (page * BLOCK_PAGE_SIZE + 1) as nat,
        ),
        path@ == "v2/volumes/"@ + volume_id@ + "/files/"@ + link_id@ + "/revisions/"@ + revision_id@
            + "?FromBlockIndex="@ + decimal((page * 50 + 1) as nat) + "&PageSize=50&NoBlockUrls=0"@,
{
    let mut path: String = owned("v2/volumes/");
    path.append(volume_id.as_str());
    path.append("/files/");
    path.append(link_id.as_str());
    path.append("/revisions/");
    path.append(revision_id);
    path.append("?FromBlockIndex=");
    push_decimal(&mut path, page * 50 + 1);
    path.append("&PageSize=50&NoBlockUrls=0");
    path
}

/// The blocks that a listing keeps of the pages it is given: everything up to and
/// with the first page that is not full.
pub open spec fn kept_blocks(pages: Seq<Seq<BlockDto>>) -> Seq<BlockDto>
    decreases pages.len(),
{
    if pages.len() == 0 {
        Seq::empty()
    } else if pages[0].len() < BLOCK_PAGE_SIZE {
        pages[0]
    } else {
        pages[0] + kept_blocks(pages.drop_first())
    }
}

/// Whether the blocks are numbered from one upwards without a gap.
pub open spec fn is_contiguous(blocks: Seq<BlockDto>) -> bool {
    forall|i: int| 0 <= i < blocks.len() ==> (#[trigger] blocks[i]).index == i + 1
}

/// The numbers of the blocks.
pub open spec fn block_keys(blocks: Seq<BlockDto>) -> Seq<i32> {
    Seq::new(blocks.len(), |i: int| blocks[i].index)
}

/// The blocks by number.
pub open spec fn by_number(blocks: Seq<BlockDto>) -> Seq<BlockDto> {
    arranged(blocks, stable_order_of(block_keys(blocks)))
}

/// A revision listing under way.
///
/// Pages after the first are asked for several at a time. The window grows from
/// two pages to [`MAX_PAGE_WINDOW`]; what comes after a page that is not full is
/// past the end and is dropped.
pub struct BlockListing {
    pub blocks: Vec<BlockDto>,
    pub next_page: u64,
    pub window: u64,
    pub complete: bool,
}

impl BlockListing {
    /// What the listing has taken in: the pages so far, of which it has kept the
    /// blocks before the end.
    pub open spec fn has_taken(self, pages: Seq<Seq<BlockDto>>) -> bool {
        &&& self.blocks@ == kept_blocks(pages)
        &&& self.complete == exists|i: int| 0 <= i < pages.len() && (#[trigger] pages[i]).len()
            < BLOCK_PAGE_SIZE
    }

    /// The listing after its first page.
    pub fn start(first_page: Vec<BlockDto>) -> (listing: BlockListing)
        ensures
            listing.has_taken(seq![first_page@]),
            listing.next_page == 1,
            listing.window == 2,
    {
        let complete: bool = first_page.len() < BLOCK_PAGE_SIZE;
        let listing = BlockListing { blocks: first_page, next_page: 1, window: 2, complete };
        proof {
            let pages = seq![first_page@];
            assert(pages.drop_first() =~= Seq::<Seq<BlockDto>>::empty());
            assert(kept_blocks(pages) =~= first_page@) by {
                reveal_with_fuel(kept_blocks, 2);
            }
            if complete {
                assert(pages[0].len() < BLOCK_PAGE_SIZE);
            }
        }
        listing
    }

    /// The next pages to ask for, and the wider window for the batch after them.
    pub fn next_batch(&mut self) -> (pages: Vec<u64>)
        requires
            old(self).window <= MAX_PAGE_WINDOW,
            old(self).next_page <= 0xffff_ffff_ffff,
        ensures
            pages@.len() == old(self).window,
            forall|i: int| 0 <= i < pages@.len() ==> pages@[i] == old(self).next_page + i,
            final(self).next_page == old(self).next_page + old(self).window,
            final(self).window == (if old(self).window * 2 < MAX_PAGE_WINDOW {
                old(self).window * 2
            } else {
                MAX_PAGE_WINDOW as int
            }),
            final(self).blocks == old(self).blocks,
            final(self).complete == old(self).complete,
    {
        let mut pages: Vec<u64> = Vec::new();
        let mut i: u64 = 0;
        while i < self.window
            invariant
                i <= self.window,
                self.window <= MAX_PAGE_WINDOW,
                self.next_page <= 0xffff_ffff_ffff,
                pages@.len() == i,
                forall|j: int| 0 <= j < i ==> pages@[j] == self.next_page + j,
            decreases self.window - i,
        {
            pages.push(self.next_page + i);
            i += 1;
        }
        self.next_page = self.next_page + self.window;
        self.window = if self.window * 2 < MAX_PAGE_WINDOW {
            self.window * 2
        } else {
            MAX_PAGE_WINDOW
        };
        pages
    }

    /// Takes in the next page.
    pub fn absorb(&mut self, page: Vec<BlockDto>)
        ensures
            old(self).complete ==> *final(self) == *old(self),
            !old(self).complete ==> final(self).blocks@ == old(self).blocks@ + page@,
            !old(self).complete ==> final(self).complete == (page@.len() < BLOCK_PAGE_SIZE),
            final(self).next_page == old(self).next_page,
            final(self).window == old(self).window,
            forall|pages: Seq<Seq<BlockDto>>| #[trigger]
                old(self).has_taken(pages) ==> final(self).has_taken(pages.push(page@)),
    {
        let ghost before = *self;
        let ghost taken = page@;
        if !self.complete {
            self.complete = page.len() < BLOCK_PAGE_SIZE;
            let mut page = page;
            self.blocks.append(&mut page);
        }
        proof {
            assert forall|pages: Seq<Seq<BlockDto>>| #[trigger] before.has_taken(
                pages,
            ) implies self.has_taken(pages.push(taken)) by {
                lemma_kept_push(pages, taken);
                let more = pages.push(taken);
                if before.complete {
                    let i = choose|i: int| 0 <= i < pages.len() && (#[trigger] pages[i]).len()
                        < BLOCK_PAGE_SIZE;
                    assert(more[i] == pages[i]);
                } else {
                    if taken.len() < BLOCK_PAGE_SIZE {
                        assert(more[pages.len() as int].len() < BLOCK_PAGE_SIZE);
                    } else {
                        assert forall|i: int| 0 <= i < more.len() implies (
                        #[trigger] more[i]).len() >= BLOCK_PAGE_SIZE by {
                            if i < pages.len() {
                                assert(more[i] == pages[i]);
                            }
                        }
                    }
                }
            }
        }
    }

    /// The block table, by number. It is refused when a block is missing or
    /// listed twice.
    pub fn finish(self) -> (r: Result<Vec<BlockDto>, ProtonError>)
        requires
            self.blocks@.len() < 0x7fff_ffff,
        ensures
            match r {
                Ok(table) => {
                    &&& table@ == by_number(self.blocks@)
                    &&& is_contiguous(table@)
                    &&& table@.len() == self.blocks@.len()
                    &&& forall|i: int|
                        0 <= i < table@.len() ==> (#[trigger] table@[i]).index == i + 1
                            && self.blocks@.contains(table@[i])
                },
                Err(e) => !is_contiguous(by_number(self.blocks@)) && invalid(
                    e,
                    "file contents are incomplete (non-contiguous blocks)"@,
                ),
            },
    {
        let mut keys: Vec<i32> = Vec::new();
        let mut i: usize = 0;
        while i < self.blocks.len()
            invariant
                i <= self.blocks@.len(),
                keys@.len() == i,
                forall|j: int| 0 <= j < i ==> keys@[j] == self.blocks@[j].index,
            decreases self.blocks@.len() - i,
        {
            keys.push(self.blocks[i].index);
            i += 1;
        }
        assert(keys@ =~= block_keys(self.blocks@));
        let order: Vec<usize> = stable_order(&keys);
        let mut table: Vec<BlockDto> = Vec::new();
        let mut k: usize = 0;
        while k < order.len()
            invariant
                k <= order@.len(),
                order@.len() == self.blocks@.len(),
                self.blocks@.len() < 0x7fff_ffff,
                is_stable_order(keys@, order@),
                keys@ == block_keys(self.blocks@),
                order@ == stable_order_of(keys@),
                table@ == by_number(self.blocks@).take(k as int),
                forall|j: int| 0 <= j < k ==> (#[trigger] table@[j]).index == j + 1,
            decreases order@.len() - k,
        {
            let block: &BlockDto = &self.blocks[order[k]];
            assert(by_number(self.blocks@)[k as int] == *block);
            if block.index != k as i32 + 1 {
                return Err(
                    ProtonError::invalid_operation(
                        "file contents are incomplete (non-contiguous blocks)",
                    ),
                );
            }
            table.push(block.clone());
            k += 1;
            assert(table@ =~= by_number(self.blocks@).take(k as int));
        }
        assert(table@ =~= by_number(self.blocks@));
        proof {
            assert forall|j: int| 0 <= j < table@.len() implies self.blocks@.contains(
                #[trigger] table@[j],
            ) by {
                assert(table@[j] == self.blocks@[order@[j] as int]);
            }
        }
        Ok(table)
    }
}

proof fn lemma_kept_push(pages: Seq<Seq<BlockDto>>, page: Seq<BlockDto>)
    ensures
        kept_blocks(pages.push(page)) == (if exists|i: int|
            0 <= i < pages.len() && (#[trigger] pages[i]).len() < BLOCK_PAGE_SIZE {
            kept_blocks(pages)
        } else {
            kept_blocks(pages) + page
        }),
    decreases pages.len(),
{
    let more = pages.push(page);
    if pages.len() == 0 {
        assert(more.drop_first() =~= Seq::<Seq<BlockDto>>::empty());
        reveal_with_fuel(kept_blocks, 2);
        assert(kept_blocks(more) =~= kept_blocks(pages) + page);
    } else {
        assert(more[0] == pages[0]);
        let rest = pages.drop_first();
        assert(more.drop_first() =~= rest.push(page));
        if pages[0].len() >= BLOCK_PAGE_SIZE {
            lemma_kept_push(rest, page);
            if exists|i: int| 0 <= i < pages.len() && (#[trigger] pages[i]).len() < BLOCK_PAGE_SIZE {
                let i = choose|i: int|
                    0 <= i < pages.len() && (#[trigger] pages[i]).len() < BLOCK_PAGE_SIZE;
                assert(rest[i - 1].len() < BLOCK_PAGE_SIZE);
            } else {
                assert forall|i: int| 0 <= i < rest.len() implies (#[trigger] rest[i]).len()
                    >= BLOCK_PAGE_SIZE by {
                    assert(rest[i] == pages[i + 1]);
                }
                assert(kept_blocks(more) =~= kept_blocks(pages) + page);
            }
        }
    }
}

proof fn lemma_pages_tile(table: Seq<BlockDto>, pages: Seq<Seq<BlockDto>>, from: int)
    requires
        0 <= from <= table.len(),
        table.len() < from + 50 * pages.len(),
        forall|p: int|
            0 <= p < pages.len() ==> #[trigger] pages[p] == table.subrange(
                if from + 50 * p < table.len() {
                    from + 50 * p
                } else {
                    table.len() as int
                },
                if from + 50 * p + 50 < table.len() {
                    from + 50 * p + 50
                } else {
                    table.len() as int
                },
            ),
    ensures
        kept_blocks(pages) == table.skip(from),
    decreases pages.len(),
{
    let first = pages[0];
    if first.len() < BLOCK_PAGE_SIZE {
        assert(first =~= table.skip(from));
    } else {
        let rest = pages.drop_first();
        assert forall|p: int| 0 <= p < rest.len() implies #[trigger] rest[p] == table.subrange(
            if from + 50 + 50 * p < table.len() {
                from + 50 + 50 * p
            } else {
                table.len() as int
            },
            if from + 50 + 50 * p + 50 < table.len() {
                from + 50 + 50 * p + 50
            } else {
                table.len() as int
            },
        ) by {
            assert(rest[p] == pages[p + 1]);
        }
        lemma_pages_tile(table, rest, from + 50);
        assert(first + table.skip(from + 50) =~= table.skip(from));
    }
}

/// The pages of a listing tile the block table. A server answers the route that starts
/// at block `n` with fifty blocks from that one on, as far as it has them; then what is
/// kept of the answers to the first pages, once there are enough of them, is the whole
/// table: each block once, and in order.
pub proof fn law_pages_tile_the_table(
    volume_id: Seq<char>,
    link_id: Seq<char>,
    revision_id: Seq<char>,
    answer: spec_fn(Seq<char>) -> Seq<BlockDto>,
    table: Seq<BlockDto>,
    pages: Seq<Seq<BlockDto>>,
)
    requires
        forall|n: nat|
            #![trigger decimal(n)]
            n > 0 ==> answer(
                "v2/volumes/"@ + volume_id + "/files/"@ + link_id + "/revisions/"@ + revision_id
                    + "?FromBlockIndex="@ + decimal(n) + "&PageSize=50&NoBlockUrls=0"@,
            ) == table.subrange(
                if n <= table.len() {
                    n - 1
                } else {
                    table.len() as int
                },
                if n + 49 <= table.len() {
                    n as int + 49
                } else {
                    table.len() as int
                },
            ),
        forall|p: int|
            0 <= p < pages.len() ==> #[trigger] pages[p] == answer(
                listing_path(volume_id, link_id, revision_id, (p * BLOCK_PAGE_SIZE + 1) as nat),
            ),
        table.len() < BLOCK_PAGE_SIZE * pages.len(),
    ensures
        kept_blocks(pages) == table,
{
    assert forall|p: int| 0 <= p < pages.len() implies #[trigger] pages[p] == table.subrange(
        if 50 * p < table.len() {
            50 * p
        } else {
            table.len() as int
        },
        if 50 * p + 50 < table.len() {
            50 * p + 50
        } else {
            table.len() as int
        },
    ) by {
        let n = (p * BLOCK_PAGE_SIZE + 1) as nat;
        assert(decimal(n) == decimal(n));
    }
    lemma_pages_tile(table, pages, 0);
    assert(table.skip(0) =~= table);
}

/// The order in which a listing receives its blocks does not matter: any
/// rearrangement of a gapless table is put back in order.
pub proof fn law_listing_restores_the_table(table: Seq<BlockDto>, received: Seq<BlockDto>)
    requires
        forall|i: int| 0 <= i < table.len() ==> (#[trigger] table[i]).index == i + 1,
        received.to_multiset() == table.to_multiset(),
        received.len() <= usize::MAX,
    ensures
        by_number(received) == table,
        is_contiguous(by_number(received)),
{
    let keys = block_keys(received);
    let order = stable_order_of(keys);
    let sorted = by_number(received);
    lemma_stable_order_exists(keys);
    broadcast use vstd::seq_lib::group_to_multiset_ensures;

    assert(received.len() == received.to_multiset().len());
    assert(table.len() == table.to_multiset().len());
    assert(table.no_duplicates());
    table.lemma_multiset_has_no_duplicates();
    received.lemma_multiset_has_no_duplicates_conv();
    assert forall|p: int| 0 <= p < received.len() implies table.contains(#[trigger] received[p]) by {
        assert(received.contains(received[p]));
        assert(received.to_multiset().count(received[p]) > 0);
    }
    assert forall|a: int, b: int| 0 <= a < b < sorted.len() implies (#[trigger] sorted[a]).index < (
    #[trigger] sorted[b]).index by {
        let p = order[a] as int;
        let q = order[b] as int;
        assert(comes_before(keys, p, q));
        assert(0 <= p < received.len() && 0 <= q < received.len());
        let i = choose|i: int| 0 <= i < table.len() && #[trigger] table[i] == received[p];
        let j = choose|j: int| 0 <= j < table.len() && #[trigger] table[j] == received[q];
        if received[p].index == received[q].index {
            assert(i == j);
            assert(received[p] == received[q]);
        }
    }
    assert forall|k: int| 0 <= k < sorted.len() implies 1 <= (#[trigger] sorted[k]).index
        <= table.len() by {
        let p = order[k] as int;
        let i = choose|i: int| 0 <= i < table.len() && #[trigger] table[i] == received[p];
        assert(table[i].index == i + 1);
    }
    assert forall|k: int| 0 <= k < sorted.len() implies (#[trigger] sorted[k]).index == k + 1 by {
        lemma_climbs(sorted, 0, k);
        lemma_climbs(sorted, k, sorted.len() - 1);
    }
    assert forall|k: int| 0 <= k < sorted.len() implies sorted[k] == table[k] by {
        let p = order[k] as int;
        let i = choose|i: int| 0 <= i < table.len() && #[trigger] table[i] == received[p];
        assert(table[i].index == i + 1);
        assert(sorted[k].index == k + 1);
    }
    assert(sorted =~= table);
}

/// Strictly growing numbers grow by at least one per step.
proof fn lemma_climbs(blocks: Seq<BlockDto>, from: int, to: int)
    requires
        0 <= from <= to < blocks.len(),
        forall|a: int, b: int|
            0 <= a < b < blocks.len() ==> (#[trigger] blocks[a]).index < (
            #[trigger] blocks[b]).index,
    ensures
        blocks[to].index - blocks[from].index >= to - from,
    decreases to - from,
{
    if from < to {
        lemma_climbs(blocks, from, to - 1);
        assert(blocks[to - 1].index < blocks[to].index);
    }
}

// ---------------------------------------------------------------------------
// The session
// ---------------------------------------------------------------------------

/// Which session is live. Each replacement takes the next number, so that callers
/// who all met the same dead session replay one handshake between them.
#[derive(Debug, Clone, Copy, PartialEq, Eq, Structural)]
pub struct SessionGeneration {
    pub current: u64,
}

impl SessionGeneration {
    pub fn new() -> (g: SessionGeneration)
        ensures
            g.current == 0,
    {
        SessionGeneration { current: 0 }
    }

    /// Whether the caller that saw session `seen` die has to replay the
    /// handshake. It has not when somebody has already replaced that session.
    pub fn must_renew(&self, seen: u64) -> (r: bool)
        ensures
            r == (self.current == seen),
    {
        self.current == seen
    }

    /// Records that the session was replaced.
    pub fn replaced(&mut self)
        requires
            old(self).current < u64::MAX,
        ensures
            final(self).current == old(self).current + 1,
    {
        self.current = self.current + 1;
    }
}

/// How many handshakes run when callers that saw the sessions `seen` come one
/// after the other, the live session being `current`.
pub open spec fn handshakes(current: int, seen: Seq<int>) -> nat
    decreases seen.len(),
{
    if seen.len() == 0 {
        0
    } else if seen[0] == current {
        1 + handshakes(current + 1, seen.drop_first())
    } else {
        handshakes(current, seen.drop_first())
    }
}

/// However many callers saw the same session die, one handshake runs; and none
/// when that session had already been replaced.
pub proof fn law_one_handshake_per_session(current: int, seen: Seq<int>, died: int)
    requires
        forall|i: int| 0 <= i < seen.len() ==> seen[i] == died,
        died <= current,
    ensures
        handshakes(current, seen) == (if died == current && seen.len() > 0 {
            1nat
        } else {
            0nat
        }),
    decreases seen.len(),
{
    if seen.len() > 0 {
        let rest = seen.drop_first();
        assert forall|i: int| 0 <= i < rest.len() implies rest[i] == died by {
            assert(rest[i] == seen[i + 1]);
        }
        if died == current {
            law_one_handshake_per_session(current + 1, rest, died);
        } else {
            law_one_handshake_per_session(current, rest, died);
        }
    }
}

/// Whether a call that failed is made again: once, after the session was renewed,
/// and only when the failure means that the session is gone.
pub fn retries_after_renewal(error: &ProtonError, already_renewed: bool) -> (r: bool)
    ensures
        r == (!already_renewed && error.status() == Some(401u16)),
{
    !already_renewed && is_session_expired(error)
}

} // verus!
