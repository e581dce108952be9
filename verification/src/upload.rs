//! Writing a revision: its blocks, where each of them goes, what is retried, and
//! the manifest and attributes that seal it.

use vstd::prelude::*;
use vstd::string::StringExecFns;

use crate::content::{by_type, decode_field, digests_of};
use crate::digest::{
    base64_complaint, base64_data, base64_encode, base64_text, hex_encode, hex_text, is_base64,
    law_base64_is_injective, sha1_finalize, sha1_hex, sha1_new, sha1_of, sha1_taken, sha1_update,
    sha256, sha256_of,
};
use crate::drafts::{encodable, RevisionDraft};
use crate::dtos::{
    BlockCreationRequest, BlockVerificationInputResponse, BlockVerifier, ThumbnailCreationRequest,
    ThumbnailDto,
};
use crate::error::{invalid, ProtonError};
use crate::node::{Thumbnail, ThumbnailType};
use crate::order::{
    arranged, comes_before, is_stable_order, lemma_order_reaches, lemma_stable_order_exists,
    stable_order, stable_order_of,
};
use crate::text::{owned, trimmed_text};
use crate::transport::DEFAULT_BLOCK_SIZE;

verus! {

/// What the endpoint for small uploads takes at most, encrypted.
pub const SMALL_UPLOAD_SIZE_LIMIT: usize = 131072;

/// Blocks of one file stored at the same time.
pub const MAX_CONCURRENT_BLOCK_UPLOADS: usize = 5;

/// Blocks of one file encrypted at the same time.
pub const MAX_CONCURRENT_BLOCK_ENCRYPTS: usize = 4;

/// Encrypted blocks of one file that wait to be stored.
pub const MAX_BUFFERED_UPLOAD_BLOCKS: usize = 4;

/// How often storing a block is tried.
pub const MAX_BLOCK_UPLOAD_ATTEMPTS: usize = 3;

/// Whether a file is small enough for the endpoint for small uploads, which
/// encryption makes a tenth larger.
pub fn small_upload_applicable(plaintext_size: usize) -> (r: bool)
    ensures
        r == (plaintext_size * 11 < SMALL_UPLOAD_SIZE_LIMIT * 10),
{
    match plaintext_size.checked_mul(11) {
        Some(n) => n < SMALL_UPLOAD_SIZE_LIMIT * 10,
        None => false,
    }
}

// ---------------------------------------------------------------------------
// Verification
// ---------------------------------------------------------------------------

/// Byte `i` of what is stored, or zero beyond its end.
pub open spec fn padded_byte(data: Seq<u8>, i: int) -> u8 {
    if i < data.len() {
        data[i]
    } else {
        0
    }
}

/// The token that shows that a block was encrypted with the right key: the
/// verification code, combined byte by byte with the start of the block.
pub open spec fn token_of(code: Seq<u8>, ciphertext: Seq<u8>) -> Seq<u8> {
    Seq::new(code.len(), |i: int| code[i] ^ padded_byte(ciphertext, i))
}

/// The verification token of a block.
pub fn verification_token(code: &[u8], ciphertext: &[u8]) -> (token: Vec<u8>)
    ensures
        token@ == token_of(code@, ciphertext@),
{
    let mut token: Vec<u8> = Vec::new();
    let mut i: usize = 0;
    while i < code.len()
        invariant
            i <= code@.len(),
            token@ == token_of(code@, ciphertext@).take(i as int),
        decreases code@.len() - i,
    {
        let byte: u8 = if i < ciphertext.len() {
            ciphertext[i]
        } else {
            0
        };
        token.push(code[i] ^ byte);
        i += 1;
        assert(token@ =~= token_of(code@, ciphertext@).take(i as int));
    }
    assert(token@ =~= token_of(code@, ciphertext@));
    token
}

/// The token gives the start of the block back to whoever knows the code.
pub proof fn law_token_reveals_the_prefix(code: Seq<u8>, ciphertext: Seq<u8>)
    ensures
        token_of(code, token_of(code, ciphertext)) == Seq::new(
            code.len(),
            |i: int| padded_byte(ciphertext, i),
        ),
{
    assert forall|i: int| 0 <= i < code.len() implies token_of(code, token_of(code, ciphertext))[i]
        == padded_byte(ciphertext, i) by {
        let c: u8 = code[i];
        let b: u8 = padded_byte(ciphertext, i);
        assert(c ^ (c ^ b) == b) by (bit_vector);
    }
    assert(token_of(code, token_of(code, ciphertext)) =~= Seq::new(
        code.len(),
        |i: int| padded_byte(ciphertext, i),
    ));
}

/// The content key packet of a draft, as the server has it.
pub fn verification_packet(input: &BlockVerificationInputResponse) -> (r: Result<
    Vec<u8>,
    ProtonError,
>)
    ensures
        match r {
            Ok(data) => is_base64(trimmed_text(input.content_key_packet@)) && data@ == base64_data(
                trimmed_text(input.content_key_packet@),
            ),
            Err(e) => !is_base64(trimmed_text(input.content_key_packet@)) && invalid(
                e,
                "decode verification packet"@ + ": "@ + base64_complaint(
                    trimmed_text(input.content_key_packet@),
                ),
            ),
        },
{
    decode_field(input.content_key_packet.as_str(), "decode verification packet")
}

/// The verification code of a draft.
pub fn verification_code(input: &BlockVerificationInputResponse) -> (r: Result<
    Vec<u8>,
    ProtonError,
>)
    ensures
        match r {
            Ok(data) => is_base64(trimmed_text(input.verification_code@)) && data@ == base64_data(
                trimmed_text(input.verification_code@),
            ),
            Err(e) => !is_base64(trimmed_text(input.verification_code@)) && invalid(
                e,
                "decode verification code"@ + ": "@ + base64_complaint(
                    trimmed_text(input.verification_code@),
                ),
            ),
        },
{
    decode_field(input.verification_code.as_str(), "decode verification code")
}

/// The route of a draft's verification input.
pub fn verification_path(draft: &RevisionDraft) -> (path: String)
    ensures
        path@ == "v2/volumes/"@ + draft.volume_id@ + "/links/"@ + draft.link_id@ + "/revisions/"@
            + draft.revision_id@ + "/verification"@,
{
    let mut path: String = owned("v2/volumes/");
    path.append(draft.volume_id.as_str());
    path.append("/links/");
    path.append(draft.link_id.as_str());
    path.append("/revisions/");
    path.append(draft.revision_id.as_str());
    path.append("/verification");
    path
}

// ---------------------------------------------------------------------------
// The manifest
// ---------------------------------------------------------------------------

/// Digests one after the other.
pub open spec fn joined_digests(digests: Seq<[u8; 32]>) -> Seq<u8>
    decreases digests.len(),
{
    if digests.len() == 0 {
        Seq::empty()
    } else {
        joined_digests(digests.drop_last()) + digests.last()@
    }
}

/// The indices of stored blocks.
pub open spec fn indices_of(blocks: Seq<(i32, [u8; 32])>) -> Seq<i32> {
    Seq::new(blocks.len(), |i: int| blocks[i].0)
}

/// The digests of stored blocks.
pub open spec fn digests_of_blocks(blocks: Seq<(i32, [u8; 32])>) -> Seq<[u8; 32]> {
    Seq::new(blocks.len(), |i: int| blocks[i].1)
}

/// Stored blocks by index.
pub open spec fn by_index(blocks: Seq<(i32, [u8; 32])>) -> Seq<(i32, [u8; 32])> {
    arranged(blocks, stable_order_of(indices_of(blocks)))
}

/// The manifest of a revision: the digests of its thumbnails, and then those of its
/// blocks by index.
pub open spec fn manifest_of(thumbnails: Seq<[u8; 32]>, blocks: Seq<(i32, [u8; 32])>) -> Seq<u8> {
    joined_digests(thumbnails) + joined_digests(digests_of_blocks(by_index(blocks)))
}

/// Appends a digest.
pub fn push_digest(manifest: &mut Vec<u8>, digest: &[u8; 32])
    ensures
        final(manifest)@ == old(manifest)@ + digest@,
{
    let mut i: usize = 0;
    while i < 32
        invariant
            i <= 32,
            digest@.len() == 32,
            manifest@ == old(manifest)@ + digest@.take(i as int),
        decreases 32 - i,
    {
        manifest.push(digest[i]);
        i += 1;
        assert(manifest@ =~= old(manifest)@ + digest@.take(i as int));
    }
    assert(digest@.take(32) =~= digest@);
}

/// The manifest of a revision, whatever order its blocks were stored in.
pub fn assemble_manifest(thumbnails: &[[u8; 32]], blocks: Vec<(i32, [u8; 32])>) -> (manifest: Vec<
    u8,
>)
    ensures
        manifest@ == manifest_of(thumbnails@, blocks@),
{
    let mut indices: Vec<i32> = Vec::new();
    let mut i: usize = 0;
    while i < blocks.len()
        invariant
            i <= blocks@.len(),
            indices@ == indices_of(blocks@).take(i as int),
        decreases blocks@.len() - i,
    {
        indices.push(blocks[i].0);
        i += 1;
        assert(indices@ =~= indices_of(blocks@).take(i as int));
    }
    assert(indices@ =~= indices_of(blocks@));
    let order: Vec<usize> = stable_order(&indices);
    let mut manifest: Vec<u8> = Vec::new();
    let mut k: usize = 0;
    assert(thumbnails@.take(0) =~= Seq::<[u8; 32]>::empty());
    while k < thumbnails.len()
        invariant
            k <= thumbnails@.len(),
            manifest@ == joined_digests(thumbnails@.take(k as int)),
        decreases thumbnails@.len() - k,
    {
        assert(thumbnails@.take(k + 1).drop_last() =~= thumbnails@.take(k as int));
        push_digest(&mut manifest, &thumbnails[k]);
        k += 1;
    }
    assert(thumbnails@.take(k as int) =~= thumbnails@);
    let ghost head = manifest@;
    let ghost sorted = digests_of_blocks(by_index(blocks@));
    let mut j: usize = 0;
    assert(sorted.take(0) =~= Seq::<[u8; 32]>::empty());
    assert(manifest@ =~= head + joined_digests(sorted.take(0)));
    while j < order.len()
        invariant
            j <= order@.len() == blocks@.len() == sorted.len(),
            is_stable_order(indices_of(blocks@), order@),
            order@ == stable_order_of(indices_of(blocks@)),
            sorted == digests_of_blocks(by_index(blocks@)),
            manifest@ == head + joined_digests(sorted.take(j as int)),
        decreases order@.len() - j,
    {
        proof {
            assert(sorted[j as int] == blocks@[order@[j as int] as int].1);
            assert(sorted.take(j + 1).drop_last() =~= sorted.take(j as int));
        }
        push_digest(&mut manifest, &blocks[order[j]].1);
        j += 1;
        assert(manifest@ =~= head + joined_digests(sorted.take(j as int)));
    }
    assert(sorted.take(j as int) =~= sorted);
    manifest
}

/// No two stored blocks have the same index.
pub open spec fn distinct_indices(blocks: Seq<(i32, [u8; 32])>) -> bool {
    forall|i: int, j: int|
        0 <= i < j < blocks.len() ==> (#[trigger] blocks[i]).0 != (#[trigger] blocks[j]).0
}

/// Whether indices grow from each block to the next.
pub open spec fn ascending(blocks: Seq<(i32, [u8; 32])>) -> bool {
    forall|i: int, j: int|
        0 <= i < j < blocks.len() ==> (#[trigger] blocks[i]).0 < (#[trigger] blocks[j]).0
}

/// Whether two listings hold the same blocks.
pub open spec fn same_blocks(a: Seq<(i32, [u8; 32])>, b: Seq<(i32, [u8; 32])>) -> bool {
    forall|block: (i32, [u8; 32])| #[trigger] a.contains(block) <==> #[trigger] b.contains(block)
}

/// Blocks by index: ascending, and the same blocks.
proof fn lemma_by_index(blocks: Seq<(i32, [u8; 32])>)
    requires
        blocks.len() <= usize::MAX,
        distinct_indices(blocks),
    ensures
        ascending(by_index(blocks)),
        same_blocks(by_index(blocks), blocks),
{
    let keys = indices_of(blocks);
    let order = stable_order_of(keys);
    let sorted = by_index(blocks);
    lemma_stable_order_exists(keys);
    assert(is_stable_order(keys, order));
    assert forall|i: int, j: int| 0 <= i < j < sorted.len() implies (#[trigger] sorted[i]).0 < (
    #[trigger] sorted[j]).0 by {
        let p = order[i] as int;
        let q = order[j] as int;
        assert(comes_before(keys, p, q));
        assert(sorted[i] == blocks[p] && sorted[j] == blocks[q]);
        if keys[p] == keys[q] {
            assert(blocks[p].0 != blocks[q].0);
        }
    }
    assert forall|block: (i32, [u8; 32])| #[trigger] sorted.contains(block)
        <==> #[trigger] blocks.contains(block) by {
        if sorted.contains(block) {
            let i = choose|i: int| 0 <= i < sorted.len() && sorted[i] == block;
            assert(blocks[order[i] as int] == block);
        }
        if blocks.contains(block) {
            let p = choose|p: int| 0 <= p < blocks.len() && blocks[p] == block;
            lemma_order_reaches(keys, order, p);
            let i = choose|i: int| 0 <= i < order.len() && #[trigger] order[i] == p;
            assert(sorted[i] == block);
        }
    }
}

/// Ascending listings of the same blocks are equal.
proof fn lemma_ascending_unique(a: Seq<(i32, [u8; 32])>, b: Seq<(i32, [u8; 32])>)
    requires
        ascending(a),
        ascending(b),
        same_blocks(a, b),
    ensures
        a == b,
    decreases a.len(),
{
    if a.len() == 0 {
        if b.len() > 0 {
            assert(b.contains(b[0]));
            assert(a.contains(b[0]));
        }
        assert(a =~= b);
    } else {
        assert(a.contains(a.last()));
        assert(b.contains(a.last()));
        let i = choose|i: int| 0 <= i < b.len() && b[i] == a.last();
        assert(b.contains(b.last()));
        assert(a.contains(b.last()));
        let j = choose|j: int| 0 <= j < a.len() && a[j] == b.last();
        if i < b.len() - 1 {
            assert(b[i].0 < b[b.len() - 1].0);
            if j < a.len() - 1 {
                assert(a[j].0 < a[a.len() - 1].0);
            }
        }
        assert(a.last() == b.last());
        let fa = a.drop_last();
        let fb = b.drop_last();
        assert forall|block: (i32, [u8; 32])| #[trigger] fa.contains(block)
            <==> #[trigger] fb.contains(block) by {
            if fa.contains(block) {
                let k = choose|k: int| 0 <= k < fa.len() && fa[k] == block;
                assert(a[k] == block);
                assert(a.contains(block));
                assert(b.contains(block));
                let m = choose|m: int| 0 <= m < b.len() && b[m] == block;
                assert(a[k].0 < a[a.len() - 1].0);
                assert(m != b.len() - 1);
                assert(fb[m] == block);
            }
            if fb.contains(block) {
                let k = choose|k: int| 0 <= k < fb.len() && fb[k] == block;
                assert(b[k] == block);
                assert(b.contains(block));
                assert(a.contains(block));
                let m = choose|m: int| 0 <= m < a.len() && a[m] == block;
                assert(b[k].0 < b[b.len() - 1].0);
                assert(m != a.len() - 1);
                assert(fa[m] == block);
            }
        }
        lemma_ascending_unique(fa, fb);
        assert(a =~= fa.push(a.last()));
        assert(b =~= fb.push(b.last()));
    }
}

/// The manifest does not depend on the order in which blocks reached storage.
pub proof fn law_manifest_ignores_storage_order(
    thumbnails: Seq<[u8; 32]>,
    a: Seq<(i32, [u8; 32])>,
    b: Seq<(i32, [u8; 32])>,
)
    requires
        a.len() <= usize::MAX,
        b.len() <= usize::MAX,
        distinct_indices(a),
        distinct_indices(b),
        same_blocks(a, b),
    ensures
        manifest_of(thumbnails, a) == manifest_of(thumbnails, b),
{
    lemma_by_index(a);
    lemma_by_index(b);
    let x = by_index(a);
    let y = by_index(b);
    assert forall|block: (i32, [u8; 32])| #[trigger] x.contains(block) <==> #[trigger] y.contains(
        block,
    ) by {
        assert(a.contains(block) <==> b.contains(block));
    }
    lemma_ascending_unique(x, y);
}

/// Blocks that were stored in order stand in the manifest in that order.
pub proof fn law_ordered_blocks_keep_their_order(
    thumbnails: Seq<[u8; 32]>,
    blocks: Seq<(i32, [u8; 32])>,
)
    requires
        blocks.len() <= usize::MAX,
        ascending(blocks),
    ensures
        manifest_of(thumbnails, blocks) == joined_digests(thumbnails) + joined_digests(
            digests_of_blocks(blocks),
        ),
{
    assert(distinct_indices(blocks));
    lemma_by_index(blocks);
    lemma_ascending_unique(by_index(blocks), blocks);
}

/// Whether the thumbnails carry the digests, in base64.
pub open spec fn carry_digests(thumbnails: Seq<ThumbnailDto>, digests: Seq<[u8; 32]>) -> bool {
    &&& thumbnails.len() == digests.len()
    &&& forall|i: int|
        0 <= i < thumbnails.len() ==> (#[trigger] thumbnails[i]).hash_digest is Some
            && trimmed_text(thumbnails[i].hash_digest->0@) == base64_text(digests[i]@)
}

/// The digests of stored blocks, one after the other.
pub open spec fn stored_digests(ciphertexts: Seq<Seq<u8>>) -> Seq<u8>
    decreases ciphertexts.len(),
{
    if ciphertexts.len() == 0 {
        Seq::empty()
    } else {
        stored_digests(ciphertexts.drop_last()) + sha256_of(ciphertexts.last())
    }
}

proof fn lemma_thumbnail_digests(thumbnails: Seq<ThumbnailDto>, digests: Seq<[u8; 32]>)
    requires
        carry_digests(thumbnails, digests),
    ensures
        digests_of(thumbnails) == joined_digests(digests),
    decreases digests.len(),
{
    if digests.len() > 0 {
        let fewer = thumbnails.drop_last();
        assert forall|i: int| 0 <= i < fewer.len() implies (#[trigger] fewer[i]).hash_digest is Some
            && trimmed_text(fewer[i].hash_digest->0@) == base64_text(digests.drop_last()[i]@) by {
            assert(fewer[i] == thumbnails[i]);
        }
        lemma_thumbnail_digests(fewer, digests.drop_last());
        let text = trimmed_text(thumbnails.last().hash_digest->0@);
        assert(thumbnails[thumbnails.len() - 1] == thumbnails.last());
        assert(base64_text(digests.last()@) == text);
        law_base64_is_injective(base64_data(text), digests.last()@);
    }
}

proof fn lemma_block_digests(ciphertexts: Seq<Seq<u8>>, blocks: Seq<(i32, [u8; 32])>)
    requires
        ciphertexts.len() == blocks.len(),
        forall|i: int|
            0 <= i < blocks.len() ==> (#[trigger] blocks[i]).1@ == sha256_of(ciphertexts[i]),
    ensures
        stored_digests(ciphertexts) == joined_digests(digests_of_blocks(blocks)),
    decreases blocks.len(),
{
    if blocks.len() > 0 {
        let fewer = blocks.drop_last();
        assert forall|i: int| 0 <= i < fewer.len() implies (#[trigger] fewer[i]).1@ == sha256_of(
            ciphertexts.drop_last()[i],
        ) by {
            assert(fewer[i] == blocks[i]);
        }
        lemma_block_digests(ciphertexts.drop_last(), fewer);
        assert(digests_of_blocks(blocks).drop_last() =~= digests_of_blocks(fewer));
        assert(blocks[blocks.len() - 1] == blocks.last());
    }
}

/// A download rebuilds the manifest that the upload signed: the thumbnails' digests
/// by type, and then the digest of each block as it is stored.
pub proof fn law_download_rebuilds_the_manifest(
    thumbnails: Seq<ThumbnailDto>,
    digests: Seq<[u8; 32]>,
    ciphertexts: Seq<Seq<u8>>,
    blocks: Seq<(i32, [u8; 32])>,
)
    requires
        blocks.len() <= usize::MAX,
        carry_digests(by_type(thumbnails), digests),
        ascending(blocks),
        ciphertexts.len() == blocks.len(),
        forall|i: int|
            0 <= i < blocks.len() ==> (#[trigger] blocks[i]).1@ == sha256_of(ciphertexts[i]),
    ensures
        digests_of(by_type(thumbnails)) + stored_digests(ciphertexts) == manifest_of(
            digests,
            blocks,
        ),
{
    lemma_thumbnail_digests(by_type(thumbnails), digests);
    lemma_block_digests(ciphertexts, blocks);
    law_ordered_blocks_keep_their_order(digests, blocks);
}

// ---------------------------------------------------------------------------
// Reading the plaintext
// ---------------------------------------------------------------------------

/// What is known of a plaintext that is being read block by block: the size of each
/// block, the size of all, and a digest.
pub struct PlaintextTally {
    pub block_sizes: Vec<i32>,
    pub total_size: i64,
    pub hasher: sha1::Sha1,
}

/// The sum of block sizes.
pub open spec fn sum_of(sizes: Seq<i32>) -> int
    decreases sizes.len(),
{
    if sizes.len() == 0 {
        0
    } else {
        sum_of(sizes.drop_last()) + sizes.last()
    }
}

impl PlaintextTally {
    /// The plaintext that was read.
    pub open spec fn plaintext(self) -> Seq<u8> {
        sha1_taken(self.hasher)
    }

    /// No block is empty, and the sizes add up.
    pub open spec fn well_formed(self) -> bool {
        &&& self.total_size == self.plaintext().len()
        &&& sum_of(self.block_sizes@) == self.total_size
        &&& forall|i: int|
            0 <= i < self.block_sizes@.len() ==> 0 < (#[trigger] self.block_sizes@[i])
                <= DEFAULT_BLOCK_SIZE
    }

    pub fn new() -> (tally: PlaintextTally)
        ensures
            tally.well_formed(),
            tally.plaintext() == Seq::<u8>::empty(),
            tally.block_sizes@.len() == 0,
    {
        PlaintextTally { block_sizes: Vec::new(), total_size: 0, hasher: sha1_new() }
    }

    /// Takes in the next block and gives its index. Indices count from one.
    pub fn absorb(&mut self, block: &[u8]) -> (index: i32)
        requires
            old(self).well_formed(),
            0 < block@.len() <= DEFAULT_BLOCK_SIZE,
            old(self).total_size + block@.len() <= i64::MAX,
            old(self).block_sizes@.len() < i32::MAX,
        ensures
            final(self).well_formed(),
            final(self).plaintext() == old(self).plaintext() + block@,
            final(self).block_sizes@ == old(self).block_sizes@.push(block@.len() as i32),
            index == final(self).block_sizes@.len(),
    {
        let ghost before = self.block_sizes@;
        sha1_update(&mut self.hasher, block);
        self.total_size = self.total_size + block.len() as i64;
        self.block_sizes.push(block.len() as i32);
        proof {
            assert(self.block_sizes@.drop_last() =~= before);
            assert forall|i: int| 0 <= i < self.block_sizes@.len() implies 0 < (
            #[trigger] self.block_sizes@[i]) <= DEFAULT_BLOCK_SIZE by {
                if i < before.len() {
                    assert(self.block_sizes@[i] == before[i]);
                }
            }
        }
        self.block_sizes.len() as i32
    }

    /// What is recorded once everything was read: the block sizes, the total and the
    /// SHA-1 in hex.
    pub fn finish(self) -> (r: (Vec<i32>, i64, String))
        requires
            self.well_formed(),
        ensures
            r.0 == self.block_sizes,
            r.1 == self.plaintext().len(),
            r.2@ == hex_text(sha1_of(self.plaintext())),
    {
        let digest: Vec<u8> = sha1_finalize(self.hasher);
        let sha1_hex: String = hex_encode(digest.as_slice());
        (self.block_sizes, self.total_size, sha1_hex)
    }
}

// ---------------------------------------------------------------------------
// Encrypted blocks
// ---------------------------------------------------------------------------

/// An encrypted block on its way to storage, with what asks for a place for it.
#[derive(Debug, PartialEq, Eq)]
pub struct PreparedBlock {
    pub ciphertext: Vec<u8>,
    pub digest: [u8; 32],
    pub request: BlockCreationRequest,
}

/// An encrypted thumbnail on its way to storage.
#[derive(Debug, PartialEq, Eq)]
pub struct EncryptedThumbnail {
    pub thumbnail_type: i32,
    pub ciphertext: Vec<u8>,
    pub digest: [u8; 32],
    pub request: ThumbnailCreationRequest,
}

/// The SHA-256 of bytes, as an array.
pub fn sha256_array(data: &[u8]) -> (digest: [u8; 32])
    ensures
        digest@ == sha256_of(data@),
{
    let bytes: Vec<u8> = sha256(data);
    let mut digest: [u8; 32] = [0u8;32];
    let mut i: usize = 0;
    while i < 32
        invariant
            i <= 32,
            bytes@.len() == 32,
            forall|j: int| 0 <= j < i ==> digest@[j] == bytes@[j],
        decreases 32 - i,
    {
        digest[i] = bytes[i];
        i += 1;
    }
    assert(digest@ =~= bytes@);
    digest
}

/// What is stored for a content block, and what asks for a place for it.
pub fn encrypt_content_block(
    index: i32,
    ciphertext: Vec<u8>,
    verification_code: &[u8],
    encrypted_signature: String,
) -> (block: PreparedBlock)
    requires
        ciphertext@.len() <= i32::MAX,
        encodable(verification_code@),
    ensures
        block.ciphertext == ciphertext,
        block.digest@ == sha256_of(ciphertext@),
        block.request.index == index,
        block.request.size == ciphertext@.len(),
        block.request.encrypted_signature == encrypted_signature,
        block.request.hash@ == base64_text(sha256_of(ciphertext@)),
        block.request.verifier.token@ == base64_text(token_of(verification_code@, ciphertext@)),
{
    let digest: [u8; 32] = sha256_array(ciphertext.as_slice());
    prepared_block(index, ciphertext, digest, verification_code, encrypted_signature)
}

/// A content block with the given digest, and what asks for a place for it.
pub fn prepared_block(
    index: i32,
    ciphertext: Vec<u8>,
    digest: [u8; 32],
    verification_code: &[u8],
    encrypted_signature: String,
) -> (block: PreparedBlock)
    requires
        ciphertext@.len() <= i32::MAX,
        encodable(verification_code@),
    ensures
        block.ciphertext == ciphertext,
        block.digest == digest,
        block.request.index == index,
        block.request.size == ciphertext@.len(),
        block.request.encrypted_signature == encrypted_signature,
        block.request.hash@ == base64_text(digest@),
        block.request.verifier.token@ == base64_text(token_of(verification_code@, ciphertext@)),
{
    let token: Vec<u8> = verification_token(verification_code, ciphertext.as_slice());
    let hash: String = base64_encode(digest.as_slice());
    PreparedBlock {
        digest,
        request: BlockCreationRequest {
            index,
            size: ciphertext.len() as i32,
            encrypted_signature,
            hash,
            verifier: BlockVerifier { token: base64_encode(token.as_slice()) },
        },
        ciphertext,
    }
}

/// What is stored for a thumbnail, and what asks for a place for it.
pub fn encrypt_thumbnail_block(thumbnail_type: ThumbnailType, ciphertext: Vec<u8>) -> (thumbnail:
    EncryptedThumbnail)
    requires
        ciphertext@.len() <= i32::MAX,
    ensures
        thumbnail.thumbnail_type == thumbnail_type.wire(),
        thumbnail.ciphertext == ciphertext,
        thumbnail.digest@ == sha256_of(ciphertext@),
        thumbnail.request.size == ciphertext@.len(),
        thumbnail.request.thumbnail_type == thumbnail_type.wire(),
        thumbnail.request.hash@ == base64_text(sha256_of(ciphertext@)),
{
    let digest: [u8; 32] = sha256_array(ciphertext.as_slice());
    prepared_thumbnail(thumbnail_type, ciphertext, digest)
}

/// A thumbnail with the given digest, and what asks for a place for it.
pub fn prepared_thumbnail(
    thumbnail_type: ThumbnailType,
    ciphertext: Vec<u8>,
    digest: [u8; 32],
) -> (thumbnail: EncryptedThumbnail)
    requires
        ciphertext@.len() <= i32::MAX,
    ensures
        thumbnail.thumbnail_type == thumbnail_type.wire(),
        thumbnail.ciphertext == ciphertext,
        thumbnail.digest == digest,
        thumbnail.request.size == ciphertext@.len(),
        thumbnail.request.thumbnail_type == thumbnail_type.wire(),
        thumbnail.request.hash@ == base64_text(digest@),
{
    let hash: String = base64_encode(digest.as_slice());
    let wire: i32 = thumbnail_type.as_i32();
    EncryptedThumbnail {
        thumbnail_type: wire,
        digest,
        request: ThumbnailCreationRequest {
            size: ciphertext.len() as i32,
            thumbnail_type: wire,
            hash,
        },
        ciphertext,
    }
}

/// The sizes of thumbnails.
pub open spec fn wires_of(thumbnails: Seq<Thumbnail>) -> Seq<i32> {
    Seq::new(thumbnails.len(), |i: int| thumbnails[i].thumbnail_type.wire() as i32)
}

/// Whether two thumbnails hold the same.
pub open spec fn is_copy(a: Thumbnail, b: Thumbnail) -> bool {
    a.thumbnail_type == b.thumbnail_type && a.content@ == b.content@
}

/// Thumbnails by size, those of one size in the order they stand in.
pub fn order_thumbnails(thumbnails: Vec<Thumbnail>) -> (r: Vec<Thumbnail>)
    ensures
        r@.len() == thumbnails@.len(),
        forall|i: int|
            0 <= i < r@.len() ==> is_copy(
                #[trigger] r@[i],
                arranged(thumbnails@, stable_order_of(wires_of(thumbnails@)))[i],
            ),
{
    let mut wires: Vec<i32> = Vec::new();
    let mut i: usize = 0;
    while i < thumbnails.len()
        invariant
            i <= thumbnails@.len(),
            wires@ == wires_of(thumbnails@).take(i as int),
        decreases thumbnails@.len() - i,
    {
        wires.push(thumbnails[i].thumbnail_type.as_i32());
        i += 1;
        assert(wires@ =~= wires_of(thumbnails@).take(i as int));
    }
    assert(wires@ =~= wires_of(thumbnails@));
    let order: Vec<usize> = stable_order(&wires);
    let mut out: Vec<Thumbnail> = Vec::new();
    let ghost sorted = arranged(thumbnails@, order@);
    let mut k: usize = 0;
    while k < order.len()
        invariant
            k <= order@.len() == thumbnails@.len(),
            is_stable_order(wires_of(thumbnails@), order@),
            sorted == arranged(thumbnails@, order@),
            out@.len() == k,
            forall|j: int| 0 <= j < k ==> is_copy(#[trigger] out@[j], sorted[j]),
        decreases order@.len() - k,
    {
        out.push(thumbnails[order[k]].clone());
        k += 1;
    }
    out
}

/// The token of a block is the verification code with the first bytes of the ciphertext
/// mixed in. Where the ciphertext is shorter, the code stays as it is.
pub proof fn law_tokens_mix_code_and_ciphertext(code: Seq<u8>, ciphertext: Seq<u8>, i: int)
    requires
        0 <= i < code.len(),
    ensures
        token_of(code, ciphertext).len() == code.len(),
        i < ciphertext.len() ==> token_of(code, ciphertext)[i] == code[i] ^ ciphertext[i],
        i >= ciphertext.len() ==> token_of(code, ciphertext)[i] == code[i],
{
    let c = code[i];
    assert(c ^ 0u8 == c) by (bit_vector);
}

/// Digests are joined one after the other, in order.
pub proof fn law_digests_are_joined_in_order(digests: Seq<[u8; 32]>, ciphertexts: Seq<Seq<u8>>)
    ensures
        joined_digests(digests) == Seq::new(digests.len(), |i: int| digests[i]@).flatten(),
        stored_digests(ciphertexts) == Seq::new(
            ciphertexts.len(),
            |i: int| sha256_of(ciphertexts[i]),
        ).flatten(),
    decreases digests.len() + ciphertexts.len(),
{
    let parts = Seq::new(digests.len(), |i: int| digests[i]@);
    let stored = Seq::new(ciphertexts.len(), |i: int| sha256_of(ciphertexts[i]));
    if digests.len() > 0 {
        let fewer = digests.drop_last();
        law_digests_are_joined_in_order(fewer, ciphertexts);
        let before = Seq::new(fewer.len(), |i: int| fewer[i]@);
        assert(parts =~= before.push(digests.last()@));
        before.lemma_flatten_push(digests.last()@);
    } else if ciphertexts.len() > 0 {
        let fewer = ciphertexts.drop_last();
        law_digests_are_joined_in_order(digests, fewer);
        let before = Seq::new(fewer.len(), |i: int| sha256_of(fewer[i]));
        assert(stored =~= before.push(sha256_of(ciphertexts.last())));
        before.lemma_flatten_push(sha256_of(ciphertexts.last()));
    }
    if ciphertexts.len() == 0 {
        assert(stored_digests(ciphertexts) =~= stored.flatten());
    }
    if digests.len() == 0 {
        assert(joined_digests(digests) =~= parts.flatten());
    }
}

/// The manifest begins with the digests of the thumbnails, and goes on with those of the
/// blocks by index.
pub proof fn law_blocks_are_signed_by_index(
    thumbnails: Seq<[u8; 32]>,
    blocks: Seq<(i32, [u8; 32])>,
    i: int,
    j: int,
)
    requires
        blocks.len() <= usize::MAX,
        0 <= i < j < blocks.len(),
    ensures
        manifest_of(thumbnails, blocks) == joined_digests(thumbnails) + joined_digests(
            Seq::new(blocks.len(), |k: int| by_index(blocks)[k].1),
        ),
        by_index(blocks).len() == blocks.len(),
        by_index(blocks)[i].0 <= by_index(blocks)[j].0,
        blocks.contains(by_index(blocks)[i]),
        blocks.contains(by_index(blocks)[j]),
{
    lemma_stable_order_exists(indices_of(blocks));
    let order = stable_order_of(indices_of(blocks));
    assert(order[i] < blocks.len() && order[j] < blocks.len());
    assert(crate::order::comes_before(indices_of(blocks), order[i] as int, order[j] as int));
    assert(digests_of_blocks(by_index(blocks)) =~= Seq::new(
        blocks.len(),
        |k: int| by_index(blocks)[k].1,
    ));
}

/// The sizes of blocks add up one by one.
pub proof fn law_sizes_add_up(sizes: Seq<i32>, size: i32)
    ensures
        sum_of(Seq::<i32>::empty()) == 0,
        sum_of(sizes.push(size)) == sum_of(sizes) + size,
{
    assert(sizes.push(size).drop_last() =~= sizes);
}

/// Thumbnails are put in order by the number of their type.
pub proof fn law_thumbnails_go_by_type(thumbnails: Seq<Thumbnail>, i: int, j: int)
    requires
        thumbnails.len() <= usize::MAX,
        0 <= i < j < thumbnails.len(),
    ensures
        ({
            let ordered = arranged(thumbnails, stable_order_of(wires_of(thumbnails)));
            &&& ordered.len() == thumbnails.len()
            &&& ordered[i].thumbnail_type.wire() <= ordered[j].thumbnail_type.wire()
            &&& thumbnails.contains(ordered[i])
            &&& thumbnails.contains(ordered[j])
        }),
        is_copy(thumbnails[i], thumbnails[j]) <==> thumbnails[i].thumbnail_type
            == thumbnails[j].thumbnail_type && thumbnails[i].content@ == thumbnails[j].content@,
{
    lemma_stable_order_exists(wires_of(thumbnails));
    let order = stable_order_of(wires_of(thumbnails));
    assert(order[i] < thumbnails.len() && order[j] < thumbnails.len());
    assert(crate::order::comes_before(wires_of(thumbnails), order[i] as int, order[j] as int));
}

} // verus!
