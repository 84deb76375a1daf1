//! Content hashing: a 64-bit digest of a file's bytes.
//!
//! The digest of a run of bytes is computed by xxHash. A file is hashed
//! block by block: the digest of no bytes at the start, then each block of
//! [`BLOCK`] bytes folded in behind the digest so far, and what is left at
//! the end as a last, shorter block. The blocks are cut here, so the hash of
//! a file depends on its bytes and not on the pieces they were read in.

use vstd::prelude::*;
use vstd::bytes::{spec_u64_to_le_bytes, u64_to_le_bytes};
use vstd::slice::slice_subrange;
use crate::text::{hex16, hex_digits, is_lower_hex, lemma_hex_digits_form};

verus! {

/// The number of bytes in a block.
pub const BLOCK: usize = 8192;

/// What `xxhash_rust::xxh3::xxh3_64` returns for the bytes `input`.
pub uninterp spec fn xxh3_64_of(input: Seq<u8>) -> u64;

/// Calls `xxhash_rust::xxh3::xxh3_64` on `input`. The contract claims only
/// that the result is the one named [`xxh3_64_of`].
#[verifier::external_body]
fn xxh3_64(input: &[u8]) -> (digest: u64)
    ensures
        digest == xxh3_64_of(input@),
{
    xxhash_rust::xxh3::xxh3_64(input)
}

/// The digest of `data` behind the eight bytes of `seed`, low byte first.
pub open spec fn seeded(data: Seq<u8>, seed: u64) -> u64 {
    xxh3_64_of(spec_u64_to_le_bytes(seed) + data)
}

/// The block of `content` at `index`, counted from zero.
pub open spec fn block_at(content: Seq<u8>, index: int) -> Seq<u8> {
    content.subrange(index * BLOCK, index * BLOCK + BLOCK)
}

/// The running digest after the first `blocks` full blocks of `content`.
pub open spec fn folded(content: Seq<u8>, blocks: nat) -> u64
    decreases blocks,
{
    if blocks == 0 {
        xxh3_64_of(Seq::empty())
    } else {
        seeded(block_at(content, blocks - 1), folded(content, (blocks - 1) as nat))
    }
}

/// The digest of `content`: every full block folded in, and then what is
/// left behind the last full block, if anything is.
pub open spec fn digest_of(content: Seq<u8>) -> u64 {
    let full = (content.len() / BLOCK as nat) as nat;
    let rest = content.skip(full * BLOCK);
    if rest.len() == 0 {
        folded(content, full)
    } else {
        seeded(rest, folded(content, full))
    }
}

/// The hash of a file with the bytes `content`, as it is written into a
/// record.
pub open spec fn content_hash(content: Seq<u8>) -> Seq<char> {
    hex_digits(digest_of(content) as nat, 16)
}

/// The bytes of the first `count` of `chunks`, one chunk behind the other.
pub open spec fn all_bytes(chunks: Seq<Vec<u8>>, count: nat) -> Seq<u8>
    decreases count,
{
    if count == 0 {
        Seq::empty()
    } else {
        all_bytes(chunks, (count - 1) as nat) + chunks[count - 1]@
    }
}

/// The same bytes give the same hash, however they are split into chunks.
pub proof fn lemma_same_content_same_hash(first: Seq<Vec<u8>>, second: Seq<Vec<u8>>)
    requires
        all_bytes(first, first.len()) == all_bytes(second, second.len()),
    ensures
        content_hash(all_bytes(first, first.len())) == content_hash(
            all_bytes(second, second.len()),
        ),
{
}

/// A hash is sixteen hexadecimal digits in lower case, whatever the content.
pub proof fn lemma_hash_is_sixteen_hex_digits(content: Seq<u8>)
    ensures
        content_hash(content).len() == 16,
        forall|i: int| 0 <= i < 16 ==> is_lower_hex(#[trigger] content_hash(content)[i]),
{
    lemma_hex_digits_form(digest_of(content) as nat, 16);
}

/// The digest over full blocks looks at those blocks only: bytes that come
/// behind them have no part in it.
proof fn lemma_folded_prefix(content: Seq<u8>, more: Seq<u8>, blocks: nat)
    requires
        blocks * BLOCK <= content.len(),
    ensures
        folded(content + more, blocks) == folded(content, blocks),
    decreases blocks,
{
    if blocks > 0 {
        lemma_folded_prefix(content, more, (blocks - 1) as nat);
        assert(block_at(content + more, blocks - 1) =~= block_at(content, blocks - 1));
    }
}

/// The running digest before any byte was read.
pub fn initial_digest() -> (digest: u64)
    ensures
        digest == digest_of(Seq::empty()),
{
    let nothing: Vec<u8> = Vec::new();
    xxh3_64(nothing.as_slice())
}

/// Folds one run of bytes into the running digest `seed`.
pub fn xxh3_64_with_seed(data: &[u8], seed: u64) -> (digest: u64)
    ensures
        digest == seeded(data@, seed),
{
    let mut bytes = u64_to_le_bytes(seed);
    bytes.extend_from_slice(data);
    assert(bytes@ =~= spec_u64_to_le_bytes(seed) + data@);
    xxh3_64(bytes.as_slice())
}

/// Writes a digest as it stands in a record: sixteen hexadecimal digits.
pub fn digest_text(digest: u64) -> (text: String)
    ensures
        text@ == hex_digits(digest as nat, 16),
{
    hex16(digest)
}

/// A file that is being hashed. It takes the bytes in whatever pieces they
/// are read, and cuts the blocks itself.
pub struct ContentHasher {
    digest: u64,
    pending: Vec<u8>,
    blocks: Ghost<nat>,
    content: Ghost<Seq<u8>>,
}

impl View for ContentHasher {
    type V = Seq<u8>;

    /// The bytes taken in so far.
    closed spec fn view(&self) -> Seq<u8> {
        self.content@
    }
}

/// `digest` and `pending` stand for `content`: `blocks` full blocks are folded
/// into the digest, and what comes behind them is pending.
spec fn stands_for(digest: u64, pending: Seq<u8>, blocks: nat, content: Seq<u8>) -> bool {
    &&& pending.len() < BLOCK
    &&& content.len() == blocks * BLOCK + pending.len()
    &&& content.skip(blocks * BLOCK) == pending
    &&& digest == folded(content, blocks)
}

impl ContentHasher {
    #[verifier::type_invariant]
    spec fn well_formed(self) -> bool {
        stands_for(self.digest, self.pending@, self.blocks@, self.content@)
    }

    /// A hasher that has taken in nothing.
    pub fn new() -> (hasher: Self)
        ensures
            hasher@ == Seq::<u8>::empty(),
    {
        let digest = initial_digest();
        let pending: Vec<u8> = Vec::new();
        proof {
            let nothing = Seq::<u8>::empty();
            assert(nothing.skip(0) =~= pending@);
            assert(digest == folded(nothing, 0));
        }
        ContentHasher {
            digest: digest,
            pending: pending,
            blocks: Ghost(0),
            content: Ghost(Seq::empty()),
        }
    }

    /// Takes in the next bytes of the file.
    pub fn update(self, bytes: &[u8]) -> (next: Self)
        ensures
            next@ == self@ + bytes@,
    {
        proof {
            use_type_invariant(&self);
        }
        let ghost before = self.content@;
        let ghost mut blocks = self.blocks@;
        let mut digest = self.digest;
        let mut pending = self.pending;
        let mut taken: usize = 0;
        assert(before + bytes@.take(0) =~= before);
        while taken < bytes.len()
            invariant
                taken <= bytes@.len(),
                stands_for(digest, pending@, blocks, before + bytes@.take(taken as int)),
            decreases bytes@.len() - taken,
        {
            let ghost content = before + bytes@.take(taken as int);
            let ghost held = pending@;
            let room = BLOCK - pending.len();
            let left = bytes.len() - taken;
            let step = if left < room {
                left
            } else {
                room
            };
            let piece = slice_subrange(bytes, taken, taken + step);
            pending.extend_from_slice(piece);
            taken = taken + step;
            proof {
                let grown = before + bytes@.take(taken as int);
                assert(pending@ =~= held + piece@);
                assert(grown =~= content + piece@);
                lemma_folded_prefix(content, piece@, blocks);
                assert(grown.skip(blocks * BLOCK) =~= pending@);
            }
            if pending.len() == BLOCK {
                digest = xxh3_64_with_seed(pending.as_slice(), digest);
                proof {
                    let grown = before + bytes@.take(taken as int);
                    assert(block_at(grown, blocks as int) =~= pending@);
                    blocks = blocks + 1;
                    assert(grown.skip(blocks * BLOCK) =~= Seq::<u8>::empty());
                }
                pending.clear();
            }
        }
        assert(bytes@.take(taken as int) =~= bytes@);
        ContentHasher {
            digest: digest,
            pending: pending,
            blocks: Ghost(blocks),
            content: Ghost(before + bytes@),
        }
    }

    /// Ends the file and hands out its digest.
    pub fn finish(self) -> (digest: u64)
        ensures
            digest == digest_of(self@),
    {
        proof {
            use_type_invariant(&self);
            assert(self.content@.len() / BLOCK as nat == self.blocks@);
        }
        if self.pending.len() == 0 {
            self.digest
        } else {
            xxh3_64_with_seed(self.pending.as_slice(), self.digest)
        }
    }
}

/// Hashes a file that was read as `chunks`, in their order.
pub fn hash_file(chunks: &Vec<Vec<u8>>) -> (hash: String)
    ensures
        hash@ == content_hash(all_bytes(chunks@, chunks@.len())),
{
    let mut hasher = ContentHasher::new();
    let mut read: usize = 0;
    while read < chunks.len()
        invariant
            read <= chunks@.len(),
            hasher@ == all_bytes(chunks@, read as nat),
        decreases chunks@.len() - read,
    {
        hasher = hasher.update(chunks[read].as_slice());
        read = read + 1;
    }
    digest_text(hasher.finish())
}

} // verus!
