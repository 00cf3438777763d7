use vstd::prelude::*;
use crate::utils::security::entropy::fill_random_prefix;

verus! {

/// Size of the buffer written to the file at a time (64 KiB).
pub const CHUNK_SIZE: usize = 65536;

/// What one overwriting pass writes.
#[derive(Debug, Clone, Copy, PartialEq, Eq, Structural)]
pub enum PassKind {
    /// Zero bytes (`0x00`).
    Zeros,
    /// One bits (`0xFF`).
    Ones,
    /// Cryptographically secure random bytes.
    Random,
}

/// The byte a pass writes everywhere, or `None` for the random pass.
pub open spec fn pass_byte(kind: PassKind) -> Option<u8> {
    match kind {
        PassKind::Zeros => Some(0x00u8),
        PassKind::Ones => Some(0xFFu8),
        PassKind::Random => None,
    }
}

/// The passes of a secure deletion, in order: zeros, ones, random bytes.
pub open spec fn deletion_passes() -> Seq<PassKind> {
    seq![PassKind::Zeros, PassKind::Ones, PassKind::Random]
}

/// The number of chunks that cover `size` bytes.
pub open spec fn chunk_count(size: nat) -> nat {
    ((size + CHUNK_SIZE - 1) / (CHUNK_SIZE as int)) as nat
}

/// The lengths of the chunks that a pass writes over a file of `size` bytes: full chunks,
/// then what remains.
pub open spec fn chunk_plan(size: nat) -> Seq<usize> {
    Seq::new(
        chunk_count(size),
        |k: int|
            if size - k * CHUNK_SIZE >= CHUNK_SIZE {
                CHUNK_SIZE
            } else {
                (size - k * CHUNK_SIZE) as usize
            },
    )
}

/// The sum of a list of lengths.
pub open spec fn total(s: Seq<usize>) -> nat
    decreases s.len(),
{
    if s.len() == 0 {
        0
    } else {
        total(s.drop_last()) + s.last() as nat
    }
}

impl PassKind {
    /// The byte this pass writes everywhere, or `None` for the random pass.
    pub fn fill_byte(self) -> (r: Option<u8>)
        ensures
            r == pass_byte(self),
    {
        match self {
            PassKind::Zeros => Some(0x00u8),
            PassKind::Ones => Some(0xFFu8),
            PassKind::Random => None,
        }
    }
}

/// The passes of a secure deletion, in order: zeros, ones, random bytes.
pub fn overwrite_passes() -> (passes: Vec<PassKind>)
    ensures
        passes@ == deletion_passes(),
{
    let passes: Vec<PassKind> = vec![PassKind::Zeros, PassKind::Ones, PassKind::Random];
    assert(passes@ =~= deletion_passes());
    passes
}

/// The length of the next chunk to write when `written` of `size` bytes are done.
pub fn next_chunk(size: usize, written: usize) -> (chunk: usize)
    requires
        written < size,
    ensures
        chunk == if size - written < CHUNK_SIZE {
            (size - written) as usize
        } else {
            CHUNK_SIZE
        },
{
    let rest: usize = size - written;
    if rest < CHUNK_SIZE {
        rest
    } else {
        CHUNK_SIZE
    }
}

/// The chunk lengths of one pass over `size` bytes, in the order they are written. Each
/// is positive and at most `CHUNK_SIZE`, and together they cover exactly `size` bytes.
pub fn chunk_lengths(size: usize) -> (chunks: Vec<usize>)
    ensures
        chunks@ == chunk_plan(size as nat),
        total(chunks@) == size,
        forall|k: int| 0 <= k < chunks@.len() ==> 0 < #[trigger] chunks@[k] <= CHUNK_SIZE,
{
    let mut chunks: Vec<usize> = Vec::new();
    let mut written: usize = 0;
    while written < size
        invariant
            written <= size,
            written as int == chunks@.len() * CHUNK_SIZE || written == size,
            total(chunks@) == written,
            chunks@.len() == chunk_count(written as nat),
            written < size ==> written as int == chunks@.len() * CHUNK_SIZE,
            forall|k: int| 0 <= k < chunks@.len() ==> #[trigger] chunks@[k] == chunk_plan(size as nat)[k],
            forall|k: int| 0 <= k < chunks@.len() ==> 0 < #[trigger] chunks@[k] <= CHUNK_SIZE,
        decreases size - written,
    {
        let chunk: usize = next_chunk(size, written);
        let ghost before = chunks@;
        chunks.push(chunk);
        assert(chunks@.drop_last() =~= before);
        written = written + chunk;
    }
    assert(chunks@ =~= chunk_plan(size as nat));
    chunks
}

/// Fills the first `chunk` bytes of `buf` for a pass of kind `kind`: with its byte, or with
/// random bytes. The length of `buf` and the bytes after the chunk stay.
pub fn prepare_chunk(buf: &mut Vec<u8>, chunk: usize, kind: PassKind)
    requires
        chunk <= old(buf)@.len(),
    ensures
        final(buf)@.len() == old(buf)@.len(),
        final(buf)@.skip(chunk as int) == old(buf)@.skip(chunk as int),
        pass_byte(kind) matches Some(b) ==> forall|k: int| 0 <= k < chunk ==> #[trigger] final(buf)@[k] == b,
{
    match kind.fill_byte() {
        Some(b) => {
            let mut i: usize = 0;
            while i < chunk
                invariant
                    chunk <= buf@.len(),
                    buf@.len() == old(buf)@.len(),
                    i <= chunk,
                    buf@.skip(chunk as int) == old(buf)@.skip(chunk as int),
                    forall|k: int| 0 <= k < i ==> #[trigger] buf@[k] == b,
                decreases chunk - i,
            {
                buf.set(i, b);
                i = i + 1;
                assert(buf@.skip(chunk as int) =~= old(buf)@.skip(chunk as int));
            }
        },
        None => {
            fill_random_prefix(buf, chunk);
        },
    }
}

/// A secure deletion writes three passes: zero bytes, then `0xFF` bytes, then random bytes.
pub proof fn lemma_deletion_passes()
    ensures
        deletion_passes().len() == 3,
        pass_byte(deletion_passes()[0]) == Some(0x00u8),
        pass_byte(deletion_passes()[1]) == Some(0xFFu8),
        pass_byte(deletion_passes()[2]) is None,
{
}

/// A pass over `size` bytes writes chunks of 64 KiB, except a last, shorter but non-empty
/// one when `size` is not a multiple of 64 KiB; the chunks add up to `size`.
pub proof fn lemma_chunk_plan(size: nat)
    ensures
        chunk_plan(size).len() == (size + 65535) / 65536,
        forall|k: int| 0 <= k < chunk_plan(size).len() - 1 ==> #[trigger] chunk_plan(size)[k] == 65536,
        chunk_plan(size).len() > 0 ==> ({
            let last = chunk_plan(size)[chunk_plan(size).len() - 1];
            0 < last <= 65536 && last as int == size - 65536 * (chunk_plan(size).len() - 1)
        }),
{
    let n = chunk_plan(size).len() as int;
    assert forall|k: int| 0 <= k < n - 1 implies #[trigger] chunk_plan(size)[k] == 65536 by {
        assert(k * 65536 + 65536 <= (n - 1) * 65536) by (nonlinear_arith)
            requires
                k < n - 1,
        ;
        assert((n - 1) * 65536 + 65536 <= size + 65535) by (nonlinear_arith)
            requires
                n == (size + 65535) / 65536,
        ;
    }
    if n > 0 {
        assert((n - 1) * 65536 < size) by (nonlinear_arith)
            requires
                n == (size + 65535) / 65536,
                n > 0,
        ;
        assert(size <= n * 65536) by (nonlinear_arith)
            requires
                n == (size + 65535) / 65536,
        ;
    }
}

} // verus!
