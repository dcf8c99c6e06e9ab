//! The memo side-file: a block-structured auxiliary file holding
//! variable-length text referenced from 4-byte pointers in table records.
//!
//! Block 0 is the memo file's own header block and is never returned as
//! content.  The block size comes from the header (a big-endian 16-bit
//! value at offset 6), defaulting to 512 when absent or zero.  A resolved
//! block's content runs from the block's start to the first terminator
//! byte `0x1A` or the end of the buffer.
use vstd::prelude::*;

use crate::bytes::be16;
use crate::error::MemoError;

verus! {

/// The default and fallback memo block size in bytes.
pub open spec fn default_block_size() -> int {
    512
}

/// The block size the memo buffer declares, with the default fallback.
pub open spec fn spec_block_size(d: Seq<u8>) -> int {
    if d.len() >= 8 && be16(d, 6) > 0 {
        be16(d, 6)
    } else {
        default_block_size()
    }
}

/// First index at or after `i` holding the terminator byte `0x1A`, or the
/// end of the buffer.
pub open spec fn term_end(d: Seq<u8>, i: int) -> int
    decreases d.len() - i,
{
    if i < 0 || i >= d.len() {
        d.len() as int
    } else if d[i] == 26 {
        i
    } else {
        term_end(d, i + 1)
    }
}

/// What resolving block `idx` against the memo bytes `m` yields: the
/// content run of the block, or the error that stops it.
pub open spec fn spec_resolve(m: Option<Seq<u8>>, idx: int) -> Result<Seq<u8>, MemoError> {
    match m {
        None => Err(MemoError::MissingMemoFile),
        Some(d) => {
            if idx <= 0 {
                Err(MemoError::BlockOutOfRange)
            } else {
                let off = idx * spec_block_size(d);
                if off >= d.len() {
                    Err(MemoError::BlockOutOfRange)
                } else {
                    Ok(d.subrange(off, term_end(d, off)))
                }
            }
        },
    }
}

/// An opened (possibly absent) memo side-file.
#[derive(Debug)]
pub struct MemoStore {
    /// The raw memo buffer, when one was supplied.
    pub data: Option<Vec<u8>>,
}

impl View for MemoStore {
    type V = Option<Seq<u8>>;

    open spec fn view(&self) -> Option<Seq<u8>> {
        match self.data {
            None => None,
            Some(v) => Some(v@),
        }
    }
}

impl MemoStore {
    /// Opens a store over the supplied memo bytes, or an empty store when
    /// none were supplied.
    pub fn open(memo_bytes: Option<Vec<u8>>) -> (r: MemoStore)
        ensures
            r@ == opt_bytes_view(memo_bytes),
    {
        MemoStore { data: memo_bytes }
    }

    /// Resolves a block reference to the raw content bytes of its block
    /// run, exactly as `spec_resolve` describes.
    pub fn resolve(&self, block_index: u32) -> (r: Result<Vec<u8>, MemoError>)
        ensures
            match r {
                Ok(v) => spec_resolve(self@, block_index as int) == Ok::<Seq<u8>, MemoError>(v@),
                Err(e) => spec_resolve(self@, block_index as int) == Err::<Seq<u8>, MemoError>(e),
            },
    {
        let d: &Vec<u8> = match &self.data {
            None => {
                return Err(MemoError::MissingMemoFile);
            },
            Some(d) => d,
        };
        if block_index == 0 {
            return Err(MemoError::BlockOutOfRange);
        }
        let s: &[u8] = d.as_slice();
        let len = s.len();
        let bs: u64 = if len >= 8 {
            let declared = crate::bytes::read_be16(s, 6);
            if declared > 0 {
                declared as u64
            } else {
                512
            }
        } else {
            512
        };
        proof {
            assert(bs == spec_block_size(s@));
            assert((block_index as u64) * bs <= 0xFFFFFFFFu64 * 0xFFFFu64) by (nonlinear_arith)
                requires
                    block_index as u64 <= 0xFFFFFFFFu64,
                    0 < bs <= 0xFFFFu64,
            ;
        }
        let off64: u64 = (block_index as u64) * bs;
        if off64 >= len as u64 {
            return Err(MemoError::BlockOutOfRange);
        }
        let off: usize = off64 as usize;
        let mut out: Vec<u8> = Vec::new();
        let mut j: usize = off;
        while j < len && s[j] != 26
            invariant
                off <= j <= len,
                len == s@.len(),
                out@ == s@.subrange(off as int, j as int),
                term_end(s@, off as int) == term_end(s@, j as int),
            decreases len - j,
        {
            out.push(s[j]);
            j = j + 1;
            proof {
                assert(out@ =~= s@.subrange(off as int, j as int));
            }
        }
        proof {
            assert(term_end(s@, j as int) == j);
            assert(out@ == s@.subrange(off as int, term_end(s@, off as int)));
        }
        Ok(out)
    }
}

/// The view of optionally supplied raw bytes.
pub open spec fn opt_bytes_view(m: Option<Vec<u8>>) -> Option<Seq<u8>> {
    match m {
        None => None,
        Some(v) => Some(v@),
    }
}

} // verus!
