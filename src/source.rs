//! Positioned byte sources.
use vstd::prelude::*;

use crate::error::{assumption_failed, unexpected_eof, Error, IoError};

verus! {

/// A source of bytes addressed by absolute position, with no cursor.
pub trait ReadAt {
    /// The bytes the source holds.
    spec fn contents(&self) -> Seq<u8>;

    /// Read at most `len` bytes starting at `pos`. Fewer may come back;
    /// none come back only when `len` is zero or `pos` is past the end.
    fn read_at(&self, pos: u64, len: usize) -> (r: Result<Vec<u8>, IoError>)
        ensures
            r matches Ok(v) ==> {
                &&& v@.len() <= len
                &&& v@.len() > 0 ==> pos + v@.len() <= self.contents().len()
                    && v@ == self.contents().subrange(pos as int, pos + v@.len())
                &&& v@.len() == 0 ==> len == 0 || pos >= self.contents().len()
            },
    ;
}

impl ReadAt for Vec<u8> {
    open spec fn contents(&self) -> Seq<u8> {
        self@
    }

    fn read_at(&self, pos: u64, len: usize) -> (r: Result<Vec<u8>, IoError>) {
        let mut out: Vec<u8> = Vec::new();
        if pos >= self.len() as u64 {
            return Ok(out);
        }
        let start = pos as usize;
        let end = if len <= self.len() - start { start + len } else { self.len() };
        let mut i = start;
        while i < end
            invariant
                start <= i <= end <= self@.len(),
                start == pos,
                out@ == self@.subrange(start as int, i as int),
            decreases end - i,
        {
            out.push(self[i]);
            i += 1;
            assert(out@ =~= self@.subrange(start as int, i as int));
        }
        Ok(out)
    }
}

impl<'a, R: ReadAt> ReadAt for &'a R {
    open spec fn contents(&self) -> Seq<u8> {
        (**self).contents()
    }

    fn read_at(&self, pos: u64, len: usize) -> (r: Result<Vec<u8>, IoError>) {
        (**self).read_at(pos, len)
    }
}

/// Read exactly `len` bytes starting at `pos`, failing with an unexpected
/// end of file when the source holds fewer.
pub fn read_exact_at<R: ReadAt>(source: &R, pos: u64, len: usize) -> (r: Result<Vec<u8>, Error>)
    ensures
        r matches Ok(v) ==> v@.len() == len && (len > 0 ==> pos + len <= source.contents().len()
            && v@ == source.contents().subrange(pos as int, pos + len)),
        r matches Err(e) ==> e.is_io(),
{
    let mut out: Vec<u8> = Vec::new();
    while out.len() < len
        invariant
            out@.len() <= len,
            out@.len() > 0 ==> pos + out@.len() <= source.contents().len()
                && out@ == source.contents().subrange(pos as int, pos + out@.len()),
        decreases len - out@.len(),
    {
        let here = out.len();
        if pos as u128 + here as u128 > u64::MAX as u128 {
            return Err(unexpected_eof());
        }
        let chunk = match source.read_at(pos + here as u64, len - here) {
            Ok(c) => c,
            Err(e) => return Err(Error::Io(e)),
        };
        if chunk.len() == 0 {
            return Err(unexpected_eof());
        }
        let mut i: usize = 0;
        while i < chunk.len()
            invariant
                out@.len() == here + i,
                i <= chunk@.len(),
                here + chunk@.len() <= len,
                here > 0 ==> pos + here <= source.contents().len(),
                pos + here + chunk@.len() <= source.contents().len(),
                chunk@ == source.contents().subrange(pos + here, pos + here + chunk@.len()),
                out@ == source.contents().subrange(pos as int, pos + here) + chunk@.subrange(0, i as int),
            decreases chunk@.len() - i,
        {
            out.push(chunk[i]);
            i += 1;
            assert(out@ =~= source.contents().subrange(pos as int, pos + here) + chunk@.subrange(0, i as int));
        }
        assert(out@ =~= source.contents().subrange(pos as int, pos + out@.len()));
    }
    Ok(out)
}

/// The bytes of block `block`, in blocks of `block_size` bytes.
pub fn load_disc_bytes<R: ReadAt>(inner: &R, block_size: u32, block: u64) -> (r: Result<Vec<u8>, Error>)
    ensures
        r is Ok ==> block * block_size <= u64::MAX,
        r matches Ok(v) ==> v@.len() == block_size && (block_size > 0 ==> block * block_size
            + block_size <= inner.contents().len() && v@ == inner.contents().subrange(
            block * block_size,
            block * block_size + block_size,
        )),
        r matches Err(e) ==> e.is_io() || e.is_assumption_failed(),
        r matches Err(e) && !e.is_io() ==> block * block_size > u64::MAX,
{
    let offset = match block.checked_mul(block_size as u64) {
        Some(o) => o,
        None => return Err(assumption_failed("block lies beyond the addressable range")),
    };
    read_exact_at(inner, offset, block_size as usize)
}

} // verus!
