//! Byte sources whose metadata pages pass through a decryptor.
use vstd::prelude::*;

use crate::error::{Error, IoError, IoErrorKind};
use crate::source::ReadAt;

verus! {

/// Pages are decrypted 4 KiB at a time, at 4 KiB-aligned addresses.
pub const PAGE_SIZE: u64 = 0x1000;

/// Decrypts pages of filesystem metadata.
pub trait MetadataCrypto {
    /// What decrypting `page`, which starts at byte `page_addr`, yields.
    spec fn decrypted(&self, page_addr: u64, page: Seq<u8>) -> Seq<u8>;

    fn decrypt_page(&self, page: &mut Vec<u8>, page_addr: u64) -> (r: Result<(), Error>)
        ensures
            final(page)@.len() == old(page)@.len(),
            r is Ok ==> final(page)@ == self.decrypted(page_addr, old(page)@),
    ;
}

/// The decryptor for filesystems that are not encrypted: it changes nothing.
#[derive(Clone, Copy, Debug, PartialEq, Eq, Structural)]
pub struct NoneCrypto {}

impl MetadataCrypto for NoneCrypto {
    open spec fn decrypted(&self, page_addr: u64, page: Seq<u8>) -> Seq<u8> {
        page
    }

    fn decrypt_page(&self, page: &mut Vec<u8>, page_addr: u64) -> (r: Result<(), Error>) {
        Ok(())
    }
}

/// The page of `disk` at `a`, with zeros past the end of the disk.
pub open spec fn padded_page(disk: Seq<u8>, a: int) -> Seq<u8> {
    Seq::new(PAGE_SIZE as nat, |k: int| if a + k < disk.len() { disk[a + k] } else { 0u8 })
}

/// A byte source that decrypts the pages of another.
#[derive(Debug)]
pub struct InnerReader<R, M> {
    pub inner: R,
    pub metadata_crypto: M,
}

impl<R: ReadAt, M: MetadataCrypto> InnerReader<R, M> {
    pub fn new(inner: R, metadata_crypto: M) -> (r: InnerReader<R, M>)
        ensures
            r.inner == inner,
            r.metadata_crypto == metadata_crypto,
    {
        InnerReader { inner, metadata_crypto }
    }

    /// Read from the underlying source, without decrypting.
    pub fn read_at_without_decrypt(&self, pos: u64, len: usize) -> (r: Result<Vec<u8>, IoError>)
        ensures
            r matches Ok(v) ==> {
                &&& v@.len() <= len
                &&& v@.len() > 0 ==> pos + v@.len() <= self.inner.contents().len()
                    && v@ == self.inner.contents().subrange(pos as int, pos + v@.len())
                &&& v@.len() == 0 ==> len == 0 || pos >= self.inner.contents().len()
            },
    {
        self.inner.read_at(pos, len)
    }

    /// The raw page at `a`, padded with zeros, and how many of its bytes the
    /// source holds.
    fn read_page(&self, a: u64) -> (r: Result<(Vec<u8>, usize), IoError>)
        requires
            a + PAGE_SIZE <= u64::MAX,
        ensures
            r matches Ok((page, got)) ==> {
                &&& page@ == padded_page(self.inner.contents(), a as int)
                &&& got <= PAGE_SIZE
                &&& got > 0 ==> a + got <= self.inner.contents().len()
                &&& got < PAGE_SIZE ==> a + got >= self.inner.contents().len()
            },
    {
        let ghost disk = self.inner.contents();
        let mut page: Vec<u8> = Vec::new();
        let mut at_end = false;
        while page.len() < PAGE_SIZE as usize && !at_end
            invariant
                page@.len() <= PAGE_SIZE,
                a + page@.len() <= disk.len() || page@.len() == 0,
                forall|k: int| 0 <= k < page@.len() ==> page@[k] == disk[a + k],
                at_end ==> a + page@.len() >= disk.len(),
                disk == self.inner.contents(),
                a + PAGE_SIZE <= u64::MAX,
            decreases PAGE_SIZE - page@.len(), (if at_end { 0int } else { 1int }),
        {
            let here = page.len();
            let chunk = self.inner.read_at(a + here as u64, PAGE_SIZE as usize - here)?;
            if chunk.len() == 0 {
                at_end = true;
            } else {
                let mut i: usize = 0;
                while i < chunk.len()
                    invariant
                        page@.len() == here + i,
                        i <= chunk@.len(),
                        here + chunk@.len() <= PAGE_SIZE,
                        a + here + chunk@.len() <= disk.len(),
                        chunk@ == disk.subrange(a + here, a + here + chunk@.len()),
                        forall|k: int| 0 <= k < page@.len() ==> page@[k] == disk[a + k],
                    decreases chunk@.len() - i,
                {
                    page.push(chunk[i]);
                    i += 1;
                }
            }
        }
        let got = page.len();
        while page.len() < PAGE_SIZE as usize
            invariant
                got <= page@.len() <= PAGE_SIZE,
                got < PAGE_SIZE ==> a + got >= disk.len(),
                a + got <= disk.len() || got == 0,
                forall|k: int| 0 <= k < got ==> page@[k] == disk[a + k],
                forall|k: int| got <= k < page@.len() ==> page@[k] == 0,
            decreases PAGE_SIZE - page@.len(),
        {
            page.push(0);
        }
        assert(page@ =~= padded_page(disk, a as int));
        Ok((page, got))
    }
}

impl<R: ReadAt, M: MetadataCrypto> ReadAt for InnerReader<R, M> {
    /// Each byte is the matching byte of its decrypted page.
    open spec fn contents(&self) -> Seq<u8> {
        let disk = self.inner.contents();
        Seq::new(
            disk.len(),
            |i: int|
                self.metadata_crypto.decrypted(
                    (i - i % PAGE_SIZE as int) as u64,
                    padded_page(disk, i - i % PAGE_SIZE as int),
                )[i % PAGE_SIZE as int],
        )
    }

    fn read_at(&self, pos: u64, len: usize) -> (r: Result<Vec<u8>, IoError>) {
        if len == 0 {
            return Ok(Vec::new());
        }
        let within = pos % PAGE_SIZE;
        let a = pos - within;
        if a > u64::MAX - PAGE_SIZE {
            return Err(IoError { kind: IoErrorKind::Other, message: "position out of range".to_owned() });
        }
        let (mut page, got) = self.read_page(a)?;
        let ghost plain = page@;
        if self.metadata_crypto.decrypt_page(&mut page, a).is_err() {
            return Err(IoError { kind: IoErrorKind::Other, message: "page failed to decrypt".to_owned() });
        }
        let mut out: Vec<u8> = Vec::new();
        if got as u64 <= within {
            return Ok(out);
        }
        let avail = got - within as usize;
        let n = if len < avail { len } else { avail };
        let start = within as usize;
        let mut k: usize = 0;
        while k < n
            invariant
                k <= n,
                start + n <= got <= PAGE_SIZE,
                page@.len() == PAGE_SIZE,
                out@.len() == k,
                forall|j: int| 0 <= j < k ==> out@[j] == page@[start + j],
            decreases n - k,
        {
            out.push(page[start + k]);
            k += 1;
        }
        proof {
            let disk = self.inner.contents();
            let (ai, si, pi) = (a as int, start as int, pos as int);
            assert(ai % 0x1000 == 0) by (nonlinear_arith)
                requires
                    ai == pi - pi % 0x1000,
                    pi >= 0,
            ;
            assert forall|j: int| 0 <= j < out@.len() implies out@[j] == self.contents()[pos + j] by {
                let i = pi + j;
                assert(i % 0x1000 == si + j && i - i % 0x1000 == ai) by (nonlinear_arith)
                    requires
                        i == pi + j,
                        pi == ai + si,
                        ai % 0x1000 == 0,
                        0 <= si + j < 0x1000,
                        ai >= 0,
                ;
            }
            assert(out@ =~= self.contents().subrange(pos as int, pos + out@.len()));
        }
        Ok(out)
    }
}

} // verus!
