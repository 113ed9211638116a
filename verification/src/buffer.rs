//! Byte sources that fields are read from.
use vstd::prelude::*;
use crate::error::BufferError;
use memmap2::Mmap;

verus! {

/// Whether `len` bytes starting at `offset` lie inside a buffer of `size` bytes.
pub open spec fn range_fits(size: nat, offset: u64, len: usize) -> bool {
    offset + len <= size
}

/// A readable, fixed-size byte source.
pub trait FileBuffer {
    /// The bytes the buffer holds.
    spec fn contents(&self) -> Seq<u8>;

    /// The number of bytes in the buffer.
    fn file_size(&self) -> (n: u64)
        ensures
            n as nat == self.contents().len(),
    ;

    /// The `len` bytes starting at `offset`, or `OutOfBounds` when they do not all lie inside
    /// the buffer.
    fn read_bytes(&self, offset: u64, len: usize) -> (r: Result<&[u8], BufferError>)
        ensures
            r is Ok <==> range_fits(self.contents().len(), offset, len),
            r matches Ok(s) ==> s@ == self.contents().subrange(offset as int, offset + len),
    ;
}

/// A buffer that holds its bytes in memory.
pub struct MemoryBuffer {
    data: Vec<u8>,
}

impl MemoryBuffer {
    /// A buffer holding exactly `data`.
    pub fn from_vec(data: Vec<u8>) -> (b: MemoryBuffer)
        ensures
            b.contents() == data@,
    {
        MemoryBuffer { data }
    }
}

impl FileBuffer for MemoryBuffer {
    closed spec fn contents(&self) -> Seq<u8> {
        self.data@
    }

    fn file_size(&self) -> (n: u64) {
        self.data.len() as u64
    }

    fn read_bytes(&self, offset: u64, len: usize) -> (r: Result<&[u8], BufferError>) {
        let (start, end) = checked_range(self.data.len(), offset, len)?;
        Ok(slice_range(self.data.as_slice(), start, end))
    }
}

/// The bytes of `data` from `start` up to `end` (`&data[start..end]`).
#[verifier::external_body]
pub(crate) fn slice_range(data: &[u8], start: usize, end: usize) -> (r: &[u8])
    requires
        start <= end <= data@.len(),
    ensures
        r@ == data@.subrange(start as int, end as int),
{
    &data[start..end]
}

/// The start and end index of a read of `len` bytes at `offset` from data of `data_len` bytes.
pub fn checked_range(data_len: usize, offset: u64, len: usize) -> (r: Result<(usize, usize), BufferError>)
    ensures
        r is Ok <==> range_fits(data_len as nat, offset, len),
        r matches Ok((s, e)) ==> s == offset && e == offset + len,
{
    if offset > usize::MAX as u64 {
        return Err(BufferError::OutOfBounds);
    }
    let start = offset as usize;
    if start > usize::MAX - len {
        return Err(BufferError::OutOfBounds);
    }
    let end = start + len;
    if end > data_len {
        return Err(BufferError::OutOfBounds);
    }
    Ok((start, end))
}

/// `memmap2::Mmap`, a read-only memory map of a file.
#[verifier::external_type_specification]
#[verifier::external_body]
pub struct ExMmap(Mmap);

/// The bytes a memory map shows.
pub uninterp spec fn mapped_bytes(m: Mmap) -> Seq<u8>;

/// The mapped bytes as a slice (`<Mmap as Deref>::deref`). Claims only that the slice holds
/// the map's bytes, named `mapped_bytes`; that they are the file's bytes rests on the file
/// not being changed while it is mapped.
#[verifier::external_body]
fn mapped_slice(m: &Mmap) -> (s: &[u8])
    ensures
        s@ == mapped_bytes(*m),
{
    &m[..]
}

/// A buffer over a memory-mapped file.
pub struct MmapBuffer {
    mmap: Mmap,
}

impl MmapBuffer {
    /// A buffer over the bytes `mmap` maps.
    pub fn from_mmap(mmap: Mmap) -> (b: MmapBuffer)
        ensures
            b.contents() == mapped_bytes(mmap),
    {
        MmapBuffer { mmap }
    }
}

impl FileBuffer for MmapBuffer {
    closed spec fn contents(&self) -> Seq<u8> {
        mapped_bytes(self.mmap)
    }

    fn file_size(&self) -> (n: u64) {
        mapped_slice(&self.mmap).len() as u64
    }

    fn read_bytes(&self, offset: u64, len: usize) -> (r: Result<&[u8], BufferError>) {
        let data = mapped_slice(&self.mmap);
        let (start, end) = checked_range(data.len(), offset, len)?;
        Ok(slice_range(data, start, end))
    }
}

/// Files smaller than this many bytes are read into memory when opened; larger ones are mapped.
pub const MMAP_THRESHOLD_BYTES: u64 = 8 * 1024 * 1024;

/// Whether a file of `size` bytes is read into memory rather than mapped when opened.
pub fn reads_into_memory(size: u64) -> (r: bool)
    ensures
        r == (size < MMAP_THRESHOLD_BYTES),
{
    size < MMAP_THRESHOLD_BYTES
}

} // verus!
