//! The read-only file mapping that backs an editor.

use vstd::prelude::*;

verus! {

/// A read-only memory map of a file, seen by the library only through its bytes.
#[verifier::external_type_specification]
#[verifier::external_body]
pub struct ExMmap(memmap2::Mmap);

/// The bytes that a mapping shows: the file's content at the time it was mapped.
/// That they stay so rests on the promise made when the mapping was created
/// (`memmap2::Mmap::map` is `unsafe`): that no other process modifies or
/// truncates the file while it is mapped. Nothing here states what happens if
/// one does.
pub uninterp spec fn mapped_bytes(m: memmap2::Mmap) -> Seq<u8>;

/// Number of bytes in the mapping: `<[u8]>::len` of the byte slice that `Mmap`
/// dereferences to (through its `Deref` impl), which is its content, and so (as for
/// every Rust slice of bytes) at most `isize::MAX`.
#[verifier::external_body]
pub(crate) fn mapped_len(m: &memmap2::Mmap) -> (n: usize)
    ensures
        n == mapped_bytes(*m).len(),
        n <= isize::MAX,
{
    m.len()
}

/// One byte of the mapping, read through `Deref<Target = [u8]>` of `memmap2::Mmap`:
/// the content at `index`.
#[verifier::external_body]
pub(crate) fn mapped_byte(m: &memmap2::Mmap, index: usize) -> (b: u8)
    requires
        index < mapped_bytes(*m).len(),
    ensures
        b == mapped_bytes(*m)[index as int],
{
    m[index]
}

} // verus!
