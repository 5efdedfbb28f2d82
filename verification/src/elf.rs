//! The word size of a binary, read off the first bytes of its header.

use vstd::prelude::*;
use crate::error::LaunchError;

verus! {

/// How many bytes of a binary the inspection looks at.
pub const HEADER_LEN: usize = 6;

/// The four bytes every ELF object begins with: `0x7f`, `E`, `L`, `F`.
pub open spec fn elf_magic() -> Seq<u8> {
    seq![0x7fu8, 0x45u8, 0x4cu8, 0x46u8]
}

/// The class byte that marks a 32-bit object.
pub const ELFCLASS32: u8 = 1;

/// The header is that of a binary object: it is long enough to be
/// inspected and begins with the magic bytes.
pub open spec fn has_elf_magic(header: Seq<u8>) -> bool {
    header.len() >= HEADER_LEN && header.subrange(0, 4) == elf_magic()
}

/// The header's fifth byte is the 32-bit class. Of a binary object, every
/// other class is 64-bit.
pub open spec fn header_is_elf32(header: Seq<u8>) -> bool {
    header[4] == ELFCLASS32
}

/// Whether the binary whose first bytes are `header` is a 32-bit object.
/// Six bytes are needed, and of a longer header only the first six are
/// looked at. A header that is shorter, or that does not begin with the
/// magic bytes, is not that of a binary object: it is an I/O error, and no
/// word size is made up for it.
pub fn is_elf32(header: &[u8]) -> (r: Result<bool, LaunchError>)
    ensures
        header@.len() < HEADER_LEN ==> (r matches Err(e) && e == LaunchError::Io),
        header@.len() >= HEADER_LEN && header@.subrange(0, 4) != elf_magic() ==> (r matches Err(e)
            && e == LaunchError::Io),
        header@.len() >= HEADER_LEN && header@.subrange(0, 4) == elf_magic() ==> (r matches Ok(
            narrow,
        ) && narrow == (header@[4] == ELFCLASS32)),
{
    if header.len() < HEADER_LEN {
        return Err(LaunchError::Io);
    }
    let magic = header[0] == 0x7f && header[1] == 0x45 && header[2] == 0x4c && header[3] == 0x46;
    proof {
        let head = header@.subrange(0, 4);
        assert(head[0] == header@[0] && head[1] == header@[1] && head[2] == header@[2] && head[3]
            == header@[3]);
        if magic {
            assert(head =~= elf_magic());
        } else {
            assert(elf_magic()[0] == 0x7f && elf_magic()[1] == 0x45 && elf_magic()[2] == 0x4c
                && elf_magic()[3] == 0x46);
        }
    }
    if !magic {
        return Err(LaunchError::Io);
    }
    Ok(header[4] == ELFCLASS32)
}

/// Of a header that begins with the magic bytes, the fifth byte alone
/// decides: class 1 is 32-bit, and class 2 and every other value are 64-bit.
pub proof fn lemma_class_byte_decides(header: Seq<u8>)
    requires
        has_elf_magic(header),
    ensures
        header[4] == 1 ==> header_is_elf32(header),
        header[4] == 2 ==> !header_is_elf32(header),
        header[4] != 1 ==> !header_is_elf32(header),
{
}

} // verus!
