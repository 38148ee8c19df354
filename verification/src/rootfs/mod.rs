//! The root filesystem: filesystem types, mount namespaces, and how a program is run.
use vstd::prelude::*;

pub mod filesystem;
pub mod namespace;


verus! {

/// How a program image is loaded.
#[derive(Debug, Clone, Copy, PartialEq, Eq, Structural)]
pub enum ExecFormat {
    Flat,
    Elf,
}

/// Whether `prefix` starts with the ELF magic `\x7fELF`.
pub open spec fn has_elf_magic(prefix: Seq<u8>) -> bool {
    prefix.len() >= 4 && prefix[0] == 0x7f && prefix[1] == 0x45 && prefix[2] == 0x4c && prefix[3]
        == 0x46
}

/// The format of a program from the first bytes of its file: ELF with the ELF magic,
/// else a flat image.
pub fn exec_format(prefix: &[u8]) -> (r: ExecFormat)
    ensures
        r == (if has_elf_magic(prefix@) {
            ExecFormat::Elf
        } else {
            ExecFormat::Flat
        }),
{
    if prefix.len() >= 4 && prefix[0] == 0x7f && prefix[1] == 0x45 && prefix[2] == 0x4c
        && prefix[3] == 0x46 {
        ExecFormat::Elf
    } else {
        ExecFormat::Flat
    }
}

} // verus!
