use vstd::prelude::*;

verus! {

/// Classification of an archive entry, decoded from the header's type byte.
///
/// Decoding is total: every byte outside the known set maps to
/// `Other(byte)`, never to an error.
#[derive(Clone, Copy, Debug, PartialEq, Eq, Structural)]
#[non_exhaustive]
pub enum TypeFlag {
    Regular,
    HardLink,
    SymbolicLink,
    CharacterDevice,
    BlockDevice,
    Directory,
    FIFO,
    PaxNextFile,
    PaxFollowingFiles,
    Other(u8),
}

impl TypeFlag {
    /// What `from_u8` returns for each raw type byte.
    pub open spec fn spec_from_u8(x: u8) -> TypeFlag {
        if x == 0x30 || x == 0x00 {
            TypeFlag::Regular
        } else if x == 0x31 {
            TypeFlag::HardLink
        } else if x == 0x32 {
            TypeFlag::SymbolicLink
        } else if x == 0x33 {
            TypeFlag::CharacterDevice
        } else if x == 0x34 {
            TypeFlag::BlockDevice
        } else if x == 0x35 {
            TypeFlag::Directory
        } else if x == 0x36 {
            TypeFlag::FIFO
        } else if x == 0x78 {
            TypeFlag::PaxNextFile
        } else if x == 0x67 {
            TypeFlag::PaxFollowingFiles
        } else {
            TypeFlag::Other(x)
        }
    }

    /// What `to_u8` returns for each flag.
    pub open spec fn spec_to_u8(self) -> u8 {
        match self {
            TypeFlag::Regular => 0x30,
            TypeFlag::HardLink => 0x31,
            TypeFlag::SymbolicLink => 0x32,
            TypeFlag::CharacterDevice => 0x33,
            TypeFlag::BlockDevice => 0x34,
            TypeFlag::Directory => 0x35,
            TypeFlag::FIFO => 0x36,
            TypeFlag::PaxNextFile => 0x78,
            TypeFlag::PaxFollowingFiles => 0x67,
            TypeFlag::Other(x) => x,
        }
    }

    /// Decode a raw type byte; unknown bytes become `Other`.
    pub fn from_u8(x: u8) -> (r: TypeFlag)
        ensures
            r == TypeFlag::spec_from_u8(x),
    {
        match x {
            0x30 | 0x00 => TypeFlag::Regular,
            0x31 => TypeFlag::HardLink,
            0x32 => TypeFlag::SymbolicLink,
            0x33 => TypeFlag::CharacterDevice,
            0x34 => TypeFlag::BlockDevice,
            0x35 => TypeFlag::Directory,
            0x36 => TypeFlag::FIFO,
            0x78 => TypeFlag::PaxNextFile,
            0x67 => TypeFlag::PaxFollowingFiles,
            o => TypeFlag::Other(o),
        }
    }

    /// Encode a flag as its canonical type byte.
    pub fn to_u8(self) -> (r: u8)
        ensures
            r == self.spec_to_u8(),
    {
        match self {
            TypeFlag::Regular => 0x30,
            TypeFlag::HardLink => 0x31,
            TypeFlag::SymbolicLink => 0x32,
            TypeFlag::CharacterDevice => 0x33,
            TypeFlag::BlockDevice => 0x34,
            TypeFlag::Directory => 0x35,
            TypeFlag::FIFO => 0x36,
            TypeFlag::PaxNextFile => 0x78,
            TypeFlag::PaxFollowingFiles => 0x67,
            TypeFlag::Other(x) => x,
        }
    }
}

} // verus!
