//! Kinds of file operations and of files, as carried by I/O error details,
//! and the in-memory buffer of a file's contents.

use vstd::prelude::*;
use crate::io::bytes::MemByteReader;
use crate::io::reader::{MemCharReader, Reader, without_bom};
use crate::io::bytes::ByteReader;
use crate::io::Position;

verus! {

/// The operation that was under way when an I/O error came up.
#[derive(Debug, Clone, Copy, PartialEq, Eq, Structural, Hash)]
pub enum OpType {
    Create,
    Read,
    Write,
    Remove,
    Stat,
}

impl OpType {
    pub open spec fn spec_text(self) -> Seq<char> {
        match self {
            OpType::Create => "create"@,
            OpType::Read => "read"@,
            OpType::Write => "write"@,
            OpType::Remove => "remove"@,
            OpType::Stat => "stat"@,
        }
    }

    /// The verb of the operation, as it stands in messages.
    pub fn text(&self) -> (s: &'static str)
        ensures
            s@ == self.spec_text(),
    {
        match *self {
            OpType::Create => "create",
            OpType::Read => "read",
            OpType::Write => "write",
            OpType::Remove => "remove",
            OpType::Stat => "stat",
        }
    }
}

/// The kind of file that an operation was applied to.
#[derive(Debug, Clone, Copy, PartialEq, Eq, Structural, Hash)]
pub enum FileType {
    Unknown,
    File,
    Dir,
    Link,
    Device,
    Special,
}

impl FileType {
    pub open spec fn spec_text(self) -> Seq<char> {
        match self {
            FileType::Unknown => "path"@,
            FileType::File => "file"@,
            FileType::Dir => "dir"@,
            FileType::Link => "link"@,
            FileType::Device => "device"@,
            FileType::Special => "special file"@,
        }
    }

    pub fn is_file(&self) -> (b: bool)
        ensures
            b == (*self == FileType::File),
    {
        match *self {
            FileType::File => true,
            _ => false,
        }
    }

    /// The noun of the file kind, as it stands in messages.
    pub fn text(&self) -> (s: &'static str)
        ensures
            s@ == self.spec_text(),
    {
        match *self {
            FileType::Unknown => "path",
            FileType::File => "file",
            FileType::Dir => "dir",
            FileType::Link => "link",
            FileType::Device => "device",
            FileType::Special => "special file",
        }
    }
}

/// The contents of a file in memory, with the path of the file.
#[derive(Debug)]
pub struct FileBuffer {
    data: Vec<u8>,
    path: String,
}

impl FileBuffer {
    pub closed spec fn spec_data(&self) -> Seq<u8> {
        self.data@
    }

    pub closed spec fn spec_path(&self) -> Seq<char> {
        self.path@
    }

    /// The buffer of the contents that were read from the file at `path`.
    pub fn new(path: String, data: Vec<u8>) -> (b: FileBuffer)
        ensures
            b.spec_data() == data@,
            b.spec_path() == path@,
    {
        FileBuffer { data, path }
    }

    /// A reader of the characters of the contents.
    pub fn char_reader(&self) -> (r: MemCharReader<'_>)
        requires
            self.spec_data().len() <= u32::MAX,
        ensures
            r.wf(),
            r.data() == without_bom(self.spec_data()),
            r.pos() == (Position { offset: 0, line: 0, column: 0 }),
            !r.pending(),
            Reader::spec_path(&r) == Some(self.spec_path()),
    {
        MemCharReader::with_path(self.path.as_str(), self.data.as_slice())
    }

    /// A reader of the bytes of the contents.
    pub fn byte_reader(&self) -> (r: MemByteReader<'_>)
        requires
            self.spec_data().len() <= u32::MAX,
        ensures
            r.wf(),
            r.data() == self.spec_data(),
            r.pos() == (Position { offset: 0, line: 0, column: 0 }),
            r.committed() == 0,
            Reader::spec_path(&r) == Some(self.spec_path()),
    {
        MemByteReader::with_path(self.path.as_str(), self.data.as_slice())
    }

    /// The path of the file.
    pub fn path(&self) -> (p: &str)
        ensures
            p@ == self.spec_path(),
    {
        self.path.as_str()
    }

    pub fn as_slice(&self) -> (s: &[u8])
        ensures
            s@ == self.spec_data(),
    {
        self.data.as_slice()
    }

    /// Puts `data` in the place of the contents.
    pub fn set_data(&mut self, data: Vec<u8>)
        ensures
            final(self).spec_data() == data@,
            final(self).spec_path() == old(self).spec_path(),
    {
        self.data = data;
    }

    pub fn into_data(self) -> (d: Vec<u8>)
        ensures
            d@ == self.spec_data(),
    {
        self.data
    }
}

} // verus!
