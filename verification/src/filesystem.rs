//! What the virtual filesystem stores in each node: a directory name,
//! or a file name with its contents.

use vstd::prelude::*;
use crate::graph::{Node, NodePointer, Edge};

verus! {

pub type Name = String;

pub type Data = String;

pub type FileNode = Node<FileType>;

pub type FileNodePointer = NodePointer;

/// A directory or a file.
#[derive(Debug, PartialEq)]
pub enum FileType {
    Directory { name: Name },
    File { name: Name, data: Data },
}

/// The name a filesystem entry carries.
pub open spec fn file_name(t: FileType) -> Seq<char> {
    match t {
        FileType::Directory { name } => name@,
        FileType::File { name, data: _ } => name@,
    }
}

/// The contents a filesystem entry carries; a directory has none.
pub open spec fn file_data(t: FileType) -> Seq<char> {
    match t {
        FileType::Directory { name: _ } => Seq::empty(),
        FileType::File { name: _, data } => data@,
    }
}

/// Anything with a name.
pub trait FileObject {
    spec fn spec_name(&self) -> Seq<char>;

    fn name(&self) -> (r: &Name)
        ensures
            r@ == self.spec_name(),
    ;
}

impl FileObject for FileType {
    open spec fn spec_name(&self) -> Seq<char> {
        file_name(*self)
    }

    fn name(&self) -> (r: &Name) {
        match self {
            FileType::Directory { name } => name,
            FileType::File { name, data: _ } => name,
        }
    }
}

impl FileNode {
    /// A directory node.
    pub fn create_directory(name: Name, edge: Edge) -> (n: FileNode)
        ensures
            n.0 == (FileType::Directory { name }),
            n.1 == edge,
    {
        Node(FileType::Directory { name }, edge)
    }

    /// A file node.
    pub fn create_file(name: Name, data: Data, edge: Edge) -> (n: FileNode)
        ensures
            n.0 == (FileType::File { name, data }),
            n.1 == edge,
    {
        Node(FileType::File { name, data }, edge)
    }
}

} // verus!
