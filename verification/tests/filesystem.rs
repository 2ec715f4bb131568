use minishell::graph::{Node, Graph, Edge};
use minishell::filesystem::{FileNode, FileType, FileObject};

#[test]
fn test_name() {
    let directory = FileType::Directory { name: "directory".to_string() };
    assert_eq!(directory.name().as_str(), "directory");

    let file = FileType::File { name: "file".to_string(), data: "data".to_string() };
    assert_eq!(file.name().as_str(), "file");
}

#[test]
fn test_create() {
    let directory = FileNode::create_directory("directory".to_string(), vec![]);
    assert_eq!(directory, FileNode::new(FileType::Directory { name: "directory".to_string() }, vec![]));

    let file = FileNode::create_file("file".to_string(), "data".to_string(), vec![]);
    assert_eq!(
        file,
        FileNode::new(
            FileType::File { name: "file".to_string(), data: "data".to_string() },
            vec![]
        )
    );
}

#[test]
fn test_edge() {
    let node1 = Node(FileType::Directory { name: "node1".to_string() }, Edge::new());
    assert_eq!(node1.1, Edge::new());

    let node2 = Node(FileType::Directory { name: "node2".to_string() }, vec![]);
    assert_eq!(node2.1, vec![]);

    let sub = FileNode::create_directory("sub node".to_string(), vec![0]);
    let node3 = Node(FileType::Directory { name: "node3".to_string() }, vec![1]);
    assert_eq!((sub.0.name().as_str(), node3.1), ("sub node", vec![1]));
}
