use minishell::filesystem::{FileNode, FileObject};
use minishell::command::{ls, mkdir, touch, read, find};

#[test]
fn test_command() {
    let root = FileNode::create_directory("".to_string(), vec![0]);
    let mut nodes: Vec<FileNode> = vec![root];
    let current = 0;

    mkdir(&mut nodes, current, "home".to_string());
    mkdir(&mut nodes, current, "root".to_string());
    touch(&mut nodes, current, "file1".to_string(), "file1 test".to_string());
    assert_eq!(ls(&nodes, current), "home\troot\tfile1");

    if let Ok(pointer) = find(&nodes, current, "file1") {
        {
            let name = nodes[pointer].0.name().clone();
            let data = read(&nodes, pointer);
            assert_eq!(name.as_str(), "file1");
            assert_eq!(data, Ok("file1 test".to_string()));
        }

        {
            assert_eq!(minishell::command::write(&mut nodes, pointer, "\nadd writing"), Ok(()));

            let name = nodes[pointer].0.name().clone();
            let data = read(&nodes, pointer);
            assert_eq!(name.as_str(), "file1");
            assert_eq!(data, Ok("file1 test\nadd writing".to_string()));
        }
    }
}

#[test]
fn test_pwd_command() {
    let root = FileNode::create_directory("".to_string(), vec![0]);
    let mut nodes: Vec<FileNode> = vec![root];
    assert_eq!(minishell::command::pwd(&nodes, 0), "/");
    mkdir(&mut nodes, 0, "a".to_string());
    assert_eq!(minishell::command::pwd(&nodes, 1), "/a");
}

#[test]
fn test_splits() {
    let (digits, rest) = minishell::common::split_digit("123abc");
    assert_eq!((digits, rest), ("123", "abc"));
    let (word, rest2) = minishell::common::split_alphanumeric("ab1 cd");
    assert_eq!((word, rest2), ("ab1", " cd"));
    let (head, tail) = minishell::common::split_specific("ab,cd", ",");
    assert_eq!((head, tail), ("ab", ",cd"));
}
