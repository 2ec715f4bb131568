use minishell::shell::{CommandError, Shell};

#[test]
fn test_enter() {
    let shell = &mut Shell::init();

    let buffer = "";
    assert_eq!(shell.run(buffer), Ok(None));
}

#[test]
fn test_exit() {
    let shell = &mut Shell::init();

    let buffer = "exit";
    assert_eq!(shell.run(buffer), Err(CommandError::CommandNotFound(buffer.to_string())));
}

#[test]
fn test_help() {
    let shell = &mut Shell::init();

    let buffer = ":?";
    assert_eq!(shell.run(buffer), Err(CommandError::CommandNotFound(buffer.to_string())));
}

#[test]
fn test_ls() {
    let shell = &mut Shell::init();

    let buffer = "ls";
    assert_eq!(shell.run(buffer), Ok(Some("".to_string())));

    let buffer = "ls a";
    assert_eq!(shell.run(buffer), Ok(Some("".to_string())));

    let buffer = "ls b c";
    assert_eq!(shell.run(buffer), Ok(Some("".to_string())));

    let buffer = "mkdir a";
    assert_eq!(shell.run(buffer), Ok(None));

    let buffer = "ls";
    assert_eq!(shell.run(buffer), Ok(Some("a".to_string())));

    let buffer = "ls a";
    assert_eq!(shell.run(buffer), Ok(Some("a".to_string())));

    let buffer = "ls b c";
    assert_eq!(shell.run(buffer), Ok(Some("a".to_string())));
}

#[test]
fn test_pwd() {
    let shell = &mut Shell::init();

    let buffer = "pwd";
    assert_eq!(shell.run(buffer), Ok(Some("/".to_string())));

    let buffer = "pwd a";
    assert_eq!(shell.run(buffer), Ok(Some("/".to_string())));

    let buffer = "mkdir a";
    assert_eq!(shell.run(buffer), Ok(None));

    let buffer = "cd a";
    assert_eq!(shell.run(buffer), Ok(None));

    let buffer = "pwd";
    assert_eq!(shell.run(buffer), Ok(Some("/a".to_string())));
}

#[test]
fn test_cd() {
    let shell = &mut Shell::init();

    let buffer = "cd";
    assert_eq!(shell.run(buffer), Err(CommandError::IllegalArgument));

    let buffer = "cd a";
    assert_eq!(shell.run(buffer), Err(CommandError::NotFound));

    let buffer = "cd b c";
    assert_eq!(shell.run(buffer), Err(CommandError::NotFound));

    let buffer = "pwd";
    assert_eq!(shell.run(buffer), Ok(Some("/".to_string())));

    let buffer = "cd .";
    assert_eq!(shell.run(buffer), Ok(None));

    let buffer = "pwd";
    assert_eq!(shell.run(buffer), Ok(Some("/".to_string())));

    let buffer = "cd ..";
    assert_eq!(shell.run(buffer), Ok(None));

    let buffer = "pwd";
    assert_eq!(shell.run(buffer), Ok(Some("/".to_string())));

    let buffer = "mkdir a";
    assert_eq!(shell.run(buffer), Ok(None));

    let buffer = "cd a";
    assert_eq!(shell.run(buffer), Ok(None));

    let buffer = "cd .";
    assert_eq!(shell.run(buffer), Ok(None));

    let buffer = "pwd";
    assert_eq!(shell.run(buffer), Ok(Some("/a".to_string())));

    let buffer = "mkdir b";
    assert_eq!(shell.run(buffer), Ok(None));

    let buffer = "cd b c";
    assert_eq!(shell.run(buffer), Ok(None));

    let buffer = "cd .";
    assert_eq!(shell.run(buffer), Ok(None));

    let buffer = "pwd";
    assert_eq!(shell.run(buffer), Ok(Some("/a/b".to_string())));

    let buffer = "cd ..";
    assert_eq!(shell.run(buffer), Ok(None));

    let buffer = "pwd";
    assert_eq!(shell.run(buffer), Ok(Some("/a".to_string())));

    let buffer = "cd /";
    assert_eq!(shell.run(buffer), Ok(None));

    let buffer = "pwd";
    assert_eq!(shell.run(buffer), Ok(Some("/".to_string())));
}

#[test]
fn test_find() {
    let shell = &mut Shell::init();

    let buffer = "find";
    assert_eq!(shell.run(buffer), Err(CommandError::IllegalArgument));

    let buffer = "find a";
    assert_eq!(shell.run(buffer), Err(CommandError::NotFound));

    let buffer = "find b c";
    assert_eq!(shell.run(buffer), Err(CommandError::NotFound));

    let buffer = "mkdir a";
    assert_eq!(shell.run(buffer), Ok(None));

    let buffer = "find a";
    assert_eq!(shell.run(buffer), Ok(Some("a".to_string())));

    let buffer = "mkdir b";
    assert_eq!(shell.run(buffer), Ok(None));

    let buffer = "find b c";
    assert_eq!(shell.run(buffer), Ok(Some("b".to_string())));
}

#[test]
fn test_mkdir() {
    let shell = &mut Shell::init();

    let buffer = "mkdir";
    assert_eq!(shell.run(buffer), Err(CommandError::IllegalArgument));

    let buffer = "mkdir a";
    assert_eq!(shell.run(buffer), Ok(None));

    let buffer = "mkdir b c";
    assert_eq!(shell.run(buffer), Ok(None));

    let buffer = "mkdir a";
    assert_eq!(shell.run(buffer), Ok(None));

    let buffer = "ls";
    assert_eq!(shell.run(buffer), Ok(Some("a\tb\ta".to_string())));
}

#[test]
fn test_touch() {
    let shell = &mut Shell::init();

    let buffer = "touch";
    assert_eq!(shell.run(buffer), Err(CommandError::IllegalArgument));

    let buffer = "touch a";
    assert_eq!(shell.run(buffer), Ok(None));

    let buffer = "touch b c";
    assert_eq!(shell.run(buffer), Ok(None));

    let buffer = "touch a";
    assert_eq!(shell.run(buffer), Ok(None));

    let buffer = "ls";
    assert_eq!(shell.run(buffer), Ok(Some("a\tb\ta".to_string())));
}

#[test]
fn test_read() {
    let shell = &mut Shell::init();

    let buffer = "read";
    assert_eq!(shell.run(buffer), Err(CommandError::IllegalArgument));

    let buffer = "read a";
    assert_eq!(shell.run(buffer), Err(CommandError::NotFound));

    let buffer = "read a b";
    assert_eq!(shell.run(buffer), Err(CommandError::NotFound));

    let buffer = "touch a";
    assert_eq!(shell.run(buffer), Ok(None));

    let buffer = "read a";
    assert_eq!(shell.run(buffer), Ok(Some("".to_string())));

    let buffer = "write a 123";
    assert_eq!(shell.run(buffer), Ok(None));

    let buffer = "read a";
    assert_eq!(shell.run(buffer), Ok(Some("123".to_string())));

    let buffer = "read a b";
    assert_eq!(shell.run(buffer), Ok(Some("123".to_string())));

    let buffer = "mkdir dir";
    assert_eq!(shell.run(buffer), Ok(None));

    let buffer = "read dir";
    assert_eq!(shell.run(buffer), Err(CommandError::NotFile));
}

#[test]
fn test_write() {
    let shell = &mut Shell::init();

    let buffer = "write";
    assert_eq!(shell.run(buffer), Err(CommandError::IllegalArgument));

    let buffer = "write a";
    assert_eq!(shell.run(buffer), Err(CommandError::IllegalArgument));

    let buffer = "write a 123";
    assert_eq!(shell.run(buffer), Err(CommandError::NotFound));

    let buffer = "touch a";
    assert_eq!(shell.run(buffer), Ok(None));

    let buffer = "read a";
    assert_eq!(shell.run(buffer), Ok(Some("".to_string())));

    let buffer = "write a";
    assert_eq!(shell.run(buffer), Err(CommandError::IllegalArgument));

    let buffer = "write a 123";
    assert_eq!(shell.run(buffer), Ok(None));

    let buffer = "read a";
    assert_eq!(shell.run(buffer), Ok(Some("123".to_string())));

    let buffer = "write a 123 456 xyz";
    assert_eq!(shell.run(buffer), Ok(None));

    let buffer = "read a";
    assert_eq!(shell.run(buffer), Ok(Some("123123 456 xyz".to_string())));

    let buffer = "mkdir dir";
    assert_eq!(shell.run(buffer), Ok(None));

    let buffer = "write dir string";
    assert_eq!(shell.run(buffer), Err(CommandError::NotFile));
}
