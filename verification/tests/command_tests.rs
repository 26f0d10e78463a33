use shell_pipeline::command::SimpleCommand;

#[test]
fn command_test_length_null() {
    let command = SimpleCommand::new();
    assert_eq!(command.length(), 0);
}

#[test]
fn command_test_front_null() {
    let command = SimpleCommand::new();
    assert!(command.front().is_none());
}

#[test]
fn command_test_front_empty() {
    let scmd = SimpleCommand::new();
    assert!(scmd.front().is_none());
}

#[test]
fn test_new_is_empty() {
    let scmd = SimpleCommand::new();
    assert!(scmd.is_empty());
    assert_eq!(scmd.length(), 0);
}

#[test]
fn command_test_adding_emptying() {
    let mut scmd = SimpleCommand::new();
    for i in 0..257 {
        assert_eq!(i == 0, scmd.is_empty());
        scmd.push_back("123".to_string());
    }
    for _ in 0..257 {
        assert!(!scmd.is_empty());
        scmd.pop_front();
    }
    assert!(scmd.is_empty());
}

#[test]
fn command_test_adding_emptying_length() {
    let mut scmd = SimpleCommand::new();
    for i in 0..257 {
        assert_eq!(i, scmd.length());
        scmd.push_back("123".to_string());
    }
    for i in (1..=257).rev() {
        assert_eq!(i, scmd.length());
        scmd.pop_front();
    }
    assert_eq!(scmd.length(), 0);
}

#[test]
fn command_test_fifo() {
    let mut scmd = SimpleCommand::new();
    let mut strings = Vec::new();
    for i in 0..257 {
        strings.push(i.to_string());
    }
    for s in &strings {
        scmd.push_back(s.clone());
    }
    for s in &strings {
        let front = scmd.front().unwrap();
        println!("{} == {}", front, s);
        assert_eq!(front, s);
        let popped = scmd.pop_front();
        println!("{}", popped.unwrap());
    }
}

#[test]
fn command_test_front_idempotent() {
    let mut scmd = SimpleCommand::new();
    scmd.push_back("123".to_string());
    for _ in 0..257 {
        assert_eq!(scmd.front().unwrap(), "123");
    }
}

#[test]
fn command_test_front_is_back() {
    let mut scmd = SimpleCommand::new();
    scmd.push_back("123".to_string());
    assert_eq!(scmd.front().unwrap(), "123");
}

#[test]
fn command_test_front_is_not_back() {
    let mut scmd = SimpleCommand::new();
    scmd.push_back("123".to_string());
    scmd.push_back("456".to_string());
    assert_ne!(scmd.front().unwrap(), "456");
}

#[test]
fn test_redir() {
    let mut scmd = SimpleCommand::new();
    scmd.set_redir_in("123".to_string());
    scmd.set_redir_out("456".to_string());
    assert_ne!(scmd.get_redir_in(), scmd.get_redir_out());
    scmd.set_redir_out("123".to_string());
    assert_eq!(scmd.get_redir_in(), scmd.get_redir_out());
}

#[test]
fn test_independent_redirs() {
    let mut scmd = SimpleCommand::new();
    scmd.set_redir_in("123".to_string());
    assert_eq!(scmd.get_redir_in(), "123");
    assert_eq!(scmd.get_redir_out(), "");
    scmd.set_redir_in(String::new());
    assert_eq!(scmd.get_redir_in(), "");
    assert_eq!(scmd.get_redir_out(), "");
    scmd.set_redir_out("456".to_string());
    assert_eq!(scmd.get_redir_in(), "");
    assert_eq!(scmd.get_redir_out(), "456");
    scmd.set_redir_in("123".to_string());
    assert_eq!(scmd.get_redir_in(), "123");
    assert_eq!(scmd.get_redir_out(), "456");
}

#[test]
fn command_test_to_string_empty() {
    let scmd = SimpleCommand::new();
    assert_eq!(scmd.to_string(), "");
}

#[test]
fn command_test_to_string() {
    let mut scmd = SimpleCommand::new();
    let mut strings = Vec::new();
    for i in 0..257 {
        strings.push(i.to_string());
    }
    for i in 0..255 {
        scmd.push_back(strings[i].clone());
    }
    scmd.set_redir_in(strings[255].clone());
    scmd.set_redir_out(strings[256].clone());
    let result = scmd.to_string();
    let mut last_pos = 0;
    for i in 0..257 {
        if i < 255 {
            let pos = result.find(&strings[i]).unwrap();
            assert!(pos >= last_pos);
            last_pos = pos;
        } else if i == 255 {
            let pos = result.find(&strings[i]).unwrap();
            let redir_pos = result.find('<').unwrap();
            assert!(pos > redir_pos);
        } else {
            let pos = result.find(&strings[i]).unwrap();
            let redir_pos = result.find('>').unwrap();
            assert!(pos > redir_pos);
        }
    }
}
