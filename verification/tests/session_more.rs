use shellm::ai::client::{Message, Role};
use shellm::session::context::Session;
use std::path::PathBuf;

#[test]
fn window_keeps_newest_in_order() {
    let mut session = Session::new(3, "sys", working_dir());
    for i in 0..5 {
        session.add_message(Message::user(&format!("m{}", i)));
    }
    let msgs = session.get_messages();
    let texts: Vec<&str> = msgs.iter().map(|m| m.content.as_str()).collect();
    assert_eq!(texts, vec!["sys", "m2", "m3", "m4"]);
    assert_eq!(msgs[0].role, Role::System);
}

#[test]
fn zero_window_keeps_only_prompt() {
    let mut session = Session::new(0, "sys", working_dir());
    session.add_message(Message::user("x"));
    assert_eq!(session.get_messages().len(), 1);
}

#[test]
fn cleared_session_accepts_new_messages() {
    let mut session = Session::new(2, "sys", working_dir());
    session.add_message(Message::user("a"));
    session.clear();
    session.add_message(Message::user("b"));
    let msgs = session.get_messages();
    assert_eq!(msgs.len(), 1);
    assert_eq!(msgs[0].content, "b");
}

#[test]
fn new_session_starts_in_given_directory() {
    let session = Session::new(1, "sys", working_dir());
    assert_eq!(session.current_dir(), &working_dir());
    let session = Session::new(1, "sys", PathBuf::from("/tmp"));
    assert_eq!(session.current_dir(), &PathBuf::from("/tmp"));
    let msgs = session.get_messages();
    assert_eq!(msgs.len(), 1);
    assert_eq!(msgs[0].role, Role::System);
    assert_eq!(msgs[0].content, "sys");
}

fn working_dir() -> std::path::PathBuf {
    std::path::PathBuf::from("/home/user/project")
}
