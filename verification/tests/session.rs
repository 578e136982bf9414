use shellm::ai::client::{Message, Role};
use shellm::session::context::Session;
use std::path::PathBuf;

#[test]
fn new_session_has_no_messages() {
    let session = Session::new(5, "System prompt", working_dir());
    assert_eq!(session.get_messages().len(), 1);
}

#[test]
fn add_message_increases_count() {
    let mut session = Session::new(5, "System prompt", working_dir());
    let message = Message {
        role: Role::User,
        content: "Hello".to_string(),
    };
    session.add_message(message);
    assert_eq!(session.get_messages().len(), 2);
}

#[test]
fn clear_removes_all_messages() {
    let mut session = Session::new(5, "System prompt", working_dir());
    session.add_message(Message {
        role: Role::User,
        content: "Hello".to_string(),
    });
    session.clear();
    assert!(session.get_messages().is_empty());
}

#[test]
fn change_dir_updates_current_dir() {
    let mut session = Session::new(5, "System prompt", working_dir());
    let new_dir = PathBuf::from("/tmp");
    session.change_dir(new_dir.clone());
    assert_eq!(session.current_dir(), &new_dir);
}

#[test]
fn sliding_window_drops_old_messages() {
    let mut session = Session::new(2, "System prompt", working_dir());
    for i in 0..6 {
        session.add_message(Message {
            role: Role::User,
            content: format!("Message {}", i),
        });
    }
    assert_eq!(session.get_messages().len(), 3);
}

fn working_dir() -> std::path::PathBuf {
    std::path::PathBuf::from("/home/user/project")
}
