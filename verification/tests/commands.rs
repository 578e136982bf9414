use shellm::ai::client::{Message, Role};
use shellm::commands::builtins::{
    Builtin, BuiltinCommand, BuiltinContext, BuiltinRegistry, ClearCommand, DispatchOutcome,
    HelpCommand, HistoryCommand,
};
use shellm::commands::execute::{extract_command, final_level, needs_ai_assessment};
use shellm::commands::shell::Input;
use shellm::safety::rules::RiskLevel;
use shellm::session::context::Session;

#[test]
fn extract_plain_command() {
    assert_eq!(extract_command("  ls -la  "), "ls -la");
}

#[test]
fn extract_skips_fence_language_line() {
    assert_eq!(extract_command("```bash\nls -la\n```"), "ls -la");
    assert_eq!(extract_command("```\nfind . -name '*.rs'\n```\nThis finds files."), "find . -name '*.rs'");
}

#[test]
fn extract_single_line_fence() {
    assert_eq!(extract_command("```pwd```"), "pwd");
}

#[test]
fn extract_skips_blank_and_comment_lines() {
    assert_eq!(extract_command("\n# list files\n\n  du -sh .  \nexplanation"), "du -sh .");
}

#[test]
fn extract_strips_prompt_prefixes() {
    assert_eq!(extract_command("$ $ echo hi"), "echo hi");
    assert_eq!(extract_command("> git status"), "git status");
    assert_eq!(extract_command("$ > ls"), "ls");
}

#[test]
fn extract_empty_answer() {
    assert_eq!(extract_command(""), "");
    assert_eq!(extract_command("# only a comment"), "");
}

#[test]
fn parse_shell_inputs() {
    assert_eq!(Input::parse("   "), Input::Empty);
    assert_eq!(Input::parse("exit"), Input::Exit);
    assert_eq!(Input::parse(" quit "), Input::Exit);
    assert_eq!(Input::parse("/history"), Input::Builtin("history".to_string()));
    assert_eq!(Input::parse("!ls -la"), Input::Raw("ls -la".to_string()));
    assert_eq!(Input::parse("cd"), Input::Cd(String::new()));
    assert_eq!(Input::parse("cd /tmp"), Input::Cd("/tmp".to_string()));
    assert_eq!(Input::parse("cdx"), Input::Ai("cdx".to_string()));
    assert_eq!(Input::parse("list all files"), Input::Ai("list all files".to_string()));
}

#[test]
fn assessment_and_final_level() {
    assert!(!needs_ai_assessment(RiskLevel::Low));
    assert!(needs_ai_assessment(RiskLevel::Medium));
    assert!(needs_ai_assessment(RiskLevel::Forbidden));
    assert_eq!(final_level(RiskLevel::Medium, None), RiskLevel::Medium);
    assert_eq!(final_level(RiskLevel::Medium, Some(RiskLevel::High)), RiskLevel::High);
    assert_eq!(final_level(RiskLevel::High, Some(RiskLevel::Low)), RiskLevel::High);
}

fn user(text: &str) -> Message {
    Message::user(text)
}

#[test]
fn default_registry_lists_sorted() {
    let reg = BuiltinRegistry::default();
    let listed = reg.iter_sorted();
    assert_eq!(
        listed,
        vec![
            ("clear", "清空当前会话上下文"),
            ("help", "显示本帮助信息"),
            ("history", "查看当前会话的对话历史"),
        ]
    );
}

#[test]
fn register_replaces_same_name() {
    let mut reg = BuiltinRegistry::new();
    reg.register(Builtin::Help(HelpCommand));
    reg.register(Builtin::Help(HelpCommand));
    assert_eq!(reg.iter_sorted().len(), 1);
    reg.register(Builtin::Clear(ClearCommand));
    assert_eq!(reg.iter_sorted().len(), 2);
}

#[test]
fn dispatch_unknown_name() {
    let reg = BuiltinRegistry::default();
    let mut session = Session::new(5, "sys", working_dir());
    let mut ctx = BuiltinContext { session: &mut session };
    assert!(matches!(reg.dispatch("nope", &mut ctx), DispatchOutcome::Unknown));
}

#[test]
fn dispatch_history_numbers_messages() {
    let reg = BuiltinRegistry::default();
    let mut session = Session::new(5, "sys", working_dir());
    session.add_message(user("hello"));
    session.add_message(Message::assistant("ls"));
    let mut ctx = BuiltinContext { session: &mut session };
    match reg.dispatch("history", &mut ctx) {
        DispatchOutcome::Done(lines) => {
            assert_eq!(lines, vec!["历史记录:", "1. [User] hello", "2. [Assistant] ls"]);
        }
        _ => panic!("history should run"),
    }
}

#[test]
fn history_of_empty_session() {
    let mut session = Session::new(5, "sys", working_dir());
    let mut ctx = BuiltinContext { session: &mut session };
    let lines = HistoryCommand.execute(&mut ctx).unwrap();
    assert_eq!(lines, vec!["历史记录:", "  (暂无对话)"]);
}

#[test]
fn history_numbers_past_nine() {
    let mut session = Session::new(20, "sys", working_dir());
    for i in 0..11 {
        session.add_message(user(&format!("m{}", i)));
    }
    let mut ctx = BuiltinContext { session: &mut session };
    let lines = HistoryCommand.execute(&mut ctx).unwrap();
    assert_eq!(lines.len(), 12);
    assert_eq!(lines[11], "11. [User] m10");
}

#[test]
fn dispatch_clear_empties_session() {
    let reg = BuiltinRegistry::default();
    let mut session = Session::new(5, "sys", working_dir());
    session.add_message(user("hello"));
    {
        let mut ctx = BuiltinContext { session: &mut session };
        match reg.dispatch("clear", &mut ctx) {
            DispatchOutcome::Done(lines) => assert_eq!(lines, vec!["历史已清除。"]),
            _ => panic!("clear should run"),
        }
    }
    assert!(session.get_messages().is_empty());
}

#[test]
fn help_lines() {
    let mut session = Session::new(5, "sys", working_dir());
    let mut ctx = BuiltinContext { session: &mut session };
    let lines = HelpCommand.execute(&mut ctx).unwrap();
    assert_eq!(lines.len(), 5);
    assert_eq!(lines[0], "📖 可用内置命令：");
    assert_eq!(lines[4], "  exit / quit  退出 shell");
    assert_eq!(HelpCommand.name(), "help");
    assert_eq!(HistoryCommand.name(), "history");
    assert_eq!(ClearCommand.help(), "清空当前会话上下文");
    assert_eq!(Role::Assistant.display_name(), "Assistant");
}

fn working_dir() -> std::path::PathBuf {
    std::path::PathBuf::from("/home/user/project")
}
