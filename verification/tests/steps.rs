use shellm::commands::builtins::{
    Builtin, BuiltinRegistry, ClearCommand, HelpCommand, HistoryCommand,
};
use shellm::commands::execute::{answer_action, first_action, ExecAction};
use shellm::safety::rules::{RiskLevel, RuleEngine};

fn is_run(a: &ExecAction) -> bool {
    matches!(a, ExecAction::Run)
}

#[test]
fn low_command_runs_without_question() {
    assert!(is_run(&first_action("ls -la", RiskLevel::Low)));
}

#[test]
fn empty_command_never_runs() {
    for level in [RiskLevel::Low, RiskLevel::Medium, RiskLevel::High, RiskLevel::Forbidden] {
        let a = first_action("", level);
        assert!(matches!(a, ExecAction::NothingToRun));
        assert!(matches!(answer_action(&a, "y"), ExecAction::NothingToRun));
    }
}

#[test]
fn medium_command_runs_only_on_yes() {
    let a = first_action("mv a b", RiskLevel::Medium);
    assert!(matches!(a, ExecAction::AskYesNo));
    assert!(is_run(&answer_action(&a, "y")));
    assert!(is_run(&answer_action(&a, "  YES ")));
    assert!(matches!(answer_action(&a, "n"), ExecAction::Cancel));
    assert!(matches!(answer_action(&a, ""), ExecAction::Cancel));
    assert!(matches!(answer_action(&a, "yess"), ExecAction::Cancel));
}

#[test]
fn high_command_runs_only_on_its_first_word() {
    let a = first_action("  rm -rf ./build ", RiskLevel::High);
    match &a {
        ExecAction::AskKeyword(k) => assert_eq!(k, "rm"),
        other => panic!("unexpected step {:?}", other),
    }
    assert!(is_run(&answer_action(&a, "rm")));
    assert!(is_run(&answer_action(&a, "  rm  ")));
    assert!(matches!(answer_action(&a, "y"), ExecAction::Cancel));
    assert!(matches!(answer_action(&a, "RM"), ExecAction::Cancel));
}

#[test]
fn forbidden_command_is_blocked_whatever_the_answer() {
    let a = first_action("rm -rf /", RiskLevel::Forbidden);
    assert!(matches!(a, ExecAction::Block));
    assert!(matches!(answer_action(&a, "y"), ExecAction::Block));
    assert!(matches!(answer_action(&a, "rm"), ExecAction::Block));
}

#[test]
fn settled_steps_ignore_answers() {
    assert!(is_run(&answer_action(&ExecAction::Run, "n")));
    assert!(matches!(answer_action(&ExecAction::Cancel, "y"), ExecAction::Cancel));
}

fn listing(reg: &BuiltinRegistry) -> Vec<(String, String)> {
    reg.iter_sorted().into_iter().map(|(n, h)| (n.to_string(), h.to_string())).collect()
}

#[test]
fn listing_after_register_is_sorted_with_new_entry() {
    let mut reg = BuiltinRegistry::new();
    reg.register(Builtin::Help(HelpCommand));
    reg.register(Builtin::Clear(ClearCommand));
    let names: Vec<String> = listing(&reg).into_iter().map(|p| p.0).collect();
    assert_eq!(names, vec!["clear", "help"]);
    reg.register(Builtin::History(HistoryCommand));
    let after = listing(&reg);
    assert_eq!(
        after,
        vec![
            ("clear".to_string(), "清空当前会话上下文".to_string()),
            ("help".to_string(), "显示本帮助信息".to_string()),
            ("history".to_string(), "查看当前会话的对话历史".to_string()),
        ]
    );
    reg.register(Builtin::Clear(ClearCommand));
    assert_eq!(listing(&reg), after);
}

#[test]
fn one_evaluation_names_each_rule_once() {
    let engine = RuleEngine::new();
    let ms = engine.evaluate("rm -rf / > out.txt");
    let mut names: Vec<String> = ms.iter().map(|m| m.rule_name.clone()).collect();
    let total = names.len();
    assert!(total >= 3);
    names.sort();
    names.dedup();
    assert_eq!(names.len(), total);
    assert!(ms.iter().all(|m| m.level != RiskLevel::Low));
}

#[test]
fn forbidden_exactly_for_the_four_patterns() {
    let engine = RuleEngine::new();
    assert_eq!(engine.max_risk(":(){ :|:& };:"), RiskLevel::Forbidden);
    assert_eq!(engine.max_risk("  MKFS.ext4 /dev/sdb1"), RiskLevel::Forbidden);
    assert_eq!(engine.max_risk("rm -fr /"), RiskLevel::Forbidden);
    assert_eq!(engine.max_risk("dd if=x of=/dev/sdb"), RiskLevel::Forbidden);
    assert_eq!(engine.max_risk("del /s c:\\temp"), RiskLevel::Forbidden);
    assert_eq!(engine.max_risk("rm -rf ./build"), RiskLevel::High);
    assert_eq!(engine.max_risk("dd if=a of=b"), RiskLevel::Low);
    assert_eq!(engine.max_risk("ls"), RiskLevel::Low);
}
