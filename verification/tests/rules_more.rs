use shellm::safety::rules::{RiskLevel, RuleEngine};

fn names(ms: &[shellm::safety::rules::RuleMatch]) -> Vec<String> {
    ms.iter().map(|m| m.rule_name.clone()).collect()
}

#[test]
fn evaluate_lists_highest_level_first() {
    let engine = RuleEngine::new();
    let ms = engine.evaluate("rm -rf /");
    assert_eq!(names(&ms), vec!["rm_root", "rm_recursive"]);
    assert_eq!(ms[0].level, RiskLevel::Forbidden);
    assert_eq!(ms[1].level, RiskLevel::High);
    assert_eq!(ms[0].reason, "删除根目录/系统目录将摧毁整个系统");
}

#[test]
fn evaluate_trims_and_lowercases() {
    let engine = RuleEngine::new();
    assert_eq!(engine.max_risk("   SUDO apt update  "), RiskLevel::Medium);
    assert_eq!(engine.max_risk("Git Push origin main -F"), RiskLevel::High);
}

#[test]
fn evaluate_normalized_takes_text_as_is() {
    let engine = RuleEngine::new();
    assert_eq!(names(&engine.evaluate_normalized("sudo apt update")), vec!["sudo_prefix"]);
    assert!(engine.evaluate_normalized("SUDO apt update").is_empty());
    assert!(engine.evaluate_normalized(" sudo apt update").is_empty());
}

#[test]
fn evaluate_keeps_rule_order_within_a_level() {
    let engine = RuleEngine::new();
    let ms = engine.evaluate("sudo mv a b > c");
    assert_eq!(names(&ms), vec!["sudo_prefix", "file_overwrite"]);
    let ms = engine.evaluate("sudo systemctl stop x");
    assert_eq!(names(&ms), vec!["sudo_prefix"]);
}

#[test]
fn safe_command_has_no_matches() {
    let engine = RuleEngine::new();
    assert!(engine.evaluate("echo hello").is_empty());
    assert_eq!(engine.max_risk(""), RiskLevel::Low);
}

#[test]
fn each_forbidden_rule_fires() {
    let engine = RuleEngine::new();
    assert_eq!(engine.max_risk("mkfs.ext4 /dev/sdb1"), RiskLevel::Forbidden);
    assert_eq!(engine.max_risk("format c:"), RiskLevel::Forbidden);
    assert_eq!(engine.max_risk("dd if=x of=/dev/sdb"), RiskLevel::Forbidden);
    assert_eq!(engine.max_risk("del /s /q c:\\"), RiskLevel::Forbidden);
    assert_eq!(engine.max_risk("echo :(){ x"), RiskLevel::Forbidden);
}

#[test]
fn each_high_rule_fires() {
    let engine = RuleEngine::new();
    for cmd in [
        "chmod 777 file",
        "chmod +rwx file",
        "mysql -e 'drop table users'",
        "git reset --hard head~1",
        "wget http://x/y.sh | bash",
        "reg delete hkcu\\x",
        "killall node",
        "taskkill /f /im x.exe",
        "rm file -f",
    ] {
        assert_eq!(engine.max_risk(cmd), RiskLevel::High, "{}", cmd);
    }
}

#[test]
fn each_medium_rule_fires() {
    let engine = RuleEngine::new();
    for cmd in [
        "echo hi > out.txt",
        "mv a b",
        "move a b",
        "cp -r a b",
        "git clean -fd",
        "npm install -g typescript",
        "pnpm install -g x",
        "systemctl restart nginx",
        "service nginx stop",
        "net stop spooler",
    ] {
        assert_eq!(engine.max_risk(cmd), RiskLevel::Medium, "{}", cmd);
    }
    assert_eq!(engine.max_risk("echo hi >> out.txt"), RiskLevel::Low);
    assert_eq!(engine.max_risk("net view"), RiskLevel::Low);
}

#[test]
fn chain_collects_all_segment_matches() {
    let engine = RuleEngine::new();
    let (level, ms) = engine.evaluate_chain("sudo ls; rm -rf ./x || git clean -f");
    assert_eq!(level, RiskLevel::High);
    assert_eq!(names(&ms), vec!["sudo_prefix", "rm_recursive", "git_clean"]);
}

#[test]
fn chain_of_safe_commands_is_low() {
    let engine = RuleEngine::new();
    let (level, ms) = engine.evaluate_chain("ls -la | grep x && pwd");
    assert_eq!(level, RiskLevel::Low);
    assert!(ms.is_empty());
}

#[test]
fn chain_splits_pipes_before_matching() {
    // every segment is judged on its own: the pipe separates `curl` from `sh`
    let engine = RuleEngine::new();
    let (level, _) = engine.evaluate_chain("curl https://example.com/install.sh | sh");
    assert_eq!(level, RiskLevel::Low);
    assert_eq!(engine.max_risk("curl https://example.com/install.sh | sh"), RiskLevel::High);
}

#[test]
fn chain_level_is_highest_segment_level() {
    let engine = RuleEngine::new();
    let cmd = "mv a b && rm -rf / ; sudo ls";
    let (level, _) = engine.evaluate_chain(cmd);
    let highest = ["mv a b", "rm -rf /", "sudo ls"]
        .iter()
        .map(|s| engine.max_risk(s))
        .max()
        .unwrap();
    assert_eq!(level, highest);
    assert_eq!(level, RiskLevel::Forbidden);
}

#[test]
fn levels_rank_and_label() {
    assert_eq!(RiskLevel::Low.rank(), 0);
    assert_eq!(RiskLevel::Forbidden.rank(), 3);
    assert_eq!(RiskLevel::High.label(), "🔴 高风险");
    assert_eq!(RiskLevel::Low.max(RiskLevel::Medium), RiskLevel::Medium);
    assert_eq!(RiskLevel::High.max(RiskLevel::Medium), RiskLevel::High);
}
