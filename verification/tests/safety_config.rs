use shellm::ai::client::{chat_reply, chat_request, Json, Message, Role};
use shellm::ai::prompt::{
    execute_system_prompt, explain_system_prompt, system_info, EXECUTE_PROMPT_HEAD,
    EXECUTE_PROMPT_TAIL,
};
use shellm::cli::ConfigAction;
use shellm::commands::config::{apply_config_action, mask_api_key};
use shellm::config::AppConfig;
use shellm::error::AiError;
use shellm::safety::confirm::{
    confirm_step, extract_confirm_keyword, judge_keyword, judge_yes_no, ConfirmResult, ConfirmStep,
};
use shellm::safety::rules::RiskLevel;

#[test]
fn confirm_steps_per_level() {
    assert_eq!(confirm_step(RiskLevel::Low), ConfirmStep::Approve);
    assert_eq!(confirm_step(RiskLevel::Medium), ConfirmStep::AskYesNo);
    assert_eq!(confirm_step(RiskLevel::High), ConfirmStep::AskKeyword);
    assert_eq!(confirm_step(RiskLevel::Forbidden), ConfirmStep::Block);
}

#[test]
fn keyword_is_first_word() {
    assert_eq!(extract_confirm_keyword("  rm -rf ./build "), "rm");
    assert_eq!(extract_confirm_keyword("git"), "git");
    assert_eq!(extract_confirm_keyword("   "), "");
    assert_eq!(extract_confirm_keyword("chmod\t777 x"), "chmod");
}

#[test]
fn yes_no_answers() {
    assert_eq!(judge_yes_no("y"), ConfirmResult::Approved);
    assert_eq!(judge_yes_no(" YES \n"), ConfirmResult::Approved);
    assert_eq!(judge_yes_no("Y"), ConfirmResult::Approved);
    assert_eq!(judge_yes_no("no"), ConfirmResult::Rejected);
    assert_eq!(judge_yes_no(""), ConfirmResult::Rejected);
    assert_eq!(judge_yes_no("yess"), ConfirmResult::Rejected);
}

#[test]
fn keyword_answers() {
    let kw = extract_confirm_keyword("rm -rf ./build");
    assert_eq!(judge_keyword(&kw, &kw), ConfirmResult::Approved);
    assert_eq!(judge_keyword("  rm \n", "rm"), ConfirmResult::Approved);
    assert_eq!(judge_keyword("RM", "rm"), ConfirmResult::Rejected);
    assert_eq!(judge_keyword("", "rm"), ConfirmResult::Rejected);
}

#[test]
fn masks_api_keys() {
    assert_eq!(mask_api_key("sk-1234567890"), "*********7890");
    assert_eq!(mask_api_key("abcd"), "****");
    assert_eq!(mask_api_key("abc"), "***");
    assert_eq!(mask_api_key(""), "");
    assert_eq!(mask_api_key("abcde"), "*bcde");
}

#[test]
fn default_config() {
    let cfg = AppConfig::default();
    assert_eq!(cfg.api_key, None);
    assert_eq!(cfg.api_base.as_deref(), Some("https://api.openai.com"));
    assert_eq!(cfg.model.as_deref(), Some("gpt-3.5-turbo"));
    assert_eq!(cfg.language.as_deref(), Some("zh-CN"));
}

#[test]
fn config_actions() {
    let cfg = AppConfig::default();
    let c = apply_config_action(&cfg, &ConfigAction::SetKey, "  sk-abc \n").unwrap();
    assert_eq!(c.api_key.as_deref(), Some("sk-abc"));
    assert_eq!(c.model.as_deref(), Some("gpt-3.5-turbo"));
    let c = apply_config_action(&c, &ConfigAction::SetModel { model: "gpt-4o".to_string() }, "").unwrap();
    assert_eq!(c.model.as_deref(), Some("gpt-4o"));
    assert_eq!(c.api_key.as_deref(), Some("sk-abc"));
    let c = apply_config_action(&c, &ConfigAction::SetUrl { url: "http://localhost:8080".to_string() }, "").unwrap();
    assert_eq!(c.api_base.as_deref(), Some("http://localhost:8080"));
    assert!(apply_config_action(&c, &ConfigAction::Show, "").is_none());
    let r = apply_config_action(&c, &ConfigAction::Reset, "").unwrap();
    assert_eq!(r.api_key, None);
    assert_eq!(r.model.as_deref(), Some("gpt-3.5-turbo"));
}

#[test]
fn prompts_embed_system_info() {
    let info = system_info("linux", "x86_64", "Bash");
    assert_eq!(info, "The user is running on linux (x86_64) with Bash.");
    let p = execute_system_prompt(&info);
    assert_eq!(p, format!("{}{}{}", EXECUTE_PROMPT_HEAD, info, EXECUTE_PROMPT_TAIL));
    assert!(p.starts_with("You are a shell command generator.\nThe user is running on linux"));
    assert!(p.ends_with("lsof -ti :3000 | xargs kill -9"));
    let e = explain_system_prompt(&info);
    assert!(e.starts_with("You are a helpful assistant that explains shell commands to the user.\nThe user"));
    assert!(e.ends_with("same language as the user's input."));
}

#[test]
fn chat_request_needs_a_key() {
    let cfg = AppConfig::default();
    let msgs = [Message::system("s"), Message::user("u")];
    assert_eq!(chat_request(&cfg, &msgs).err(), Some(AiError::MissingApiKey));
}

#[test]
fn chat_request_defaults_and_roles() {
    let cfg = AppConfig { api_key: Some("k".to_string()), api_base: None, model: None, language: None };
    let msgs = [Message::system("s"), Message::user("u"), Message::assistant("a")];
    let req = chat_request(&cfg, &msgs).ok().unwrap();
    assert_eq!(req.url, "https://api.openai.com/v1/chat/completions");
    assert_eq!(req.model, "gpt-3.5-turbo");
    assert_eq!(req.api_key, "k");
    let roles: Vec<&str> = req.messages.iter().map(|m| m.role).collect();
    assert_eq!(roles, vec!["system", "user", "assistant"]);
    assert_eq!(req.messages[1].content, "u");
    assert_eq!(Message::user("u").role, Role::User);
}

#[test]
fn chat_request_uses_configured_endpoint() {
    let cfg = AppConfig {
        api_key: Some("k".to_string()),
        api_base: Some("http://localhost:11434".to_string()),
        model: Some("llama3".to_string()),
        language: None,
    };
    let req = chat_request(&cfg, &[]).ok().unwrap();
    assert_eq!(req.url, "http://localhost:11434/v1/chat/completions");
    assert_eq!(req.model, "llama3");
    assert!(req.messages.is_empty());
}

fn obj(members: Vec<(&str, Json)>) -> Json {
    Json::Object(members.into_iter().map(|(k, v)| (k.to_string(), v)).collect())
}

fn answer(content: Json) -> Json {
    obj(vec![
        ("id", Json::Str("x".to_string())),
        (
            "choices",
            Json::Array(vec![
                obj(vec![("message", obj(vec![("role", Json::Str("assistant".to_string())), ("content", content)]))]),
                obj(vec![("message", obj(vec![("content", Json::Str("second".to_string()))]))]),
            ]),
        ),
    ])
}

#[test]
fn chat_reply_reads_first_choice_content() {
    assert_eq!(chat_reply(&answer(Json::Str("ls -la".to_string())), "raw".to_string()), Ok("ls -la".to_string()));
}

#[test]
fn chat_reply_without_content_is_invalid() {
    let missing = Err(AiError::InvalidResponse { reason: "missing content".to_string(), raw: "raw".to_string() });
    assert_eq!(chat_reply(&answer(Json::Null), "raw".to_string()), missing);
    assert_eq!(chat_reply(&answer(Json::Other), "raw".to_string()), missing);
    assert_eq!(chat_reply(&obj(vec![("choices", Json::Array(vec![]))]), "raw".to_string()), missing);
    assert_eq!(chat_reply(&Json::Array(vec![]), "raw".to_string()), missing);
    assert_eq!(chat_reply(&obj(vec![]), "raw".to_string()), missing);
}
