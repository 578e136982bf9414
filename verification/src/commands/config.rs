//! The decisions of the `config` subcommand: how an action changes the
//! configuration, and how the API key is shown.
use vstd::prelude::*;

use vstd::string::StringSliceAdditionalSpecFns;
use vstd::utf8::{encode_utf8, is_char_boundary};

use crate::cli::ConfigAction;
use crate::config::{copy_opt, opt_view, AppConfig};
use crate::text::{append_str, chars_of, to_string, trim, trim_chars};

verus! {

/// The bytes shown for an API key of bytes `b`: all stars when it has at
/// most four bytes, otherwise a star for every byte but the last four, then
/// those four bytes.
pub open spec fn masked_key_bytes(b: Seq<u8>) -> Seq<u8> {
    if b.len() <= 4 {
        Seq::new(b.len(), |i: int| 42u8)
    } else {
        Seq::new((b.len() - 4) as nat, |i: int| 42u8) + b.subrange(b.len() - 4, b.len() as int)
    }
}

/// `n` stars.
pub open spec fn stars(n: nat) -> Seq<char> {
    Seq::new(n, |i: int| '*')
}

/// UTF-8 encoding distributes over concatenation.
proof fn lemma_encode_concat(a: Seq<char>, b: Seq<char>)
    ensures
        encode_utf8(a + b) == encode_utf8(a) + encode_utf8(b),
    decreases a.len(),
{
    if a.len() > 0 {
        assert((a + b).drop_first() =~= a.drop_first() + b);
        assert((a + b)[0] == a[0]);
        lemma_encode_concat(a.drop_first(), b);
        assert(encode_utf8(a + b) =~= encode_utf8(a) + encode_utf8(b));
    } else {
        assert(a + b =~= b);
        assert(encode_utf8(a) =~= seq![]);
        assert(encode_utf8(a) + encode_utf8(b) =~= encode_utf8(b));
    }
}

/// Stars encode to one `*` byte each.
proof fn lemma_encode_stars(n: nat)
    ensures
        encode_utf8(stars(n)) == Seq::new(n, |i: int| 42u8),
    decreases n,
{
    if n > 0 {
        assert(stars(n).drop_first() =~= stars((n - 1) as nat));
        lemma_encode_stars((n - 1) as nat);
        let c: u32 = 42;
        assert(('*' as u32) == 42u32);
        assert((c & 0x7F) as u8 == 42u8) by (bit_vector)
            requires
                c == 42u32,
        ;
        assert(encode_utf8(stars(n)) =~= Seq::new(n, |i: int| 42u8));
    } else {
        assert(encode_utf8(stars(n)) =~= Seq::new(n, |i: int| 42u8));
    }
}

/// Appends `n` stars.
fn push_stars(v: &mut Vec<char>, n: usize)
    ensures
        final(v)@ == old(v)@ + stars(n as nat),
{
    let mut k: usize = 0;
    while k < n
        invariant
            k <= n,
            v@ == old(v)@ + stars(k as nat),
        decreases n - k,
    {
        v.push('*');
        k = k + 1;
        assert(v@ =~= old(v)@ + stars(k as nat));
    }
}

/// The API key as `config show` prints it: stars for every byte but the
/// last four, which are shown; all stars for a key of at most four bytes.
/// For a longer key the last four bytes must start a character (the slice
/// taken there would panic otherwise).
pub fn mask_api_key(key: &str) -> (r: String)
    requires
        key.spec_bytes().len() <= 4 || is_char_boundary(
            key.spec_bytes(),
            key.spec_bytes().len() - 4,
        ),
    ensures
        encode_utf8(r@) == masked_key_bytes(key.spec_bytes()),
{
    let n = key.as_bytes().len();
    let mut v: Vec<char> = Vec::new();
    if n <= 4 {
        push_stars(&mut v, n);
        proof {
            assert(v@ =~= stars(n as nat));
            lemma_encode_stars(n as nat);
        }
    } else {
        push_stars(&mut v, n - 4);
        let (_, tail) = key.split_at(n - 4);
        append_str(&mut v, tail);
        proof {
            assert(v@ =~= stars((n - 4) as nat) + tail@);
            lemma_encode_concat(stars((n - 4) as nat), tail@);
            lemma_encode_stars((n - 4) as nat);
        }
    }
    to_string(&v)
}

/// The configuration after an action; `None` for `Show`, which changes nothing.
/// `SetKey` stores the trimmed text the user entered, `SetModel` and `SetUrl`
/// store the given value, `Reset` goes back to the defaults.
pub open spec fn config_after(cfg: AppConfig, action: ConfigAction, entered_key: Seq<char>) -> Option<
    (Option<Seq<char>>, Option<Seq<char>>, Option<Seq<char>>, Option<Seq<char>>),
> {
    let now = (opt_view(cfg.api_key), opt_view(cfg.api_base), opt_view(cfg.model), opt_view(
        cfg.language,
    ));
    match action {
        ConfigAction::SetKey => Some((Some(trim(entered_key)), now.1, now.2, now.3)),
        ConfigAction::SetModel { model } => Some((now.0, now.1, Some(model@), now.3)),
        ConfigAction::SetUrl { url } => Some((now.0, Some(url@), now.2, now.3)),
        ConfigAction::Show => None,
        ConfigAction::Reset => Some(
            (None, Some("https://api.openai.com"@), Some("gpt-3.5-turbo"@), Some("zh-CN"@)),
        ),
    }
}

/// The settings of a configuration: key, API base, model, language.
pub open spec fn settings(cfg: AppConfig) -> (
    Option<Seq<char>>,
    Option<Seq<char>>,
    Option<Seq<char>>,
    Option<Seq<char>>,
) {
    (opt_view(cfg.api_key), opt_view(cfg.api_base), opt_view(cfg.model), opt_view(cfg.language))
}

/// The configuration to save after an action (`None` for `Show`); for
/// `SetKey`, `entered_key` is the line the user typed.
pub fn apply_config_action(cfg: &AppConfig, action: &ConfigAction, entered_key: &str) -> (r: Option<
    AppConfig,
>)
    ensures
        match r {
            Some(c) => config_after(*cfg, *action, entered_key@) == Some(settings(c)),
            None => config_after(*cfg, *action, entered_key@) is None,
        },
{
    match action {
        ConfigAction::SetKey => {
            let raw = chars_of(entered_key);
            let key = trim_chars(&raw);
            Some(
                AppConfig {
                    api_key: Some(to_string(&key)),
                    api_base: copy_opt(&cfg.api_base),
                    model: copy_opt(&cfg.model),
                    language: copy_opt(&cfg.language),
                },
            )
        },
        ConfigAction::SetModel { model } => Some(
            AppConfig {
                api_key: copy_opt(&cfg.api_key),
                api_base: copy_opt(&cfg.api_base),
                model: Some(model.clone()),
                language: copy_opt(&cfg.language),
            },
        ),
        ConfigAction::SetUrl { url } => Some(
            AppConfig {
                api_key: copy_opt(&cfg.api_key),
                api_base: Some(url.clone()),
                model: copy_opt(&cfg.model),
                language: copy_opt(&cfg.language),
            },
        ),
        ConfigAction::Show => None,
        ConfigAction::Reset => Some(AppConfig::default()),
    }
}


/// Law: what each action does to the settings (key, API base, model,
/// language). `reset` gives no key, `https://api.openai.com`,
/// `gpt-3.5-turbo` and `zh-CN`, whatever the settings were; `set-key`
/// stores the trimmed entered key and keeps the rest; `set-model` and
/// `set-url` replace only the model or only the API base; `show` changes
/// nothing and saves nothing.
pub proof fn law_config_actions(
    cfg: AppConfig,
    other: AppConfig,
    entered_key: Seq<char>,
    model: String,
    url: String,
)
    ensures
        config_after(cfg, ConfigAction::Reset, entered_key) == Some(
            (
                None::<Seq<char>>,
                Some("https://api.openai.com"@),
                Some("gpt-3.5-turbo"@),
                Some("zh-CN"@),
            ),
        ),
        config_after(cfg, ConfigAction::Reset, entered_key) == config_after(
            other,
            ConfigAction::Reset,
            entered_key,
        ),
        config_after(cfg, ConfigAction::SetKey, entered_key) == Some(
            (
                Some(trim(entered_key)),
                opt_view(cfg.api_base),
                opt_view(cfg.model),
                opt_view(cfg.language),
            ),
        ),
        config_after(cfg, ConfigAction::SetModel { model }, entered_key) == Some(
            (opt_view(cfg.api_key), opt_view(cfg.api_base), Some(model@), opt_view(cfg.language)),
        ),
        config_after(cfg, ConfigAction::SetUrl { url }, entered_key) == Some(
            (opt_view(cfg.api_key), Some(url@), opt_view(cfg.model), opt_view(cfg.language)),
        ),
        config_after(cfg, ConfigAction::Show, entered_key) is None,
{
}


/// Law: the shown key has as many bytes as the key; every byte is `*`
/// except, for a key longer than four bytes, the last four, which are the
/// key's own last four bytes.
pub proof fn law_masked_key(b: Seq<u8>)
    ensures
        masked_key_bytes(b).len() == b.len(),
        forall|i: int|
            0 <= i < b.len() ==> (#[trigger] masked_key_bytes(b)[i]) == if b.len() > 4 && i
                >= b.len() - 4 {
                b[i]
            } else {
                42u8
            },
{
    let m = masked_key_bytes(b);
    assert forall|i: int| 0 <= i < b.len() implies (#[trigger] masked_key_bytes(b)[i]) == if b.len()
        > 4 && i >= b.len() - 4 {
        b[i]
    } else {
        42u8
    } by {
        if b.len() > 4 {
            let head = Seq::new((b.len() - 4) as nat, |j: int| 42u8);
            if i >= b.len() - 4 {
                assert(m[i] == b.subrange(b.len() - 4, b.len() as int)[i - head.len()]);
            } else {
                assert(m[i] == head[i]);
            }
        }
    }
}

} // verus!
