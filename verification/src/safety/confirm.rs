//! Confirmation decisions: what each risk level asks of the user, and how the
//! user's answer is judged. Showing the warnings and reading the answer is
//! left to the caller.
use vstd::prelude::*;

use crate::safety::rules::RiskLevel;
use crate::text::{
    chars_of, is_whitespace, is_ws, lowercase, same_chars, slice_chars, to_lowercase, to_string,
    trim, trim_chars,
};

verus! {

/// Outcome of a confirmation.
#[derive(Debug, Clone, Copy, PartialEq, Eq, Structural)]
pub enum ConfirmResult {
    /// The user agreed to run the command.
    Approved,
    /// The user declined.
    Rejected,
    /// The rules block the command; the user is not asked.
    Blocked,
}

/// What a risk level asks of the user before a command runs.
#[derive(Debug, Clone, Copy, PartialEq, Eq, Structural)]
pub enum ConfirmStep {
    /// Run directly.
    Approve,
    /// Ask a yes/no question.
    AskYesNo,
    /// Ask the user to type the first word of the command.
    AskKeyword,
    /// Refuse without asking.
    Block,
}

/// Low runs directly, Medium asks yes/no, High asks for the keyword, Forbidden is blocked.
pub open spec fn spec_confirm_step(level: RiskLevel) -> ConfirmStep {
    match level {
        RiskLevel::Low => ConfirmStep::Approve,
        RiskLevel::Medium => ConfirmStep::AskYesNo,
        RiskLevel::High => ConfirmStep::AskKeyword,
        RiskLevel::Forbidden => ConfirmStep::Block,
    }
}

/// What the given risk level asks of the user.
pub fn confirm_step(level: RiskLevel) -> (r: ConfirmStep)
    ensures
        r == spec_confirm_step(level),
{
    match level {
        RiskLevel::Low => ConfirmStep::Approve,
        RiskLevel::Medium => ConfirmStep::AskYesNo,
        RiskLevel::High => ConfirmStep::AskKeyword,
        RiskLevel::Forbidden => ConfirmStep::Block,
    }
}

/// The characters of `t` before its first whitespace.
pub open spec fn first_word(t: Seq<char>) -> Seq<char>
    decreases t.len(),
{
    if t.len() == 0 || is_ws(t[0]) {
        seq![]
    } else {
        seq![t[0]] + first_word(t.drop_first())
    }
}

/// `first_word` is the prefix up to the first whitespace.
proof fn lemma_first_word(t: Seq<char>, k: int)
    requires
        0 <= k <= t.len(),
        forall|i: int| 0 <= i < k ==> !is_ws(#[trigger] t[i]),
        k == t.len() || is_ws(t[k]),
    ensures
        first_word(t) == t.take(k),
    decreases k,
{
    if k > 0 {
        let d = t.drop_first();
        assert forall|i: int| 0 <= i < k - 1 implies !is_ws(#[trigger] d[i]) by {
            assert(d[i] == t[i + 1]);
        }
        if k < t.len() {
            assert(d[k - 1] == t[k]);
        }
        lemma_first_word(d, k - 1);
        assert(t.take(k) =~= seq![t[0]] + d.take(k - 1));
    } else {
        assert(t.take(0) =~= seq![]);
    }
}

/// The word the user must type to confirm a high-risk command: the first
/// whitespace-separated word of the trimmed command (empty for a blank command).
pub fn extract_confirm_keyword(command: &str) -> (r: String)
    ensures
        r@ == first_word(trim(command@)),
{
    let raw = chars_of(command);
    let t = trim_chars(&raw);
    let n = t.len();
    let mut k: usize = 0;
    while k < n && !is_whitespace(t[k])
        invariant
            k <= n,
            n == t@.len(),
            forall|i: int| 0 <= i < k ==> !is_ws(#[trigger] t@[i]),
        decreases n - k,
    {
        k = k + 1;
    }
    proof {
        lemma_first_word(t@, k as int);
    }
    let w = slice_chars(&t, 0, k);
    assert(w@ =~= t@.take(k as int));
    to_string(&w)
}

/// A yes/no answer approves exactly when, trimmed and lower-cased, it is `y` or `yes`.
pub open spec fn spec_judge_yes_no(answer: Seq<char>) -> ConfirmResult {
    let a = lowercase(trim(answer));
    if a == "y"@ || a == "yes"@ {
        ConfirmResult::Approved
    } else {
        ConfirmResult::Rejected
    }
}

/// Judges the answer to the yes/no question.
pub fn judge_yes_no(answer: &str) -> (r: ConfirmResult)
    ensures
        r == spec_judge_yes_no(answer@),
{
    let raw = chars_of(answer);
    let t = trim_chars(&raw);
    let a = to_lowercase(&t);
    let y = chars_of("y");
    let yes = chars_of("yes");
    if same_chars(&a, &y) || same_chars(&a, &yes) {
        ConfirmResult::Approved
    } else {
        ConfirmResult::Rejected
    }
}

/// A typed keyword approves exactly when, trimmed, it equals the expected keyword.
pub open spec fn spec_judge_keyword(answer: Seq<char>, keyword: Seq<char>) -> ConfirmResult {
    if trim(answer) == keyword {
        ConfirmResult::Approved
    } else {
        ConfirmResult::Rejected
    }
}

/// Judges the keyword typed to confirm a high-risk command.
pub fn judge_keyword(answer: &str, keyword: &str) -> (r: ConfirmResult)
    ensures
        r == spec_judge_keyword(answer@, keyword@),
{
    let raw = chars_of(answer);
    let t = trim_chars(&raw);
    let k = chars_of(keyword);
    if same_chars(&t, &k) {
        ConfirmResult::Approved
    } else {
        ConfirmResult::Rejected
    }
}

/// Every character of a first word is not whitespace.
proof fn lemma_first_word_no_ws(t: Seq<char>)
    ensures
        forall|i: int| 0 <= i < first_word(t).len() ==> !is_ws(#[trigger] first_word(t)[i]),
    decreases t.len(),
{
    if t.len() > 0 && !is_ws(t[0]) {
        lemma_first_word_no_ws(t.drop_first());
        let w = first_word(t);
        assert forall|i: int| 0 <= i < w.len() implies !is_ws(#[trigger] w[i]) by {
            if i > 0 {
                assert(w[i] == first_word(t.drop_first())[i - 1]);
            }
        }
    }
}

/// Law: typing exactly the keyword that is shown for a command confirms it,
/// with or without surrounding whitespace.
pub proof fn law_typed_keyword_confirms(command: Seq<char>, answer: Seq<char>)
    requires
        trim(answer) == first_word(trim(command)),
    ensures
        spec_judge_keyword(answer, first_word(trim(command))) == ConfirmResult::Approved,
        spec_judge_keyword(first_word(trim(command)), first_word(trim(command)))
            == ConfirmResult::Approved,
{
    let w = first_word(trim(command));
    lemma_first_word_no_ws(trim(command));
    if w.len() > 0 {
        assert(!is_ws(w[0]));
        assert(!is_ws(w[w.len() - 1]));
    }
    crate::text::lemma_trim_fixed(w);
}

/// Law: a judged answer never blocks; only the rules block, and only Forbidden ones.
pub proof fn law_only_forbidden_blocks(level: RiskLevel, answer: Seq<char>, keyword: Seq<char>)
    ensures
        spec_judge_yes_no(answer) != ConfirmResult::Blocked,
        spec_judge_keyword(answer, keyword) != ConfirmResult::Blocked,
        (spec_confirm_step(level) == ConfirmStep::Block) <==> level == RiskLevel::Forbidden,
        (spec_confirm_step(level) == ConfirmStep::Approve) <==> level == RiskLevel::Low,
{
}


/// Law: a yes/no answer approves exactly when, trimmed and lower-cased, it is
/// `y` or `yes`; a typed keyword approves exactly when, trimmed, it equals the
/// keyword. Every other answer rejects.
pub proof fn law_answers_approve_exactly(answer: Seq<char>, keyword: Seq<char>)
    ensures
        (spec_judge_yes_no(answer) == ConfirmResult::Approved) <==> (lowercase(trim(answer))
            == "y"@ || lowercase(trim(answer)) == "yes"@),
        spec_judge_yes_no(answer) != ConfirmResult::Approved ==> spec_judge_yes_no(answer)
            == ConfirmResult::Rejected,
        (spec_judge_keyword(answer, keyword) == ConfirmResult::Approved) <==> trim(answer)
            == keyword,
        trim(answer) != keyword ==> spec_judge_keyword(answer, keyword) == ConfirmResult::Rejected,
{
}

/// Law: the confirmation keyword of a command is its leading run of
/// non-whitespace characters, after trimming: a prefix of the trimmed
/// command with no whitespace in it, followed by whitespace or the end.
pub proof fn law_keyword_is_first_word(command: Seq<char>)
    ensures
        ({
            let t = trim(command);
            let w = first_word(t);
            &&& w.len() <= t.len()
            &&& w == t.take(w.len() as int)
            &&& forall|i: int| 0 <= i < w.len() ==> !is_ws(#[trigger] t[i])
            &&& (w.len() == t.len() || is_ws(t[w.len() as int]))
        }),
{
    let t = trim(command);
    let k = first_ws_position(t);
    lemma_first_word(t, k);
}

/// The position of the first whitespace of `t`, or its length when it has none.
proof fn first_ws_position(t: Seq<char>) -> (k: int)
    ensures
        0 <= k <= t.len(),
        forall|i: int| 0 <= i < k ==> !is_ws(#[trigger] t[i]),
        k == t.len() || is_ws(t[k]),
    decreases t.len(),
{
    if t.len() == 0 || is_ws(t[0]) {
        0
    } else {
        let k = first_ws_position(t.drop_first());
        assert forall|i: int| 0 <= i < k + 1 implies !is_ws(#[trigger] t[i]) by {
            if i > 0 {
                assert(t[i] == t.drop_first()[i - 1]);
            }
        }
        if k < t.len() - 1 {
            assert(t[k + 1] == t.drop_first()[k]);
        }
        k + 1
    }
}

} // verus!
