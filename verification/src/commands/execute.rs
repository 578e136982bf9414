//! Turning the model's answer into one command line, and the decisions of
//! the execute flow that do not need the model or the shell.
use vstd::prelude::*;

use crate::safety::confirm::{
    law_answers_approve_exactly, confirm_step, extract_confirm_keyword, first_word, judge_keyword, judge_yes_no,
    spec_confirm_step, spec_judge_keyword, spec_judge_yes_no, ConfirmResult, ConfirmStep,
};
use crate::safety::rules::{higher, RiskLevel};
use crate::text::{
    chars_of, occurs_at_exec, slice_chars, split, split_chars, starts_with, strip_all,
    strip_all_chars, to_string, trim, trim_chars, views, lowercase,
};

verus! {

/// The lines in which the command is looked for. When `s` starts with three
/// backticks, the text after them up to the next three backticks (or to the
/// end) is a fenced block whose first line, when the block has more than one,
/// is its language tag and is skipped; otherwise all lines of `s`.
pub open spec fn command_lines(s: Seq<char>) -> Seq<Seq<char>> {
    if starts_with(s, "```"@) {
        let ls = split(split(s.skip("```"@.len() as int), "```"@)[0], "\n"@);
        if ls.len() > 1 {
            ls.drop_first()
        } else {
            ls
        }
    } else {
        split(s, "\n"@)
    }
}

/// The first line that, trimmed, is neither empty nor a `#` comment, trimmed;
/// empty when there is none.
pub open spec fn first_command_line(lines: Seq<Seq<char>>) -> Seq<char>
    decreases lines.len(),
{
    if lines.len() == 0 {
        seq![]
    } else {
        let t = trim(lines[0]);
        if t.len() > 0 && t[0] != '#' {
            t
        } else {
            first_command_line(lines.drop_first())
        }
    }
}

/// The command found in a raw model answer: the answer is trimmed, a leading
/// fenced block is unwrapped (its language line skipped), the first
/// non-empty non-comment line is taken,
/// leading `$ ` and then `> ` prompts are removed, and the rest is trimmed.
pub open spec fn spec_extract_command(raw: Seq<char>) -> Seq<char> {
    let line = first_command_line(command_lines(trim(raw)));
    trim(strip_all(strip_all(line, "$ "@), "> "@))
}

/// The first piece, from index `k` on, that is a command line, trimmed.
proof fn lemma_first_from(lines: Seq<Seq<char>>, k: int)
    requires
        0 <= k < lines.len(),
    ensures
        first_command_line(lines.skip(k)) == if trim(lines[k]).len() > 0 && trim(lines[k])[0]
            != '#' {
            trim(lines[k])
        } else {
            first_command_line(lines.skip(k + 1))
        },
{
    assert(lines.skip(k)[0] == lines[k]);
    assert(lines.skip(k).drop_first() =~= lines.skip(k + 1));
}

/// Extracts the command to run from the model's answer; empty when the answer holds none.
pub fn extract_command(raw: &str) -> (r: String)
    ensures
        r@ == spec_extract_command(raw@),
{
    let raw_chars = chars_of(raw);
    let s = trim_chars(&raw_chars);
    let fence = chars_of("```");
    proof {
        reveal_strlit("```");
        reveal_strlit("\n");
        reveal_strlit("$ ");
        reveal_strlit("> ");
    }
    let fenced = occurs_at_exec(&s, &fence, 0);
    let body = if fenced {
        let rest = slice_chars(&s, 3, s.len());
        assert(rest@ =~= s@.skip(3));
        let pieces = split_chars(&rest, &fence);
        proof {
            assert(split(rest@, fence@).len() > 0) by {
                lemma_split_nonempty(rest@, fence@, 0, 0);
            }
        }
        let first = slice_chars(&pieces[0], 0, pieces[0].len());
        assert(first@ =~= views(pieces@)[0]);
        first
    } else {
        s
    };
    let newline = chars_of("\n");
    let lines = split_chars(&body, &newline);
    let ghost all = views(lines@);
    let n = lines.len();
    // in a fenced block of several lines, the first one is the language tag
    let skip: usize = if fenced && n > 1 { 1 } else { 0 };
    let ghost ls = all.skip(skip as int);
    assert(ls == command_lines(s@)) by {
        if fenced && n > 1 {
            assert(all.skip(1) =~= all.drop_first());
        } else {
            assert(all.skip(0) =~= all);
        }
    }
    let mut line: Vec<char> = Vec::new();
    let mut k: usize = skip;
    proof {
        assert(ls.skip(0) =~= ls);
    }
    loop
        invariant
            skip <= k <= n,
            n == all.len(),
            all == views(lines@),
            ls == all.skip(skip as int),
            first_command_line(ls) == first_command_line(ls.skip(k - skip)),
        ensures
            line@ == first_command_line(ls),
        decreases n - k,
    {
        if k == n {
            assert(ls.skip(n - skip).len() == 0);
            line = Vec::new();
            break;
        }
        let t = trim_chars(&lines[k]);
        proof {
            lemma_first_from(ls, k - skip);
            assert(ls[k - skip] == all[k as int]);
            assert(ls.skip(k - skip + 1) =~= ls.skip((k + 1) - skip));
        }
        if t.len() > 0 && t[0] != '#' {
            line = t;
            break;
        }
        k = k + 1;
    }
    let dollar = chars_of("$ ");
    let angle = chars_of("> ");
    let a = strip_all_chars(&line, &dollar);
    let b = strip_all_chars(&a, &angle);
    let c = trim_chars(&b);
    to_string(&c)
}

/// `split` always yields at least one piece.
proof fn lemma_split_nonempty(s: Seq<char>, sep: Seq<char>, start: int, i: int)
    ensures
        crate::text::split_from(s, sep, start, i).len() > 0,
    decreases s.len() - i,
{
    if sep.len() == 0 || i < 0 || i + sep.len() > s.len() {
    } else if s.subrange(i, i + sep.len()) == sep {
    } else {
        lemma_split_nonempty(s, sep, start, i + 1);
    }
}

/// Whether the rules' level calls for an assessment by the model (Medium or above).
pub fn needs_ai_assessment(rule_level: RiskLevel) -> (r: bool)
    ensures
        r == (rule_level.spec_rank() >= 1),
{
    rule_level.rank() >= 1
}

/// The level that decides the confirmation: the higher of the rules' level
/// and the model's level (`Low` when the model gave none).
pub fn final_level(rule_level: RiskLevel, ai_level: Option<RiskLevel>) -> (r: RiskLevel)
    ensures
        r == match ai_level {
            Some(l) => higher(rule_level, l),
            None => rule_level,
        },
{
    match ai_level {
        Some(l) => rule_level.max(l),
        None => rule_level,
    }
}

/// Law: the model's assessment can raise the level but never lower it.
pub proof fn law_assessment_never_lowers(rule_level: RiskLevel, ai_level: RiskLevel)
    ensures
        higher(rule_level, ai_level).spec_rank() >= rule_level.spec_rank(),
        higher(rule_level, ai_level).spec_rank() >= ai_level.spec_rank(),
        higher(rule_level, ai_level) == rule_level || higher(rule_level, ai_level) == ai_level,
{
}


/// The next step of running a proposed command.
#[derive(Debug)]
pub enum ExecAction {
    /// There is no command to run.
    NothingToRun,
    /// Run the command now.
    Run,
    /// Ask the yes/no question, then judge the answer.
    AskYesNo,
    /// Ask the user to type this keyword, then judge the answer.
    AskKeyword(String),
    /// The user declined; the command does not run.
    Cancel,
    /// The rules forbid the command; it does not run and nobody is asked.
    Block,
}

/// A step of running a command as the specifications see it.
pub enum ActionSpec {
    NothingToRun,
    Run,
    AskYesNo,
    AskKeyword(Seq<char>),
    Cancel,
    Block,
}

impl View for ExecAction {
    type V = ActionSpec;

    open spec fn view(&self) -> ActionSpec {
        match self {
            ExecAction::NothingToRun => ActionSpec::NothingToRun,
            ExecAction::Run => ActionSpec::Run,
            ExecAction::AskYesNo => ActionSpec::AskYesNo,
            ExecAction::AskKeyword(k) => ActionSpec::AskKeyword(k@),
            ExecAction::Cancel => ActionSpec::Cancel,
            ExecAction::Block => ActionSpec::Block,
        }
    }
}

/// The first step for an extracted command at a risk level: nothing for an
/// empty command; otherwise run a `Low` one, ask yes/no for `Medium`, ask for
/// the command's first word for `High`, and block a `Forbidden` one.
pub open spec fn spec_first_action(command: Seq<char>, level: RiskLevel) -> ActionSpec {
    if command.len() == 0 {
        ActionSpec::NothingToRun
    } else {
        match spec_confirm_step(level) {
            ConfirmStep::Approve => ActionSpec::Run,
            ConfirmStep::AskYesNo => ActionSpec::AskYesNo,
            ConfirmStep::AskKeyword => ActionSpec::AskKeyword(first_word(trim(command))),
            ConfirmStep::Block => ActionSpec::Block,
        }
    }
}

/// The step after the user answered the question of `asked`: run on an
/// approving answer, cancel otherwise; a step that asked nothing stays as it is.
pub open spec fn spec_answer_action(asked: ActionSpec, answer: Seq<char>) -> ActionSpec {
    match asked {
        ActionSpec::AskYesNo => if spec_judge_yes_no(answer) == ConfirmResult::Approved {
            ActionSpec::Run
        } else {
            ActionSpec::Cancel
        },
        ActionSpec::AskKeyword(k) => if spec_judge_keyword(answer, k) == ConfirmResult::Approved {
            ActionSpec::Run
        } else {
            ActionSpec::Cancel
        },
        other => other,
    }
}

/// The first step of running the extracted `command` at `level`.
pub fn first_action(command: &str, level: RiskLevel) -> (r: ExecAction)
    ensures
        r@ == spec_first_action(command@, level),
{
    let c = chars_of(command);
    if c.len() == 0 {
        return ExecAction::NothingToRun;
    }
    match confirm_step(level) {
        ConfirmStep::Approve => ExecAction::Run,
        ConfirmStep::AskYesNo => ExecAction::AskYesNo,
        ConfirmStep::AskKeyword => ExecAction::AskKeyword(extract_confirm_keyword(command)),
        ConfirmStep::Block => ExecAction::Block,
    }
}

/// The step after the user gave `answer` to the question that `asked` posed.
pub fn answer_action(asked: &ExecAction, answer: &str) -> (r: ExecAction)
    ensures
        r@ == spec_answer_action(asked@, answer@),
{
    match asked {
        ExecAction::AskYesNo => match judge_yes_no(answer) {
            ConfirmResult::Approved => ExecAction::Run,
            _ => ExecAction::Cancel,
        },
        ExecAction::AskKeyword(k) => match judge_keyword(answer, k.as_str()) {
            ConfirmResult::Approved => ExecAction::Run,
            _ => ExecAction::Cancel,
        },
        ExecAction::NothingToRun => ExecAction::NothingToRun,
        ExecAction::Run => ExecAction::Run,
        ExecAction::Cancel => ExecAction::Cancel,
        ExecAction::Block => ExecAction::Block,
    }
}

/// Law: a command runs only when it is not empty and either its level is
/// `Low` or the user's answer approves it: yes/no for `Medium`, the typed
/// first word for `High`. A `Forbidden` command never runs, whatever the
/// answer, and the user is not asked.
pub proof fn law_runs_only_when_approved(command: Seq<char>, level: RiskLevel, answer: Seq<char>)
    ensures
        (spec_first_action(command, level) == ActionSpec::Run) <==> (command.len() > 0 && level
            == RiskLevel::Low),
        (spec_answer_action(spec_first_action(command, level), answer) == ActionSpec::Run) <==> (
        command.len() > 0 && (level == RiskLevel::Low || (level == RiskLevel::Medium
            && spec_judge_yes_no(answer) == ConfirmResult::Approved) || (level == RiskLevel::High
            && spec_judge_keyword(answer, first_word(trim(command))) == ConfirmResult::Approved))),
        command.len() > 0 && level == RiskLevel::Forbidden ==> spec_first_action(command, level)
            == ActionSpec::Block && spec_answer_action(spec_first_action(command, level), answer)
            == ActionSpec::Block,
        command.len() == 0 ==> spec_answer_action(spec_first_action(command, level), answer)
            == ActionSpec::NothingToRun,
{
}


/// Law: what the user's answer does to a proposed command, stated on the
/// answer's text. A non-empty `High` command runs exactly when the trimmed
/// answer equals the command's first word (so `y` or `yes` cancel it unless
/// that is the command's first word); a non-empty `Medium` command runs
/// exactly when the trimmed, lower-cased answer is `y` or `yes`; a non-empty
/// `Low` command runs without a question; a `Forbidden` or empty command never runs.
pub proof fn law_answer_decides_run(command: Seq<char>, answer: Seq<char>)
    ensures
        command.len() > 0 ==> spec_first_action(command, RiskLevel::High)
            == ActionSpec::AskKeyword(first_word(trim(command))),
        (spec_answer_action(spec_first_action(command, RiskLevel::High), answer)
            == ActionSpec::Run) <==> (command.len() > 0 && trim(answer) == first_word(
            trim(command),
        )),
        command.len() > 0 && trim(answer) != first_word(trim(command)) ==> spec_answer_action(
            spec_first_action(command, RiskLevel::High),
            answer,
        ) == ActionSpec::Cancel,
        (spec_answer_action(spec_first_action(command, RiskLevel::Medium), answer)
            == ActionSpec::Run) <==> (command.len() > 0 && (lowercase(trim(answer)) == "y"@
            || lowercase(trim(answer)) == "yes"@)),
        command.len() > 0 ==> spec_first_action(command, RiskLevel::Medium)
            == ActionSpec::AskYesNo && spec_first_action(command, RiskLevel::Low)
            == ActionSpec::Run && spec_first_action(command, RiskLevel::Forbidden)
            == ActionSpec::Block,
        spec_answer_action(spec_first_action(command, RiskLevel::Forbidden), answer)
            != ActionSpec::Run,
        command.len() == 0 ==> spec_first_action(command, RiskLevel::Low)
            == ActionSpec::NothingToRun,
{
    law_answers_approve_exactly(answer, first_word(trim(command)));
}


/// A line that holds a command: trimmed, it is not empty and does not start with `#`.
pub open spec fn holds_command(line: Seq<char>) -> bool {
    trim(line).len() > 0 && trim(line)[0] != '#'
}

/// The first line from index `from` on that holds a command decides the pick.
proof fn lemma_first_holding(lines: Seq<Seq<char>>, from: int, k: int)
    requires
        0 <= from <= lines.len(),
        from <= k <= lines.len(),
        forall|j: int| from <= j < k ==> !holds_command(#[trigger] lines[j]),
        k < lines.len() ==> holds_command(lines[k]),
    ensures
        first_command_line(lines.skip(from)) == if k < lines.len() {
            trim(lines[k])
        } else {
            seq![]
        },
    decreases k - from,
{
    if from == lines.len() {
        assert(lines.skip(from).len() == 0);
    } else {
        lemma_first_from(lines, from);
        if from < k {
            assert(!holds_command(lines[from]));
            lemma_first_holding(lines, from + 1, k);
        }
    }
}

/// Law: the command taken from an answer. With `s` the trimmed answer and
/// `lines` its lines (for an answer opening a ``` fence, the lines of the
/// fenced block without its first line when the block has several), the
/// command is the first line that holds a command, trimmed, with leading
/// `$ ` and then `> ` prompts removed and trimmed again; it is empty when no
/// line holds a command. In particular, for an answer without a fence whose
/// first line holds a command, that line is the command.
pub proof fn law_extract_first_command_line(raw: Seq<char>, lines: Seq<Seq<char>>, k: int)
    requires
        lines == (if starts_with(trim(raw), "```"@) {
            let block = split(split(trim(raw).skip(3), "```"@)[0], "\n"@);
            if block.len() > 1 {
                block.skip(1)
            } else {
                block
            }
        } else {
            split(trim(raw), "\n"@)
        }),
        0 <= k <= lines.len(),
        forall|j: int| 0 <= j < k ==> !holds_command(#[trigger] lines[j]),
        k < lines.len() ==> holds_command(lines[k]),
    ensures
        spec_extract_command(raw) == if k < lines.len() {
            trim(strip_all(strip_all(trim(lines[k]), "$ "@), "> "@))
        } else {
            seq![]
        },
{
    reveal_strlit("```");
    let s = trim(raw);
    let stated = if starts_with(s, "```"@) {
        let block = split(split(s.skip(3), "```"@)[0], "\n"@);
        if block.len() > 1 {
            block.skip(1)
        } else {
            block
        }
    } else {
        split(s, "\n"@)
    };
    if starts_with(s, "```"@) {
        let block = split(split(s.skip(3), "```"@)[0], "\n"@);
        if block.len() > 1 {
            assert(block.skip(1) =~= block.drop_first());
        }
    }
    assert(stated == command_lines(s));
    assert(lines.skip(0) =~= lines);
    lemma_first_holding(lines, 0, k);
    if k == lines.len() {
        reveal_strlit("$ ");
        reveal_strlit("> ");
        assert(strip_all(seq![], "$ "@) == Seq::<char>::empty());
        assert(strip_all(seq![], "> "@) == Seq::<char>::empty());
        assert(trim(seq![]) =~= Seq::<char>::empty());
    }
}

} // verus!
