//! Prompt templates for the commands that talk to the model.
use vstd::prelude::*;

use crate::text::{append_str, chars_of, to_string};

verus! {

/// Opening of the prompt that asks the model for a shell command.
pub const EXECUTE_PROMPT_HEAD: &'static str = "You are a shell command generator.\n";

/// Rules and examples that follow the system description in the command prompt.
pub const EXECUTE_PROMPT_TAIL: &'static str = "\n\nRules:\n1. Return ONLY the command itself. No explanations, no markdown, no code fences.\n2. The output MUST be a single line that can be executed directly.\n3. If a task requires multiple steps, combine them into one line using pipes (|), command substitution, or logical operators (&& / ||).\n4. On Windows use PowerShell syntax; on macOS/Linux use Bash syntax.\n5. If the request is ambiguous, choose the most reasonable interpretation.\n6. When killing processes, always filter out PID 0 and system processes to avoid permission errors.\n\nExamples (Windows PowerShell):\n  Input: kill the process on port 3000\n  Output: Get-NetTCPConnection -LocalPort 3000 | Where-Object { $_.OwningProcess -ne 0 } | ForEach-Object { Stop-Process -Id $_.OwningProcess -Force }\n\nExamples (Linux/macOS):\n  Input: kill the process on port 3000\n  Output: lsof -ti :3000 | xargs kill -9";

/// Opening of the prompt that asks the model to explain a command.
pub const EXPLAIN_PROMPT_HEAD: &'static str = "You are a helpful assistant that explains shell commands to the user.\n";

/// What follows the system description in the explanation prompt.
pub const EXPLAIN_PROMPT_TAIL: &'static str = "\nWhen the user provides a shell command, you should respond with a clear and concise explanation of what the command does.\nAlways respond in the same language as the user's input.";

/// The sentence that tells the model which system the user runs.
pub open spec fn system_info_text(os: Seq<char>, arch: Seq<char>, shell: Seq<char>) -> Seq<char> {
    "The user is running on "@ + os + " ("@ + arch + ") with "@ + shell + "."@
}

/// The sentence that tells the model which system the user runs, from the
/// operating system name, the architecture and the shell ("PowerShell" on
/// Windows, "Bash" elsewhere).
pub fn system_info(os: &str, arch: &str, shell: &str) -> (r: String)
    ensures
        r@ == system_info_text(os@, arch@, shell@),
{
    let mut v = chars_of("The user is running on ");
    append_str(&mut v, os);
    append_str(&mut v, " (");
    append_str(&mut v, arch);
    append_str(&mut v, ") with ");
    append_str(&mut v, shell);
    append_str(&mut v, ".");
    to_string(&v)
}

/// The system prompt for generating a command on the described system.
pub fn execute_system_prompt(system_info: &str) -> (r: String)
    ensures
        r@ == EXECUTE_PROMPT_HEAD@ + system_info@ + EXECUTE_PROMPT_TAIL@,
{
    let mut v = chars_of(EXECUTE_PROMPT_HEAD);
    append_str(&mut v, system_info);
    append_str(&mut v, EXECUTE_PROMPT_TAIL);
    to_string(&v)
}

/// The system prompt for explaining a command on the described system.
pub fn explain_system_prompt(system_info: &str) -> (r: String)
    ensures
        r@ == EXPLAIN_PROMPT_HEAD@ + system_info@ + EXPLAIN_PROMPT_TAIL@,
{
    let mut v = chars_of(EXPLAIN_PROMPT_HEAD);
    append_str(&mut v, system_info);
    append_str(&mut v, EXPLAIN_PROMPT_TAIL);
    to_string(&v)
}

} // verus!
