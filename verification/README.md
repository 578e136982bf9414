# shellm

An AI-powered shell assistant: it asks a chat model for a shell command,
checks the command against local risk rules, asks for the confirmation that
the risk level calls for, and runs it. It also explains commands and offers an
interactive shell with built-in `/history`, `/clear` and `/help` commands.

Layout:

- `src/` — the library, verified with Verus:
  - `safety/rules.rs` — the risk rules, their evaluation, command chains;
  - `safety/confirm.rs` — what each risk level asks of the user, judging answers;
  - `session/context.rs` — the conversation window and working directory;
  - `commands/` — extracting a command from a model answer, the steps from a
    risk level and the user's answers to running or not running a command,
    classifying shell input, built-in commands, configuration changes;
  - `ai/` — chat messages, chat requests and replies, prompt texts;
  - `text.rs` — character-level text helpers (trim, split, search, order).
- `app/` — the program: command line, HTTP calls, terminal I/O, files, processes.
- `tests/` — tests of the library.
