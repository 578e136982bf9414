//! A conversation session: the system prompt, a sliding window of the latest
//! messages, and the working directory of the shell.
use vstd::prelude::*;

use std::path::PathBuf;

use crate::ai::client::{message_views, Message, MessageSpec, Role};

verus! {

#[verifier::external_type_specification]
#[verifier::external_body]
pub struct ExPathBuf(PathBuf);

/// A session as the specifications see it.
pub struct SessionSpec {
    pub system_prompt: Option<MessageSpec>,
    pub messages: Seq<MessageSpec>,
    pub max_messages: nat,
    pub current_dir: PathBuf,
}

/// The last `max` messages of `s` (all of them when there are no more than `max`).
pub open spec fn window(s: Seq<MessageSpec>, max: nat) -> Seq<MessageSpec> {
    if s.len() > max {
        s.skip(s.len() - max)
    } else {
        s
    }
}

/// What the model is sent: the system prompt, if any, then the kept messages.
pub open spec fn conversation(s: SessionSpec) -> Seq<MessageSpec> {
    match s.system_prompt {
        Some(p) => seq![p] + s.messages,
        None => s.messages,
    }
}

/// The session after `m` is added.
pub open spec fn after_add(s: SessionSpec, m: MessageSpec) -> SessionSpec {
    SessionSpec { messages: window(s.messages.push(m), s.max_messages), ..s }
}

/// The session after it is cleared: no system prompt and no messages.
pub open spec fn after_clear(s: SessionSpec) -> SessionSpec {
    SessionSpec { system_prompt: None, messages: seq![], ..s }
}

/// The session after the working directory changes to `d`.
pub open spec fn after_change_dir(s: SessionSpec, d: PathBuf) -> SessionSpec {
    SessionSpec { current_dir: d, ..s }
}

/// A conversation session.
pub struct Session {
    system_prompt: Option<Message>,
    messages: Vec<Message>,
    max_messages: usize,
    current_dir: PathBuf,
}

impl View for Session {
    type V = SessionSpec;

    closed spec fn view(&self) -> SessionSpec {
        SessionSpec {
            system_prompt: match self.system_prompt {
                Some(m) => Some(m@),
                None => None,
            },
            messages: message_views(self.messages@),
            max_messages: self.max_messages as nat,
            current_dir: self.current_dir,
        }
    }
}

impl Session {
    /// A session that keeps at most `max_messages` messages besides the system
    /// prompt, working in `current_dir` (the caller passes the process's
    /// working directory, or `.` when it cannot be read).
    pub fn new(max_messages: usize, system_prompt: &str, current_dir: PathBuf) -> (s: Self)
        ensures
            s@ == (SessionSpec {
                system_prompt: Some(MessageSpec { role: Role::System, content: system_prompt@ }),
                messages: seq![],
                max_messages: max_messages as nat,
                current_dir: current_dir,
            }),
    {
        let s = Session {
            system_prompt: Some(Message::system(system_prompt)),
            messages: Vec::new(),
            max_messages,
            current_dir,
        };
        assert(message_views(s.messages@) =~= seq![]);
        s
    }

    /// The working directory of the session.
    pub fn current_dir(&self) -> (r: &PathBuf)
        ensures
            *r == self@.current_dir,
    {
        &self.current_dir
    }

    /// Moves the session to another working directory.
    pub fn change_dir(&mut self, new_dir: PathBuf)
        ensures
            final(self)@ == after_change_dir(old(self)@, new_dir),
    {
        self.current_dir = new_dir;
    }

    /// Adds a message; when more than `max_messages` are then held, the oldest
    /// ones are dropped so that exactly the newest `max_messages` remain.
    pub fn add_message(&mut self, message: Message)
        ensures
            final(self)@ == after_add(old(self)@, message@),
            final(self)@.messages.len() <= final(self)@.max_messages,
    {
        let ghost m = message@;
        self.messages.push(message);
        assert(message_views(self.messages@) =~= message_views(old(self).messages@).push(m));
        let len = self.messages.len();
        if len > self.max_messages {
            let excess = len - self.max_messages;
            let kept = self.messages.split_off(excess);
            proof {
                let before = message_views(old(self).messages@).push(m);
                assert(message_views(kept@) =~= before.skip(excess as int));
            }
            self.messages = kept;
        }
    }

    /// The system prompt (if the session still has one) followed by the kept messages.
    pub fn get_messages(&self) -> (r: Vec<Message>)
        ensures
            message_views(r@) == conversation(self@),
    {
        let mut out: Vec<Message> = Vec::new();
        match &self.system_prompt {
            Some(p) => out.push(p.duplicate()),
            None => {},
        }
        let ghost start = message_views(out@);
        let n = self.messages.len();
        for i in 0..n
            invariant
                n == self.messages@.len(),
                message_views(out@) == start + message_views(self.messages@).take(i as int),
        {
            let ghost prev = message_views(out@);
            out.push(self.messages[i].duplicate());
            assert(message_views(out@) =~= prev.push(self.messages@[i as int]@));
            assert(message_views(self.messages@).take(i + 1) =~= message_views(
                self.messages@,
            ).take(i as int).push(self.messages@[i as int]@));
        }
        assert(message_views(self.messages@).take(n as int) =~= message_views(self.messages@));
        assert(message_views(out@) =~= conversation(self@));
        out
    }

    /// Clears the session context: the messages and the system prompt.
    pub fn clear(&mut self)
        ensures
            final(self)@ == after_clear(old(self)@),
    {
        self.messages.clear();
        self.system_prompt = None;
        assert(message_views(self.messages@) =~= seq![]);
    }
}

/// Law: a cleared session sends nothing to the model.
pub proof fn law_cleared_conversation_is_empty(s: SessionSpec)
    ensures
        conversation(after_clear(s)).len() == 0,
{
}

/// Law: after a message is added, the session holds no more than
/// `max_messages` messages, and the newest message is the last one sent
/// (when the window has room for at least one).
pub proof fn law_window_keeps_newest(s: SessionSpec, m: MessageSpec)
    ensures
        after_add(s, m).messages.len() <= s.max_messages,
        s.max_messages > 0 ==> conversation(after_add(s, m)).last() == m,
        s.messages.len() < s.max_messages ==> after_add(s, m).messages == s.messages.push(m),
{
}

/// Law: the system prompt and the working directory are unaffected by new messages.
pub proof fn law_add_keeps_prompt_and_dir(s: SessionSpec, m: MessageSpec)
    ensures
        after_add(s, m).system_prompt == s.system_prompt,
        after_add(s, m).current_dir == s.current_dir,
        after_add(s, m).max_messages == s.max_messages,
{
}

/// Law: changing the directory changes nothing but the directory.
pub proof fn law_change_dir_only_moves(s: SessionSpec, d: PathBuf)
    ensures
        after_change_dir(s, d).current_dir == d,
        conversation(after_change_dir(s, d)) == conversation(s),
{
}

/// The session after each of `ms` is added, in order.
pub open spec fn after_add_all(s: SessionSpec, ms: Seq<MessageSpec>) -> SessionSpec
    decreases ms.len(),
{
    if ms.len() == 0 {
        s
    } else {
        after_add(after_add_all(s, ms.drop_last()), ms.last())
    }
}

/// Trimming a window and then adding keeps the same last messages as adding first.
proof fn lemma_window_push(a: Seq<MessageSpec>, m: MessageSpec, k: nat)
    ensures
        window(window(a, k).push(m), k) == window(a.push(m), k),
{
    if a.len() > k {
        assert(window(a, k).push(m).skip(1) =~= a.push(m).skip(a.len() + 1 - k));
    }
}

/// Law: a session always holds the last `max_messages` of all the messages
/// added to it (all of them when there are fewer), in the order they came.
pub proof fn law_window_is_last_messages(s: SessionSpec, ms: Seq<MessageSpec>)
    requires
        s.messages.len() <= s.max_messages,
    ensures
        after_add_all(s, ms).messages == window(s.messages + ms, s.max_messages),
        after_add_all(s, ms).system_prompt == s.system_prompt,
        after_add_all(s, ms).max_messages == s.max_messages,
        after_add_all(s, ms).current_dir == s.current_dir,
    decreases ms.len(),
{
    if ms.len() == 0 {
        assert(s.messages + ms =~= s.messages);
    } else {
        law_window_is_last_messages(s, ms.drop_last());
        lemma_window_push(s.messages + ms.drop_last(), ms.last(), s.max_messages);
        assert((s.messages + ms.drop_last()).push(ms.last()) =~= s.messages + ms);
    }
}


/// Law: after a message is added, the session keeps the newest messages of
/// the old ones followed by the new one, as many as `max_messages` allows:
/// counted from the end, each kept message is the one at the same place from
/// the end before, and the number kept is the smaller of the two.
pub proof fn law_add_keeps_newest_suffix(s: SessionSpec, m: MessageSpec)
    ensures
        ({
            let all = s.messages.push(m);
            let kept = after_add(s, m).messages;
            &&& kept.len() == if all.len() <= s.max_messages {
                all.len()
            } else {
                s.max_messages as nat
            }
            &&& forall|i: int|
                0 <= i < kept.len() ==> #[trigger] kept[kept.len() - 1 - i] == all[all.len() - 1
                    - i]
        }),
{
}

} // verus!
