//! Built-in `/name` commands of the interactive shell.
//!
//! A command implements `BuiltinCommand`. The `BuiltinRegistry` holds the
//! commands as values of the enum `Builtin`, so that what each registered
//! command shows and does is known to its contracts, and dispatches by name;
//! no two registered commands share a name. A command returns the lines it
//! wants shown; the caller prints them.
use vstd::prelude::*;

use crate::ai::client::{message_views, Message, MessageSpec, Role};
use crate::session::context::{after_clear, conversation, Session, SessionSpec};
use crate::text::{
    append_str, chars_of, decimal, decimal_chars, lemma_text_less_irreflexive,
    lemma_text_less_total, lemma_text_less_transitive, less_chars, same_chars, string_views,
    text_less, to_string,
};

verus! {

/// What a built-in command can reach while it runs.
pub struct BuiltinContext<'a> {
    pub session: &'a mut Session,
}

/// A built-in shell command.
pub trait BuiltinCommand {
    /// The command name, without the leading `/`.
    fn name(&self) -> &'static str;

    /// A one-line help text.
    fn help(&self) -> &'static str;

    /// Runs the command; returns the lines to show, or an error message.
    fn execute(&self, ctx: &mut BuiltinContext<'_>) -> Result<Vec<String>, String>;
}

/// What dispatching a name did.
pub enum DispatchOutcome {
    /// The command ran and produced these lines.
    Done(Vec<String>),
    /// The command ran and failed with this message.
    Failed(String),
    /// No command has that name.
    Unknown,
}

/// `/history`: lists the user and assistant messages of the session.
pub struct HistoryCommand;

/// `/clear`: clears the session context.
pub struct ClearCommand;

/// `/help`: lists the built-in commands.
pub struct HelpCommand;

/// The messages that are not system messages, in order.
pub open spec fn non_system(ms: Seq<MessageSpec>) -> Seq<MessageSpec>
    decreases ms.len(),
{
    if ms.len() == 0 {
        seq![]
    } else {
        non_system(ms.drop_last()) + if ms.last().role != Role::System {
            seq![ms.last()]
        } else {
            seq![]
        }
    }
}

/// The history line of the `n`-th listed message: `n. [Role] content`.
pub open spec fn history_line(n: nat, m: MessageSpec) -> Seq<char> {
    decimal(n) + ". ["@ + m.role.spec_display() + "] "@ + m.content
}

/// What `/history` shows for a conversation: a title, a note when there is
/// nothing to list, then every non-system message numbered from 1.
pub open spec fn history_lines(conv: Seq<MessageSpec>) -> Seq<Seq<char>> {
    let us = non_system(conv);
    seq!["历史记录:"@] + (if us.len() == 0 {
        seq!["  (暂无对话)"@]
    } else {
        seq![]
    }) + Seq::new(us.len(), |i: int| history_line((i + 1) as nat, us[i]))
}

/// What `/clear` shows.
pub open spec fn clear_lines() -> Seq<Seq<char>> {
    seq!["历史已清除。"@]
}

/// What `/help` shows.
pub open spec fn help_lines() -> Seq<Seq<char>> {
    seq![
        "📖 可用内置命令："@,
        "  /help     显示本帮助信息"@,
        "  /history  查看当前会话的对话历史"@,
        "  /clear    清空当前会话上下文"@,
        "  exit / quit  退出 shell"@,
    ]
}

impl BuiltinCommand for HistoryCommand {
    fn name(&self) -> (r: &'static str)
        ensures
            r@ == "history"@,
    {
        "history"
    }

    fn help(&self) -> (r: &'static str)
        ensures
            r@ == "查看当前会话的对话历史"@,
    {
        "查看当前会话的对话历史"
    }

    fn execute(&self, ctx: &mut BuiltinContext<'_>) -> (r: Result<Vec<String>, String>)
        ensures
            r matches Ok(lines) && string_views(lines@) == history_lines(
                conversation((*old(ctx).session)@),
            ),
            (*final(ctx).session)@ == (*old(ctx).session)@,
    {
        let messages = ctx.session.get_messages();
        let ghost conv = conversation((*ctx.session)@);
        // the messages that are not system messages
        let mut listed: Vec<&Message> = Vec::new();
        let n = messages.len();
        for i in 0..n
            invariant
                n == messages@.len(),
                message_views(messages@) == conv,
                listed@.map_values(|m: &Message| m@) == non_system(conv.take(i as int)),
        {
            proof {
                assert(conv.take(i + 1).drop_last() =~= conv.take(i as int));
                assert(conv.take(i + 1).last() == messages@[i as int]@);
            }
            let ghost prev = listed@.map_values(|m: &Message| m@);
            if messages[i].role != Role::System {
                listed.push(&messages[i]);
                assert(listed@.map_values(|m: &Message| m@) =~= prev.push(messages@[i as int]@));
            }
        }
        assert(conv.take(n as int) =~= conv);
        let ghost us = non_system(conv);
        let mut lines: Vec<String> = Vec::new();
        lines.push(to_string(&chars_of("历史记录:")));
        if listed.len() == 0 {
            lines.push(to_string(&chars_of("  (暂无对话)")));
        }
        let ghost head = string_views(lines@);
        assert(head =~= seq!["历史记录:"@] + (if us.len() == 0 {
            seq!["  (暂无对话)"@]
        } else {
            seq![]
        }));
        let m = listed.len();
        for k in 0..m
            invariant
                m == listed@.len(),
                m == us.len(),
                listed@.map_values(|x: &Message| x@) == us,
                string_views(lines@) == head + Seq::new(
                    k as nat,
                    |i: int| history_line((i + 1) as nat, us[i]),
                ),
        {
            let msg = listed[k];
            assert(msg@ == us[k as int]);
            let mut line = decimal_chars(k + 1);
            append_str(&mut line, ". [");
            append_str(&mut line, msg.role.display_name());
            append_str(&mut line, "] ");
            append_str(&mut line, msg.content.as_str());
            assert(line@ == history_line((k + 1) as nat, us[k as int]));
            let ghost prev = string_views(lines@);
            lines.push(to_string(&line));
            let ghost f = |i: int| history_line((i + 1) as nat, us[i]);
            assert(Seq::new((k + 1) as nat, f) =~= Seq::new(k as nat, f).push(f(k as int)));
            assert(string_views(lines@) =~= prev.push(line@));
            assert(string_views(lines@) =~= head + Seq::new(
                (k + 1) as nat,
                |i: int| history_line((i + 1) as nat, us[i]),
            ));
        }
        Ok(lines)
    }
}

impl BuiltinCommand for ClearCommand {
    fn name(&self) -> (r: &'static str)
        ensures
            r@ == "clear"@,
    {
        "clear"
    }

    fn help(&self) -> (r: &'static str)
        ensures
            r@ == "清空当前会话上下文"@,
    {
        "清空当前会话上下文"
    }

    fn execute(&self, ctx: &mut BuiltinContext<'_>) -> (r: Result<Vec<String>, String>)
        ensures
            r matches Ok(lines) && string_views(lines@) == clear_lines(),
            (*final(ctx).session)@ == after_clear((*old(ctx).session)@),
    {
        ctx.session.clear();
        let mut lines: Vec<String> = Vec::new();
        lines.push(to_string(&chars_of("历史已清除。")));
        assert(string_views(lines@) =~= clear_lines());
        Ok(lines)
    }
}

impl BuiltinCommand for HelpCommand {
    fn name(&self) -> (r: &'static str)
        ensures
            r@ == "help"@,
    {
        "help"
    }

    fn help(&self) -> (r: &'static str)
        ensures
            r@ == "显示本帮助信息"@,
    {
        "显示本帮助信息"
    }

    fn execute(&self, ctx: &mut BuiltinContext<'_>) -> (r: Result<Vec<String>, String>)
        ensures
            r matches Ok(lines) && string_views(lines@) == help_lines(),
            (*final(ctx).session)@ == (*old(ctx).session)@,
    {
        let mut lines: Vec<String> = Vec::new();
        lines.push(to_string(&chars_of("📖 可用内置命令：")));
        lines.push(to_string(&chars_of("  /help     显示本帮助信息")));
        lines.push(to_string(&chars_of("  /history  查看当前会话的对话历史")));
        lines.push(to_string(&chars_of("  /clear    清空当前会话上下文")));
        lines.push(to_string(&chars_of("  exit / quit  退出 shell")));
        assert(string_views(lines@) =~= help_lines());
        Ok(lines)
    }
}

/// One of the built-in commands, as the registry holds it.
pub enum Builtin {
    History(HistoryCommand),
    Clear(ClearCommand),
    Help(HelpCommand),
}

impl Builtin {
    /// The name the command reports.
    pub open spec fn spec_name(self) -> Seq<char> {
        match self {
            Builtin::History(_) => "history"@,
            Builtin::Clear(_) => "clear"@,
            Builtin::Help(_) => "help"@,
        }
    }

    /// The help text the command reports.
    pub open spec fn spec_help(self) -> Seq<char> {
        match self {
            Builtin::History(_) => "查看当前会话的对话历史"@,
            Builtin::Clear(_) => "清空当前会话上下文"@,
            Builtin::Help(_) => "显示本帮助信息"@,
        }
    }

    /// The lines the command shows for a session, and the session it leaves.
    pub open spec fn spec_run(self, s: SessionSpec) -> (Seq<Seq<char>>, SessionSpec) {
        match self {
            Builtin::History(_) => (history_lines(conversation(s)), s),
            Builtin::Clear(_) => (clear_lines(), after_clear(s)),
            Builtin::Help(_) => (help_lines(), s),
        }
    }
}

impl BuiltinCommand for Builtin {
    fn name(&self) -> (r: &'static str)
        ensures
            r@ == self.spec_name(),
    {
        match self {
            Builtin::History(c) => c.name(),
            Builtin::Clear(c) => c.name(),
            Builtin::Help(c) => c.name(),
        }
    }

    fn help(&self) -> (r: &'static str)
        ensures
            r@ == self.spec_help(),
    {
        match self {
            Builtin::History(c) => c.help(),
            Builtin::Clear(c) => c.help(),
            Builtin::Help(c) => c.help(),
        }
    }

    fn execute(&self, ctx: &mut BuiltinContext<'_>) -> (r: Result<Vec<String>, String>)
        ensures
            r matches Ok(lines) && string_views(lines@) == self.spec_run(
                (*old(ctx).session)@,
            ).0,
            (*final(ctx).session)@ == self.spec_run((*old(ctx).session)@).1,
    {
        match self {
            Builtin::History(c) => c.execute(ctx),
            Builtin::Clear(c) => c.execute(ctx),
            Builtin::Help(c) => c.execute(ctx),
        }
    }
}

/// The names of the commands are all different.
pub open spec fn names_unique(s: Seq<Builtin>) -> bool {
    forall|i: int, j: int|
        0 <= i < j < s.len() ==> #[trigger] s[i].spec_name() != #[trigger] s[j].spec_name()
}

/// The registry after `cmd` is registered: a command with the same name is
/// replaced in place, otherwise `cmd` is added at the end.
pub open spec fn registered(s: Seq<Builtin>, cmd: Builtin) -> Seq<Builtin> {
    if exists|i: int| 0 <= i < s.len() && #[trigger] s[i].spec_name() == cmd.spec_name() {
        let i = choose|i: int| 0 <= i < s.len() && #[trigger] s[i].spec_name() == cmd.spec_name();
        s.update(i, cmd)
    } else {
        s.push(cmd)
    }
}

/// Whether some command has this name.
pub open spec fn has_name(s: Seq<Builtin>, name: Seq<char>) -> bool {
    exists|i: int| 0 <= i < s.len() && #[trigger] s[i].spec_name() == name
}

/// The (name, help) pairs of the commands.
pub open spec fn name_help_pairs(s: Seq<Builtin>) -> Seq<(Seq<char>, Seq<char>)> {
    s.map_values(|c: Builtin| (c.spec_name(), c.spec_help()))
}

/// Registry of built-in commands, dispatched by name.
pub struct BuiltinRegistry {
    cmds: Vec<Builtin>,
}

impl View for BuiltinRegistry {
    type V = Seq<Builtin>;

    /// The registered commands, in registration order.
    closed spec fn view(&self) -> Seq<Builtin> {
        self.cmds@
    }
}

/// The pairs of a sorted listing.
pub open spec fn pair_views(v: Seq<(&'static str, &'static str)>) -> Seq<(Seq<char>, Seq<char>)> {
    v.map_values(|p: (&'static str, &'static str)| (p.0@, p.1@))
}

/// Each name is strictly before the next one.
pub open spec fn sorted_by_name(s: Seq<(Seq<char>, Seq<char>)>) -> bool {
    forall|i: int| 0 <= i < s.len() - 1 ==> text_less(#[trigger] s[i].0, s[i + 1].0)
}

/// `a` and `b` hold the same pairs, as many of them.
pub open spec fn same_pairs(a: Seq<(Seq<char>, Seq<char>)>, b: Seq<(Seq<char>, Seq<char>)>) -> bool {
    &&& a.len() == b.len()
    &&& forall|i: int| 0 <= i < a.len() ==> b.contains(#[trigger] a[i])
    &&& forall|i: int| 0 <= i < b.len() ==> a.contains(#[trigger] b[i])
}

impl BuiltinRegistry {
    /// No two registered commands share a name.
    #[verifier::type_invariant]
    spec fn unique_names(self) -> bool {
        names_unique(self.cmds@)
    }

    /// An empty registry.
    pub fn new() -> (r: Self)
        ensures
            r@ == Seq::<Builtin>::empty(),
    {
        BuiltinRegistry { cmds: Vec::new() }
    }

    /// Registers a command under its name; a command already registered under
    /// that name is replaced.
    pub fn register(&mut self, cmd: Builtin)
        ensures
            names_unique(final(self)@),
            final(self)@ == registered(old(self)@, cmd),
    {
        proof {
            use_type_invariant(&*self);
        }
        let ghost s = self@;
        let name = cmd.name();
        let found = self.find(name);
        let mut cmds: Vec<Builtin> = Vec::new();
        std::mem::swap(&mut cmds, &mut self.cmds);
        match found {
            Some(i) => {
                proof {
                    let j = choose|j: int| 0 <= j < s.len() && #[trigger] s[j].spec_name() == cmd.spec_name();
                    if j != i {
                        if j < i {
                            assert(s[j].spec_name() != s[i as int].spec_name());
                        } else {
                            assert(s[i as int].spec_name() != s[j].spec_name());
                        }
                    }
                }
                cmds.set(i, cmd);
            },
            None => {
                cmds.push(cmd);
            },
        }
        assert forall|a: int, b: int| 0 <= a < b < cmds@.len() implies #[trigger] cmds@[a].spec_name()
            != #[trigger] cmds@[b].spec_name() by {
            if a < s.len() && b < s.len() {
                if cmds@[a] != s[a] || cmds@[b] != s[b] {
                } else {
                    assert(s[a].spec_name() != s[b].spec_name());
                }
            }
        }
        self.cmds = cmds;
    }

    /// The position of the command named `name`, if any.
    fn find(&self, name: &str) -> (r: Option<usize>)
        ensures
            r matches Some(i) ==> i < self@.len() && self@[i as int].spec_name() == name@,
            r is None ==> !has_name(self@, name@),
    {
        let target = chars_of(name);
        let n = self.cmds.len();
        for i in 0..n
            invariant
                n == self.cmds@.len(),
                target@ == name@,
                forall|k: int| 0 <= k < i ==> #[trigger] self@[k].spec_name() != name@,
        {
            let e = chars_of(self.cmds[i].name());
            if same_chars(&e, &target) {
                return Some(i);
            }
        }
        None
    }

    /// Runs the command registered under `name`: its lines and its effect on
    /// the session; `Unknown`, with the session untouched, when no command has that name.
    pub fn dispatch(&self, name: &str, ctx: &mut BuiltinContext<'_>) -> (r: DispatchOutcome)
        ensures
            !has_name(self@, name@) ==> r is Unknown && (*final(ctx).session)@
                == (*old(ctx).session)@,
            forall|i: int|
                0 <= i < self@.len() && #[trigger] self@[i].spec_name() == name@ ==> (r matches DispatchOutcome::Done(lines)
                    && string_views(lines@) == self@[i].spec_run((*old(ctx).session)@).0
                    && (*final(ctx).session)@ == self@[i].spec_run((*old(ctx).session)@).1),
    {
        proof {
            use_type_invariant(self);
        }
        match self.find(name) {
            Some(i) => {
                proof {
                    assert forall|j: int|
                        0 <= j < self@.len() && #[trigger] self@[j].spec_name() == name@ implies j
                        == i by {
                        if j < i {
                            assert(self@[j].spec_name() != self@[i as int].spec_name());
                        } else if j > i {
                            assert(self@[i as int].spec_name() != self@[j].spec_name());
                        }
                    }
                }
                match self.cmds[i].execute(ctx) {
                    Ok(lines) => DispatchOutcome::Done(lines),
                    Err(e) => DispatchOutcome::Failed(e),
                }
            },
            None => DispatchOutcome::Unknown,
        }
    }

    /// All registered (name, help) pairs, sorted by name.
    pub fn iter_sorted(&self) -> (r: Vec<(&'static str, &'static str)>)
        ensures
            same_pairs(pair_views(r@), name_help_pairs(self@)),
            sorted_by_name(pair_views(r@)),
    {
        proof {
            use_type_invariant(self);
        }
        let ghost s = name_help_pairs(self@);
        let mut out: Vec<(&'static str, &'static str)> = Vec::new();
        let n = self.cmds.len();
        for i in 0..n
            invariant
                n == self.cmds@.len(),
                s == name_help_pairs(self@),
                names_unique(self@),
                pair_views(out@).len() == i,
                forall|k: int| 0 <= k < i ==> pair_views(out@).contains(#[trigger] s[k]),
                forall|k: int|
                    0 <= k < pair_views(out@).len() ==> s.take(i as int).contains(
                        #[trigger] pair_views(out@)[k],
                    ),
                sorted_by_name(pair_views(out@)),
        {
            let name = self.cmds[i].name();
            let help = self.cmds[i].help();
            let x = chars_of(name);
            let ghost po = pair_views(out@);
            // first position whose name is not before `name`
            let mut p: usize = 0;
            while p < out.len() && less_chars(&chars_of(out[p].0), &x)
                invariant
                    p <= out@.len(),
                    po == pair_views(out@),
                    x@ == name@,
                    forall|k: int| 0 <= k < p ==> text_less(#[trigger] po[k].0, name@),
                decreases out@.len() - p,
            {
                p = p + 1;
            }
            proof {
                assert(s[i as int] == (name@, help@));
                if p < po.len() {
                    // the name at p differs from `name`: it is one of the earlier entries
                    assert(s.take(i as int).contains(po[p as int]));
                    let j = choose|j: int| 0 <= j < i && s.take(i as int)[j] == po[p as int];
                    assert(s[j] == po[p as int]);
                    assert(self@[j].spec_name() != self@[i as int].spec_name());
                    crate::text::lemma_text_less_total(po[p as int].0, name@);
                }
            }
            out.insert(p, (name, help));
            proof {
                let pn = pair_views(out@);
                assert(pn =~= po.insert(p as int, (name@, help@)));
                assert forall|k: int| 0 <= k < pn.len() - 1 implies text_less(
                    #[trigger] pn[k].0,
                    pn[k + 1].0,
                ) by {
                    if k + 1 < p {
                        assert(pn[k] == po[k] && pn[k + 1] == po[k + 1]);
                    } else if k + 1 == p {
                        assert(pn[k] == po[k]);
                    } else if k == p {
                        assert(pn[k + 1] == po[k]);
                    } else {
                        assert(pn[k] == po[k - 1] && pn[k + 1] == po[k]);
                    }
                }
                assert forall|k: int| 0 <= k < i + 1 implies pn.contains(#[trigger] s[k]) by {
                    if k < i {
                        let q = choose|q: int| 0 <= q < po.len() && po[q] == s[k];
                        if q < p {
                            assert(pn[q] == s[k]);
                        } else {
                            assert(pn[q + 1] == s[k]);
                        }
                    } else {
                        assert(pn[p as int] == s[k]);
                    }
                }
                assert forall|k: int| 0 <= k < pn.len() implies s.take(i + 1).contains(
                    #[trigger] pn[k],
                ) by {
                    if k == p {
                        assert(s.take(i + 1)[i as int] == pn[k]);
                    } else {
                        let q = if k < p { k } else { k - 1 };
                        assert(pn[k] == po[q]);
                        assert(s.take(i as int).contains(po[q]));
                        let j = choose|j: int| 0 <= j < i && s.take(i as int)[j] == po[q];
                        assert(s.take(i + 1)[j] == pn[k]);
                    }
                }
            }
        }
        proof {
            let pn = pair_views(out@);
            assert(s.take(n as int) =~= s);
            assert forall|k: int| 0 <= k < s.len() implies pn.contains(#[trigger] s[k]) by {}
        }
        out
    }
}

/// Law: once a command is registered, its name is known, it is the only
/// command with that name, and the names stay distinct; so dispatching the
/// name runs that command.
pub proof fn law_registered_command_is_dispatched(s: Seq<Builtin>, cmd: Builtin)
    requires
        names_unique(s),
    ensures
        has_name(registered(s, cmd), cmd.spec_name()),
        forall|i: int|
            0 <= i < registered(s, cmd).len() && #[trigger] registered(s, cmd)[i].spec_name()
                == cmd.spec_name() ==> registered(s, cmd)[i] == cmd,
        registered(s, cmd).len() == if has_name(s, cmd.spec_name()) {
            s.len()
        } else {
            s.len() + 1
        },
{
    let r = registered(s, cmd);
    if exists|i: int| 0 <= i < s.len() && #[trigger] s[i].spec_name() == cmd.spec_name() {
        let i = choose|i: int| 0 <= i < s.len() && #[trigger] s[i].spec_name() == cmd.spec_name();
        assert(r[i] == cmd);
        assert forall|j: int| 0 <= j < r.len() && #[trigger] r[j].spec_name() == cmd.spec_name() implies r[j]
            == cmd by {
            if j != i {
                assert(r[j] == s[j]);
                if j < i {
                    assert(s[j].spec_name() != s[i].spec_name());
                } else {
                    assert(s[i].spec_name() != s[j].spec_name());
                }
            }
        }
    } else {
        assert(r[s.len() as int] == cmd);
        assert forall|j: int| 0 <= j < r.len() && #[trigger] r[j].spec_name() == cmd.spec_name() implies r[j]
            == cmd by {
            if j < s.len() {
                assert(r[j] == s[j]);
            }
        }
    }
}


/// Every name of the listing is strictly before every later one.
pub open spec fn strictly_sorted(l: Seq<(Seq<char>, Seq<char>)>) -> bool {
    forall|i: int, j: int| 0 <= i < j < l.len() ==> text_less(#[trigger] l[i].0, #[trigger] l[j].0)
}

/// The pairs of `l` whose name is not `n`, in their order.
pub open spec fn without_name(l: Seq<(Seq<char>, Seq<char>)>, n: Seq<char>) -> Seq<
    (Seq<char>, Seq<char>),
>
    decreases l.len(),
{
    if l.len() == 0 {
        seq![]
    } else {
        (if l[0].0 != n {
            seq![l[0]]
        } else {
            seq![]
        }) + without_name(l.drop_first(), n)
    }
}

/// `p` put into the listing `l` just before the first name that comes after its own.
pub open spec fn insert_by_name(l: Seq<(Seq<char>, Seq<char>)>, p: (Seq<char>, Seq<char>)) -> Seq<
    (Seq<char>, Seq<char>),
>
    decreases l.len(),
{
    if l.len() == 0 {
        seq![p]
    } else if text_less(p.0, l[0].0) {
        seq![p] + l
    } else {
        seq![l[0]] + insert_by_name(l.drop_first(), p)
    }
}

/// Adjacent order is order throughout.
proof fn lemma_sorted_everywhere(l: Seq<(Seq<char>, Seq<char>)>)
    requires
        sorted_by_name(l),
    ensures
        strictly_sorted(l),
    decreases l.len(),
{
    if l.len() > 1 {
        let d = l.drop_last();
        assert forall|i: int| 0 <= i < d.len() - 1 implies text_less(#[trigger] d[i].0, d[i + 1].0) by {
            assert(d[i] == l[i] && d[i + 1] == l[i + 1]);
        }
        lemma_sorted_everywhere(d);
        assert forall|i: int, j: int| 0 <= i < j < l.len() implies text_less(
            #[trigger] l[i].0,
            #[trigger] l[j].0,
        ) by {
            if j < l.len() - 1 {
                assert(d[i] == l[i] && d[j] == l[j]);
            } else if i < j - 1 {
                assert(d[i] == l[i] && d[j - 1] == l[j - 1]);
                assert(text_less(l[j - 1].0, l[j].0));
                lemma_text_less_transitive(l[i].0, l[j - 1].0, l[j].0);
            }
        }
    }
}

/// A head before every later name, on an ordered tail, gives an ordered listing.
proof fn lemma_sorted_prepend(h: (Seq<char>, Seq<char>), t: Seq<(Seq<char>, Seq<char>)>)
    requires
        strictly_sorted(t),
        forall|x: (Seq<char>, Seq<char>)| t.contains(x) ==> text_less(h.0, #[trigger] x.0),
    ensures
        strictly_sorted(seq![h] + t),
{
    let l = seq![h] + t;
    assert forall|i: int, j: int| 0 <= i < j < l.len() implies text_less(
        #[trigger] l[i].0,
        #[trigger] l[j].0,
    ) by {
        assert(l[j] == t[j - 1]);
        if i == 0 {
            assert(t.contains(t[j - 1]));
        } else {
            assert(l[i] == t[i - 1]);
        }
    }
}

/// An ordered listing splits into its head, before all the rest, and an ordered tail.
proof fn lemma_sorted_head(l: Seq<(Seq<char>, Seq<char>)>)
    requires
        strictly_sorted(l),
        l.len() > 0,
    ensures
        strictly_sorted(l.drop_first()),
        forall|x: (Seq<char>, Seq<char>)|
            l.drop_first().contains(x) ==> text_less(l[0].0, #[trigger] x.0),
        l == seq![l[0]] + l.drop_first(),
{
    let t = l.drop_first();
    assert forall|i: int, j: int| 0 <= i < j < t.len() implies text_less(
        #[trigger] t[i].0,
        #[trigger] t[j].0,
    ) by {
        assert(t[i] == l[i + 1] && t[j] == l[j + 1]);
    }
    assert forall|x: (Seq<char>, Seq<char>)| t.contains(x) implies text_less(l[0].0, #[trigger] x.0) by {
        let q = choose|q: int| 0 <= q < t.len() && t[q] == x;
        assert(t[q] == l[q + 1]);
    }
    assert(l =~= seq![l[0]] + t);
}

/// What `without_name` keeps, and that it keeps the order.
proof fn lemma_without_name(l: Seq<(Seq<char>, Seq<char>)>, n: Seq<char>)
    requires
        strictly_sorted(l),
    ensures
        strictly_sorted(without_name(l, n)),
        forall|x: (Seq<char>, Seq<char>)|
            #[trigger] without_name(l, n).contains(x) <==> (l.contains(x) && x.0 != n),
    decreases l.len(),
{
    if l.len() > 0 {
        let t = l.drop_first();
        lemma_sorted_head(l);
        lemma_without_name(t, n);
        let w = without_name(t, n);
        let front = if l[0].0 != n {
            seq![l[0]]
        } else {
            seq![]
        };
        assert(without_name(l, n) == front + w);
        if l[0].0 != n {
            lemma_sorted_prepend(l[0], w);
        } else {
            assert(front + w =~= w);
        }
        assert forall|x: (Seq<char>, Seq<char>)| #[trigger] without_name(l, n).contains(x) <==> (
        l.contains(x) && x.0 != n) by {
            if without_name(l, n).contains(x) {
                let q = choose|q: int| 0 <= q < (front + w).len() && (front + w)[q] == x;
                if q < front.len() {
                    assert(l[0] == x);
                } else {
                    assert(w[q - front.len()] == x);
                    assert(w.contains(x));
                    let k = choose|k: int| 0 <= k < t.len() && t[k] == x;
                    assert(l[k + 1] == x);
                }
            }
            if l.contains(x) && x.0 != n {
                let k = choose|k: int| 0 <= k < l.len() && l[k] == x;
                if k == 0 {
                    assert((front + w)[0] == x);
                } else {
                    assert(t[k - 1] == x);
                    assert(w.contains(x));
                    let q = choose|q: int| 0 <= q < w.len() && w[q] == x;
                    assert((front + w)[front.len() + q] == x);
                }
            }
        }
    } else {
        assert forall|x: (Seq<char>, Seq<char>)| #[trigger] without_name(l, n).contains(x) <==> (
        l.contains(x) && x.0 != n) by {}
    }
}

/// What `insert_by_name` holds, and that it keeps the order.
proof fn lemma_insert_by_name(l: Seq<(Seq<char>, Seq<char>)>, p: (Seq<char>, Seq<char>))
    requires
        strictly_sorted(l),
        forall|x: (Seq<char>, Seq<char>)| l.contains(x) ==> #[trigger] x.0 != p.0,
    ensures
        strictly_sorted(insert_by_name(l, p)),
        forall|x: (Seq<char>, Seq<char>)|
            #[trigger] insert_by_name(l, p).contains(x) <==> (l.contains(x) || x == p),
    decreases l.len(),
{
    let r = insert_by_name(l, p);
    if l.len() == 0 {
        assert forall|x: (Seq<char>, Seq<char>)| #[trigger] r.contains(x) <==> (l.contains(x) || x
            == p) by {
            if r.contains(x) {
                assert(r[0] == x);
            }
            if x == p {
                assert(r[0] == x);
            }
        }
    } else {
        let t = l.drop_first();
        lemma_sorted_head(l);
        if text_less(p.0, l[0].0) {
            assert forall|x: (Seq<char>, Seq<char>)| l.contains(x) implies text_less(
                p.0,
                #[trigger] x.0,
            ) by {
                if x != l[0] {
                    let k = choose|k: int| 0 <= k < l.len() && l[k] == x;
                    assert(t[k - 1] == x);
                    assert(t.contains(x));
                    lemma_text_less_transitive(p.0, l[0].0, x.0);
                }
            }
            lemma_sorted_prepend(p, l);
            assert forall|x: (Seq<char>, Seq<char>)| #[trigger] r.contains(x) <==> (l.contains(x)
                || x == p) by {
                if r.contains(x) {
                    let q = choose|q: int| 0 <= q < r.len() && r[q] == x;
                    if q > 0 {
                        assert(l[q - 1] == x);
                    }
                }
                if l.contains(x) {
                    let k = choose|k: int| 0 <= k < l.len() && l[k] == x;
                    assert(r[k + 1] == x);
                }
                if x == p {
                    assert(r[0] == x);
                }
            }
        } else {
            assert(l.contains(l[0]));
            lemma_text_less_total(l[0].0, p.0);
            assert forall|x: (Seq<char>, Seq<char>)| t.contains(x) implies #[trigger] x.0 != p.0 by {
                let k = choose|k: int| 0 <= k < t.len() && t[k] == x;
                assert(l[k + 1] == x);
                assert(l.contains(x));
            }
            lemma_insert_by_name(t, p);
            let ri = insert_by_name(t, p);
            assert forall|x: (Seq<char>, Seq<char>)| ri.contains(x) implies text_less(
                l[0].0,
                #[trigger] x.0,
            ) by {}
            lemma_sorted_prepend(l[0], ri);
            assert forall|x: (Seq<char>, Seq<char>)| #[trigger] r.contains(x) <==> (l.contains(x)
                || x == p) by {
                if r.contains(x) {
                    let q = choose|q: int| 0 <= q < r.len() && r[q] == x;
                    if q > 0 {
                        assert(ri[q - 1] == x);
                        assert(ri.contains(x));
                        if x != p {
                            let k = choose|k: int| 0 <= k < t.len() && t[k] == x;
                            assert(l[k + 1] == x);
                        }
                    } else {
                        assert(l[0] == x);
                    }
                }
                if l.contains(x) {
                    let k = choose|k: int| 0 <= k < l.len() && l[k] == x;
                    if k == 0 {
                        assert(r[0] == x);
                    } else {
                        assert(t[k - 1] == x);
                        assert(ri.contains(x));
                        let q = choose|q: int| 0 <= q < ri.len() && ri[q] == x;
                        assert(r[q + 1] == x);
                    }
                }
                if x == p {
                    assert(ri.contains(x));
                    let q = choose|q: int| 0 <= q < ri.len() && ri[q] == x;
                    assert(r[q + 1] == x);
                }
            }
        }
    }
}

/// Two ordered listings that hold the same pairs start with the same pair.
proof fn lemma_sorted_same_head(a: Seq<(Seq<char>, Seq<char>)>, b: Seq<(Seq<char>, Seq<char>)>)
    requires
        strictly_sorted(a),
        strictly_sorted(b),
        a.len() > 0,
        b.len() > 0,
        a.contains(b[0]),
        b.contains(a[0]),
    ensures
        a[0] == b[0],
{
    if a[0] != b[0] {
        let j = choose|j: int| 0 <= j < b.len() && b[j] == a[0];
        let i = choose|i: int| 0 <= i < a.len() && a[i] == b[0];
        assert(j > 0 && i > 0);
        assert(text_less(b[0].0, b[j].0));
        assert(text_less(a[0].0, a[i].0));
        lemma_text_less_transitive(a[0].0, b[0].0, a[0].0);
        lemma_text_less_irreflexive(a[0].0);
    }
}

/// Two ordered listings that hold the same pairs are the same listing.
proof fn lemma_sorted_unique(a: Seq<(Seq<char>, Seq<char>)>, b: Seq<(Seq<char>, Seq<char>)>)
    requires
        strictly_sorted(a),
        strictly_sorted(b),
        forall|x: (Seq<char>, Seq<char>)|
            #![trigger a.contains(x)]
            #![trigger b.contains(x)]
            a.contains(x) <==> b.contains(x),
    ensures
        a == b,
    decreases a.len(),
{
    if a.len() == 0 || b.len() == 0 {
        if b.len() > 0 {
            assert(b.contains(b[0]));
        }
        if a.len() > 0 {
            assert(a.contains(a[0]));
        }
        assert(a =~= b);
    } else {
        assert(a.contains(a[0]));
        assert(b.contains(b[0]));
        lemma_sorted_same_head(a, b);
        lemma_sorted_head(a);
        lemma_sorted_head(b);
        let ta = a.drop_first();
        let tb = b.drop_first();
        assert forall|x: (Seq<char>, Seq<char>)| ta.contains(x) implies tb.contains(x) by {
            let i = choose|i: int| 0 <= i < ta.len() && ta[i] == x;
            assert(a[i + 1] == x);
            assert(a.contains(x));
            let j = choose|j: int| 0 <= j < b.len() && b[j] == x;
            if j == 0 {
                lemma_text_less_irreflexive(a[0].0);
            } else {
                assert(tb[j - 1] == x);
            }
        }
        assert forall|x: (Seq<char>, Seq<char>)| tb.contains(x) implies ta.contains(x) by {
            let j = choose|j: int| 0 <= j < tb.len() && tb[j] == x;
            assert(b[j + 1] == x);
            assert(b.contains(x));
            let i = choose|i: int| 0 <= i < a.len() && a[i] == x;
            if i == 0 {
                lemma_text_less_irreflexive(b[0].0);
            } else {
                assert(ta[i - 1] == x);
            }
        }
        lemma_sorted_unique(ta, tb);
    }
}

/// The pairs of the registry after `cmd` is registered: its own pair and
/// every earlier pair under another name.
proof fn lemma_registered_pairs(s: Seq<Builtin>, cmd: Builtin)
    requires
        names_unique(s),
    ensures
        forall|x: (Seq<char>, Seq<char>)|
            #[trigger] name_help_pairs(registered(s, cmd)).contains(x) <==> (x == (
                cmd.spec_name(),
                cmd.spec_help(),
            ) || (name_help_pairs(s).contains(x) && x.0 != cmd.spec_name())),
{
    let r = registered(s, cmd);
    let pr = name_help_pairs(r);
    let ps = name_help_pairs(s);
    let p = (cmd.spec_name(), cmd.spec_help());
    if exists|i: int| 0 <= i < s.len() && #[trigger] s[i].spec_name() == cmd.spec_name() {
        let i0 = choose|i: int| 0 <= i < s.len() && #[trigger] s[i].spec_name() == cmd.spec_name();
        assert(r == s.update(i0, cmd));
        assert forall|x: (Seq<char>, Seq<char>)| #[trigger] pr.contains(x) <==> (x == p || (
        ps.contains(x) && x.0 != cmd.spec_name())) by {
            if pr.contains(x) {
                let q = choose|q: int| 0 <= q < pr.len() && pr[q] == x;
                if q != i0 {
                    assert(r[q] == s[q]);
                    assert(ps[q] == x);
                    if q < i0 {
                        assert(s[q].spec_name() != s[i0].spec_name());
                    } else {
                        assert(s[i0].spec_name() != s[q].spec_name());
                    }
                }
            }
            if x == p {
                assert(pr[i0] == x);
            }
            if ps.contains(x) && x.0 != cmd.spec_name() {
                let q = choose|q: int| 0 <= q < ps.len() && ps[q] == x;
                assert(q != i0);
                assert(pr[q] == x);
            }
        }
    } else {
        assert(r == s.push(cmd));
        assert forall|x: (Seq<char>, Seq<char>)| #[trigger] pr.contains(x) <==> (x == p || (
        ps.contains(x) && x.0 != cmd.spec_name())) by {
            if pr.contains(x) {
                let q = choose|q: int| 0 <= q < pr.len() && pr[q] == x;
                if q < s.len() {
                    assert(r[q] == s[q]);
                    assert(ps[q] == x);
                }
            }
            if x == p {
                assert(pr[s.len() as int] == x);
            }
            if ps.contains(x) && x.0 != cmd.spec_name() {
                let q = choose|q: int| 0 <= q < ps.len() && ps[q] == x;
                assert(pr[q] == x);
            }
        }
    }
}

/// Law: the sorted listing after `cmd` is registered is the sorted listing
/// before it, without any entry under `cmd`'s name, with `cmd`'s name and
/// help put in their place by name. A command registered under an existing
/// name replaces the old one; every other entry is unchanged.
pub proof fn law_listing_after_register(
    s: Seq<Builtin>,
    cmd: Builtin,
    before: Seq<(Seq<char>, Seq<char>)>,
    after: Seq<(Seq<char>, Seq<char>)>,
)
    requires
        names_unique(s),
        same_pairs(before, name_help_pairs(s)),
        sorted_by_name(before),
        same_pairs(after, name_help_pairs(registered(s, cmd))),
        sorted_by_name(after),
    ensures
        after == insert_by_name(
            without_name(before, cmd.spec_name()),
            (cmd.spec_name(), cmd.spec_help()),
        ),
{
    let n = cmd.spec_name();
    let p = (n, cmd.spec_help());
    lemma_sorted_everywhere(before);
    lemma_sorted_everywhere(after);
    lemma_without_name(before, n);
    let w = without_name(before, n);
    assert forall|x: (Seq<char>, Seq<char>)| w.contains(x) implies #[trigger] x.0 != p.0 by {}
    lemma_insert_by_name(w, p);
    let l = insert_by_name(w, p);
    lemma_registered_pairs(s, cmd);
    let ps = name_help_pairs(s);
    let pr = name_help_pairs(registered(s, cmd));
    assert forall|x: (Seq<char>, Seq<char>)|
        #![trigger l.contains(x)]
        #![trigger after.contains(x)]
        l.contains(x) <==> after.contains(x) by {
        if before.contains(x) {
            let i = choose|i: int| 0 <= i < before.len() && before[i] == x;
            assert(ps.contains(before[i]));
        }
        if ps.contains(x) {
            let i = choose|i: int| 0 <= i < ps.len() && ps[i] == x;
            assert(before.contains(ps[i]));
        }
        if after.contains(x) {
            let i = choose|i: int| 0 <= i < after.len() && after[i] == x;
            assert(pr.contains(after[i]));
        }
        if pr.contains(x) {
            let i = choose|i: int| 0 <= i < pr.len() && pr[i] == x;
            assert(after.contains(pr[i]));
        }
    }
    lemma_sorted_unique(l, after);
}

impl Default for BuiltinRegistry {
    /// A registry holding `/history`, `/clear` and `/help`, registered in that order.
    fn default() -> (r: Self)
        ensures
            r@ == seq![
                Builtin::History(HistoryCommand),
                Builtin::Clear(ClearCommand),
                Builtin::Help(HelpCommand),
            ],
    {
        let mut reg = Self::new();
        proof {
            reveal_strlit("history");
            reveal_strlit("clear");
            reveal_strlit("help");
        }
        reg.register(Builtin::History(HistoryCommand));
        assert(reg@ =~= seq![Builtin::History(HistoryCommand)]);
        reg.register(Builtin::Clear(ClearCommand));
        assert("clear"@.len() != "history"@.len());
        assert(reg@ =~= seq![Builtin::History(HistoryCommand), Builtin::Clear(ClearCommand)]);
        reg.register(Builtin::Help(HelpCommand));
        assert("help"@.len() != "history"@.len());
        assert("help"@.len() != "clear"@.len());
        reg
    }
}

} // verus!
