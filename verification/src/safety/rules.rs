//! The local rule engine: a fixed list of risk rules, each a pattern over the
//! normalized (trimmed, lower-cased) command text.
use vstd::prelude::*;

use crate::text::{
    begins, chars_of, contains, includes, infix, law_trim_idempotent, lemma_infix_contains,
    lemma_infix_trans, lemma_split_none, lemma_split_pieces, lemma_split_two, lemma_trim_infix,
    lemma_trim_end_last, lemma_trim_end_prefix, lemma_trim_fixed, lemma_trim_start_head, lowercase,
    occurs_at, split, split_chars,
    starts_with, to_lowercase, trim, trim_chars, views,
};

verus! {

/// Risk level of a command, from harmless to never allowed.
#[derive(Clone, Copy, Debug, PartialEq, Eq, Structural, PartialOrd, Ord)]
pub enum RiskLevel {
    /// Read-only or informational; runs directly.
    Low,
    /// Reversible write; needs a simple confirmation.
    Medium,
    /// Irreversible or destructive; needs a strong confirmation.
    High,
    /// Never executed.
    Forbidden,
}

impl RiskLevel {
    /// Position of the level in the order `Low < Medium < High < Forbidden`.
    pub open spec fn spec_rank(self) -> nat {
        match self {
            RiskLevel::Low => 0,
            RiskLevel::Medium => 1,
            RiskLevel::High => 2,
            RiskLevel::Forbidden => 3,
        }
    }

    /// Position of the level in the order `Low < Medium < High < Forbidden`.
    pub fn rank(&self) -> (r: u8)
        ensures
            r == self.spec_rank(),
    {
        match self {
            RiskLevel::Low => 0,
            RiskLevel::Medium => 1,
            RiskLevel::High => 2,
            RiskLevel::Forbidden => 3,
        }
    }

    /// The label shown to the user for this level.
    pub open spec fn spec_label(self) -> Seq<char> {
        match self {
            RiskLevel::Low => "🟢 低风险"@,
            RiskLevel::Medium => "🟡 中风险"@,
            RiskLevel::High => "🔴 高风险"@,
            RiskLevel::Forbidden => "⛔ 禁止"@,
        }
    }

    /// The label shown to the user for this level.
    pub fn label(&self) -> (r: &'static str)
        ensures
            r@ == self.spec_label(),
    {
        match self {
            RiskLevel::Low => "🟢 低风险",
            RiskLevel::Medium => "🟡 中风险",
            RiskLevel::High => "🔴 高风险",
            RiskLevel::Forbidden => "⛔ 禁止",
        }
    }

    /// The higher of two levels.
    pub fn max(self, other: RiskLevel) -> (r: RiskLevel)
        ensures
            r == higher(self, other),
    {
        if other.rank() > self.rank() {
            other
        } else {
            self
        }
    }
}

/// The higher of two levels (the first one when they are equal).
pub open spec fn higher(a: RiskLevel, b: RiskLevel) -> RiskLevel {
    if b.spec_rank() > a.spec_rank() {
        b
    } else {
        a
    }
}

/// The built-in command patterns, one per rule.
#[derive(Clone, Copy, Debug, PartialEq, Eq, Structural)]
pub enum Pattern {
    ForkBomb,
    FormatDisk,
    RmRoot,
    DdDiskOverwrite,
    RmRecursive,
    Chmod777,
    DropDatabase,
    GitForcePush,
    GitResetHard,
    CurlPipeSh,
    RegistryEdit,
    KillAll,
    SudoPrefix,
    FileOverwrite,
    MvCommand,
    CpRecursive,
    GitClean,
    NpmInstallGlobal,
    ServiceControl,
}

/// Whether the normalized command `c` matches pattern `p`.
pub open spec fn pattern_holds(p: Pattern, c: Seq<char>) -> bool {
    match p {
        Pattern::ForkBomb => contains(c, ":(){ :|:& };:"@) || contains(c, ":(){"@),
        Pattern::FormatDisk => starts_with(c, "format "@) || contains(c, "mkfs"@) || contains(
            c,
            "/dev/sda"@,
        ) || contains(c, "/dev/nvme"@),
        Pattern::RmRoot => (starts_with(c, "rm "@) && (contains(c, " /"@) || contains(
            c,
            " c:\\"@,
        )) && (contains(c, "-rf"@) || contains(c, "-fr"@))) || (starts_with(c, "del "@)
            && contains(c, "/s"@) && (contains(c, "c:\\"@) || contains(c, "*"@))),
        Pattern::DdDiskOverwrite => starts_with(c, "dd "@) && contains(c, "of=/dev/"@),
        Pattern::RmRecursive => starts_with(c, "rm "@) && (contains(c, "-r"@) || contains(
            c,
            "-f"@,
        )),
        Pattern::Chmod777 => contains(c, "chmod"@) && (contains(c, "777"@) || contains(
            c,
            "+rwx"@,
        )),
        Pattern::DropDatabase => contains(c, "drop database"@) || contains(c, "drop table"@)
            || contains(c, "truncate table"@),
        Pattern::GitForcePush => contains(c, "git push"@) && (contains(c, "-f"@) || contains(
            c,
            "--force"@,
        )),
        Pattern::GitResetHard => contains(c, "git reset"@) && contains(c, "--hard"@),
        Pattern::CurlPipeSh => (contains(c, "curl "@) || contains(c, "wget "@)) && (contains(
            c,
            "| sh"@,
        ) || contains(c, "| bash"@) || contains(c, "| powershell"@) || contains(c, "| iex"@)),
        Pattern::RegistryEdit => starts_with(c, "reg "@) && (contains(c, "delete"@) || contains(
            c,
            "add"@,
        )),
        Pattern::KillAll => contains(c, "killall"@) || contains(c, "taskkill /f"@),
        Pattern::SudoPrefix => starts_with(c, "sudo "@),
        Pattern::FileOverwrite => contains(c, " > "@) && !contains(c, " >> "@),
        Pattern::MvCommand => starts_with(c, "mv "@) || starts_with(c, "move "@),
        Pattern::CpRecursive => starts_with(c, "cp "@) && contains(c, "-r"@),
        Pattern::GitClean => contains(c, "git clean"@),
        Pattern::NpmInstallGlobal => (starts_with(c, "npm "@) || starts_with(c, "pnpm "@))
            && contains(c, "install"@) && contains(c, "-g"@),
        Pattern::ServiceControl => starts_with(c, "systemctl "@) || starts_with(c, "service "@)
            || (starts_with(c, "net "@) && (contains(c, "stop"@) || contains(c, "start"@))),
    }
}

impl Pattern {
    /// Whether the normalized command `c` matches this pattern.
    pub fn matches(&self, c: &Vec<char>) -> (r: bool)
        ensures
            r == pattern_holds(*self, c@),
    {
        match self {
            Pattern::ForkBomb => includes(c, ":(){ :|:& };:") || includes(c, ":(){"),
            Pattern::FormatDisk => begins(c, "format ") || includes(c, "mkfs") || includes(c, "/dev/sda")
                || includes(c, "/dev/nvme"),
            Pattern::RmRoot => {
                let rm_pattern = begins(c, "rm ") && (includes(c, " /") || includes(c, " c:\\")) && (includes(
                    c,
                    "-rf",
                ) || includes(c, "-fr"));
                let del_pattern = begins(c, "del ") && includes(c, "/s") && (includes(c, "c:\\") || includes(
                    c,
                    "*",
                ));
                rm_pattern || del_pattern
            },
            Pattern::DdDiskOverwrite => begins(c, "dd ") && includes(c, "of=/dev/"),
            Pattern::RmRecursive => begins(c, "rm ") && (includes(c, "-r") || includes(c, "-f")),
            Pattern::Chmod777 => includes(c, "chmod") && (includes(c, "777") || includes(c, "+rwx")),
            Pattern::DropDatabase => includes(c, "drop database") || includes(c, "drop table") || includes(
                c,
                "truncate table",
            ),
            Pattern::GitForcePush => includes(c, "git push") && (includes(c, "-f") || includes(c, "--force")),
            Pattern::GitResetHard => includes(c, "git reset") && includes(c, "--hard"),
            Pattern::CurlPipeSh => (includes(c, "curl ") || includes(c, "wget ")) && (includes(c, "| sh") || includes(
                c,
                "| bash",
            ) || includes(c, "| powershell") || includes(c, "| iex")),
            Pattern::RegistryEdit => begins(c, "reg ") && (includes(c, "delete") || includes(c, "add")),
            Pattern::KillAll => includes(c, "killall") || includes(c, "taskkill /f"),
            Pattern::SudoPrefix => begins(c, "sudo "),
            Pattern::FileOverwrite => includes(c, " > ") && !includes(c, " >> "),
            Pattern::MvCommand => begins(c, "mv ") || begins(c, "move "),
            Pattern::CpRecursive => begins(c, "cp ") && includes(c, "-r"),
            Pattern::GitClean => includes(c, "git clean"),
            Pattern::NpmInstallGlobal => (begins(c, "npm ") || begins(c, "pnpm ")) && includes(
                c,
                "install",
            ) && includes(c, "-g"),
            Pattern::ServiceControl => begins(c, "systemctl ") || begins(c, "service ") || (begins(
                c,
                "net ",
            ) && (includes(c, "stop") || includes(c, "start"))),
        }
    }
}

/// A rule as the specifications see it.
pub struct RuleSpec {
    pub name: Seq<char>,
    pub level: RiskLevel,
    pub reason: Seq<char>,
    pub pattern: Pattern,
}

/// One risk rule: a name, a level, a reason and the pattern that triggers it.
struct Rule {
    name: &'static str,
    level: RiskLevel,
    reason: &'static str,
    pattern: Pattern,
}

impl View for Rule {
    type V = RuleSpec;

    closed spec fn view(&self) -> RuleSpec {
        RuleSpec { name: self.name@, level: self.level, reason: self.reason@, pattern: self.pattern }
    }
}

/// A rule that matched a command.
#[derive(Debug, Clone)]
pub struct RuleMatch {
    pub level: RiskLevel,
    pub rule_name: String,
    pub reason: String,
}

/// A rule match as the specifications see it.
pub struct MatchSpec {
    pub level: RiskLevel,
    pub rule_name: Seq<char>,
    pub reason: Seq<char>,
}

impl View for RuleMatch {
    type V = MatchSpec;

    open spec fn view(&self) -> MatchSpec {
        MatchSpec { level: self.level, rule_name: self.rule_name@, reason: self.reason@ }
    }
}

/// The views of a sequence of matches.
pub open spec fn match_views(v: Seq<RuleMatch>) -> Seq<MatchSpec> {
    v.map_values(|m: RuleMatch| m@)
}

/// The match reported for rule `r`.
pub open spec fn match_of(r: RuleSpec) -> MatchSpec {
    MatchSpec { level: r.level, rule_name: r.name, reason: r.reason }
}

/// The matches of the rules of level `l` that `c` triggers, in rule order.
pub open spec fn matches_at_level(rules: Seq<RuleSpec>, c: Seq<char>, l: RiskLevel) -> Seq<
    MatchSpec,
>
    decreases rules.len(),
{
    if rules.len() == 0 {
        seq![]
    } else {
        let r = rules.last();
        matches_at_level(rules.drop_last(), c, l) + if r.level == l && pattern_holds(
            r.pattern,
            c,
        ) {
            seq![match_of(r)]
        } else {
            seq![]
        }
    }
}

/// The matches that the normalized command `c` triggers: every rule whose
/// pattern holds, highest level first, rule order kept within a level.
pub open spec fn matches_in(rules: Seq<RuleSpec>, c: Seq<char>) -> Seq<MatchSpec> {
    matches_at_level(rules, c, RiskLevel::Forbidden) + matches_at_level(rules, c, RiskLevel::High)
        + matches_at_level(rules, c, RiskLevel::Medium) + matches_at_level(
        rules,
        c,
        RiskLevel::Low,
    )
}

/// A raw command as the rules see it: trimmed, then lower-cased.
pub open spec fn normalize(command: Seq<char>) -> Seq<char> {
    lowercase(trim(command))
}

/// The highest level among the matches, `Low` when there is none.
pub open spec fn max_level_of(ms: Seq<MatchSpec>) -> RiskLevel
    decreases ms.len(),
{
    if ms.len() == 0 {
        RiskLevel::Low
    } else {
        higher(max_level_of(ms.drop_last()), ms.last().level)
    }
}

/// The level of the first match, `Low` when there is none.
pub open spec fn first_level(ms: Seq<MatchSpec>) -> RiskLevel {
    if ms.len() > 0 {
        ms[0].level
    } else {
        RiskLevel::Low
    }
}

/// The levels of `ms` never increase from one match to the next.
pub open spec fn descending(ms: Seq<MatchSpec>) -> bool {
    forall|i: int, j: int|
        0 <= i < j < ms.len() ==> #[trigger] ms[i].level.spec_rank()
            >= #[trigger] ms[j].level.spec_rank()
}

/// The pieces of the command chain `segs` after splitting each at `sep`,
/// trimming every piece and dropping the empty ones.
pub open spec fn split_all(segs: Seq<Seq<char>>, sep: Seq<char>) -> Seq<Seq<char>>
    decreases segs.len(),
{
    if segs.len() == 0 {
        seq![]
    } else {
        split_all(segs.drop_last(), sep) + kept(split(segs.last(), sep))
    }
}

/// The trimmed pieces that are not empty.
pub open spec fn kept(ps: Seq<Seq<char>>) -> Seq<Seq<char>>
    decreases ps.len(),
{
    if ps.len() == 0 {
        seq![]
    } else {
        kept(ps.drop_last()) + if trim(ps.last()).len() > 0 {
            seq![trim(ps.last())]
        } else {
            seq![]
        }
    }
}

/// The segments of a command chain: split at `&&`, then `||`, then `;`,
/// then `|`, each piece trimmed, empty pieces dropped.
pub open spec fn chain_segments(command: Seq<char>) -> Seq<Seq<char>> {
    split_all(
        split_all(split_all(split_all(seq![command], "&&"@), "||"@), ";"@),
        "|"@,
    )
}

/// The matches of every segment, segment after segment.
pub open spec fn chain_matches(rules: Seq<RuleSpec>, segs: Seq<Seq<char>>) -> Seq<MatchSpec>
    decreases segs.len(),
{
    if segs.len() == 0 {
        seq![]
    } else {
        chain_matches(rules, segs.drop_last()) + matches_in(rules, normalize(segs.last()))
    }
}

/// The highest of the risk levels of the segments.
pub open spec fn segments_level(rules: Seq<RuleSpec>, segs: Seq<Seq<char>>) -> RiskLevel
    decreases segs.len(),
{
    if segs.len() == 0 {
        RiskLevel::Low
    } else {
        higher(
            segments_level(rules, segs.drop_last()),
            first_level(matches_in(rules, normalize(segs.last()))),
        )
    }
}

/// The rules that `RuleEngine::new` installs, in this order.
pub open spec fn builtin_rules() -> Seq<RuleSpec> {
    seq![
        RuleSpec { name: "fork_bomb"@, level: RiskLevel::Forbidden, reason: "检测到 fork 炸弹模式，会导致系统资源耗尽"@, pattern: Pattern::ForkBomb },
        RuleSpec { name: "format_disk"@, level: RiskLevel::Forbidden, reason: "格式化磁盘将导致所有数据不可恢复丢失"@, pattern: Pattern::FormatDisk },
        RuleSpec { name: "rm_root"@, level: RiskLevel::Forbidden, reason: "删除根目录/系统目录将摧毁整个系统"@, pattern: Pattern::RmRoot },
        RuleSpec { name: "dd_disk_overwrite"@, level: RiskLevel::Forbidden, reason: "dd 写入磁盘设备会导致数据不可恢复"@, pattern: Pattern::DdDiskOverwrite },
        RuleSpec { name: "rm_recursive"@, level: RiskLevel::High, reason: "递归删除目录，文件不可恢复"@, pattern: Pattern::RmRecursive },
        RuleSpec { name: "chmod_777"@, level: RiskLevel::High, reason: "开放全部权限，存在严重安全隐患"@, pattern: Pattern::Chmod777 },
        RuleSpec { name: "drop_database"@, level: RiskLevel::High, reason: "删除数据库/表操作不可恢复"@, pattern: Pattern::DropDatabase },
        RuleSpec { name: "git_force_push"@, level: RiskLevel::High, reason: "强制推送会覆盖远程历史，可能导致他人工作丢失"@, pattern: Pattern::GitForcePush },
        RuleSpec { name: "git_reset_hard"@, level: RiskLevel::High, reason: "硬重置会丢弃所有未提交的更改"@, pattern: Pattern::GitResetHard },
        RuleSpec { name: "curl_pipe_sh"@, level: RiskLevel::High, reason: "从网络下载并直接执行脚本，存在远程代码执行风险"@, pattern: Pattern::CurlPipeSh },
        RuleSpec { name: "registry_edit"@, level: RiskLevel::High, reason: "修改 Windows 注册表可能导致系统不稳定"@, pattern: Pattern::RegistryEdit },
        RuleSpec { name: "kill_all"@, level: RiskLevel::High, reason: "批量终止进程可能导致系统不稳定或数据丢失"@, pattern: Pattern::KillAll },
        RuleSpec { name: "sudo_prefix"@, level: RiskLevel::Medium, reason: "以管理员权限执行，影响范围更大"@, pattern: Pattern::SudoPrefix },
        RuleSpec { name: "file_overwrite"@, level: RiskLevel::Medium, reason: "重定向写入可能覆盖现有文件内容"@, pattern: Pattern::FileOverwrite },
        RuleSpec { name: "mv_command"@, level: RiskLevel::Medium, reason: "移动/重命名文件，如目标已存在会被覆盖"@, pattern: Pattern::MvCommand },
        RuleSpec { name: "cp_recursive"@, level: RiskLevel::Medium, reason: "递归复制可能覆盖目标目录中的同名文件"@, pattern: Pattern::CpRecursive },
        RuleSpec { name: "git_clean"@, level: RiskLevel::Medium, reason: "清理未跟踪文件，可能删除有用的本地文件"@, pattern: Pattern::GitClean },
        RuleSpec { name: "npm_install_global"@, level: RiskLevel::Medium, reason: "全局安装包会影响系统环境"@, pattern: Pattern::NpmInstallGlobal },
        RuleSpec { name: "service_control"@, level: RiskLevel::Medium, reason: "启停系统服务可能影响其他应用"@, pattern: Pattern::ServiceControl },
    ]
}

/// The local rule engine.
pub struct RuleEngine {
    rules: Vec<Rule>,
}

impl View for RuleEngine {
    type V = Seq<RuleSpec>;

    closed spec fn view(&self) -> Seq<RuleSpec> {
        self.rules@.map_values(|r: Rule| r@)
    }
}

impl RuleEngine {
    /// An engine holding the built-in rules.
    pub fn new() -> (engine: Self)
        ensures
            engine@ == builtin_rules(),
    {
        let mut engine = RuleEngine { rules: Vec::new() };
        assert(engine@ =~= seq![]);
        engine.register_builtin_rules();
        assert(engine@ =~= builtin_rules());
        engine
    }

    /// Every rule that the command triggers, highest level first.
    pub fn evaluate(&self, command: &str) -> (r: Vec<RuleMatch>)
        ensures
            match_views(r@) == matches_in(self@, normalize(command@)),
    {
        let raw = chars_of(command);
        let trimmed = trim_chars(&raw);
        let normalized = to_lowercase(&trimmed);
        self.evaluate_chars(&normalized)
    }

    /// Every rule that the already normalized command triggers, highest level first.
    pub fn evaluate_normalized(&self, normalized: &str) -> (r: Vec<RuleMatch>)
        ensures
            match_views(r@) == matches_in(self@, normalized@),
    {
        let c = chars_of(normalized);
        self.evaluate_chars(&c)
    }

    /// The highest level among the rules that the command triggers, `Low` when none does.
    pub fn max_risk(&self, command: &str) -> (r: RiskLevel)
        ensures
            r == first_level(matches_in(self@, normalize(command@))),
            r == max_level_of(matches_in(self@, normalize(command@))),
    {
        let matches = self.evaluate(command);
        proof {
            law_matches_descending(self@, normalize(command@));
            lemma_max_of_descending(matches_in(self@, normalize(command@)));
        }
        if matches.len() > 0 {
            assert(match_views(matches@)[0] == matches@[0]@);
            matches[0].level
        } else {
            RiskLevel::Low
        }
    }

    /// Splits a command chain at `&&`, `||`, `;` and `|`, evaluates every
    /// segment and returns the highest level found with all the matches.
    pub fn evaluate_chain(&self, command: &str) -> (r: (RiskLevel, Vec<RuleMatch>))
        ensures
            match_views(r.1@) == chain_matches(self@, chain_segments(command@)),
            r.0 == max_level_of(match_views(r.1@)),
            r.0 == segments_level(self@, chain_segments(command@)),
    {
        let whole = chars_of(command);
        let mut segments: Vec<Vec<char>> = Vec::new();
        segments.push(whole);
        assert(views(segments@) =~= seq![command@]);
        let sep1 = chars_of("&&");
        let sep2 = chars_of("||");
        let sep3 = chars_of(";");
        let sep4 = chars_of("|");
        proof {
            reveal_strlit("&&");
            reveal_strlit("||");
            reveal_strlit(";");
            reveal_strlit("|");
        }
        let segments = split_all_chars(&segments, &sep1);
        let segments = split_all_chars(&segments, &sep2);
        let segments = split_all_chars(&segments, &sep3);
        let segments = split_all_chars(&segments, &sep4);
        let ghost segs = views(segments@);
        let mut all: Vec<RuleMatch> = Vec::new();
        let mut max_level = RiskLevel::Low;
        let n = segments.len();
        for i in 0..n
            invariant
                n == segments@.len(),
                segs == views(segments@),
                match_views(all@) == chain_matches(self@, segs.take(i as int)),
                max_level == max_level_of(match_views(all@)),
        {
            let trimmed = trim_chars(&segments[i]);
            let normalized = to_lowercase(&trimmed);
            let found = self.evaluate_chars(&normalized);
            proof {
                assert(segs.take(i + 1).drop_last() =~= segs.take(i as int));
                assert(segs.take(i + 1).last() == segments@[i as int]@);
            }
            let ghost before = match_views(all@);
            let m = found.len();
            for k in 0..m
                invariant
                    m == found@.len(),
                    match_views(all@) == before + match_views(found@).take(k as int),
                    max_level == max_level_of(match_views(all@)),
            {
                let level = found[k].level;
                let ghost prev = match_views(all@);
                all.push(found[k].clone_match());
                max_level = max_level.max(level);
                proof {
                    assert(match_views(all@) =~= prev.push(found@[k as int]@));
                    assert(match_views(all@).drop_last() =~= prev);
                    assert(match_views(found@).take(k + 1) =~= match_views(found@).take(
                        k as int,
                    ).push(found@[k as int]@));
                }
            }
            assert(match_views(found@).take(m as int) =~= match_views(found@));
        }
        assert(segs.take(n as int) =~= segs);
        proof {
            law_chain_level_is_highest_segment(self@, segs);
        }
        (max_level, all)
    }

    /// Every rule that `c` triggers, highest level first: the order that
    /// filtering the rules and then sorting stably by descending level gives.
    fn evaluate_chars(&self, c: &Vec<char>) -> (r: Vec<RuleMatch>)
        ensures
            match_views(r@) == matches_in(self@, c@),
    {
        let mut out: Vec<RuleMatch> = Vec::new();
        assert(match_views(out@) =~= seq![]);
        self.collect_level(c, RiskLevel::Forbidden, &mut out);
        self.collect_level(c, RiskLevel::High, &mut out);
        self.collect_level(c, RiskLevel::Medium, &mut out);
        self.collect_level(c, RiskLevel::Low, &mut out);
        out
    }

    /// Appends the matches of the rules of level `l` that `c` triggers.
    fn collect_level(&self, c: &Vec<char>, l: RiskLevel, out: &mut Vec<RuleMatch>)
        ensures
            match_views(final(out)@) == match_views(old(out)@) + matches_at_level(self@, c@, l),
    {
        let ghost rules = self@;
        let ghost start = match_views(out@);
        let n = self.rules.len();
        for i in 0..n
            invariant
                n == self.rules@.len(),
                rules == self@,
                rules.len() == n,
                match_views(out@) == start + matches_at_level(rules.take(i as int), c@, l),
        {
            let rule = &self.rules[i];
            proof {
                assert(rules.take(i + 1).drop_last() =~= rules.take(i as int));
                assert(rules.take(i + 1).last() == rule@);
            }
            if rule.level == l && rule.pattern.matches(c) {
                let ghost prev = match_views(out@);
                out.push(
                    RuleMatch {
                        level: rule.level,
                        rule_name: rule.name.to_owned(),
                        reason: rule.reason.to_owned(),
                    },
                );
                assert(match_views(out@) =~= prev.push(match_of(rule@)));
            }
        }
        assert(rules.take(n as int) =~= rules);
    }

    /// Installs the built-in rules after the current ones.
    fn register_builtin_rules(&mut self)
        ensures
            final(self)@ == old(self)@ + builtin_rules(),
    {
        // Forbidden
        self.add_rule(
            "fork_bomb",
            RiskLevel::Forbidden,
            "检测到 fork 炸弹模式，会导致系统资源耗尽",
            Pattern::ForkBomb,
        );
        self.add_rule(
            "format_disk",
            RiskLevel::Forbidden,
            "格式化磁盘将导致所有数据不可恢复丢失",
            Pattern::FormatDisk,
        );
        self.add_rule(
            "rm_root",
            RiskLevel::Forbidden,
            "删除根目录/系统目录将摧毁整个系统",
            Pattern::RmRoot,
        );
        self.add_rule(
            "dd_disk_overwrite",
            RiskLevel::Forbidden,
            "dd 写入磁盘设备会导致数据不可恢复",
            Pattern::DdDiskOverwrite,
        );
        // High
        self.add_rule(
            "rm_recursive",
            RiskLevel::High,
            "递归删除目录，文件不可恢复",
            Pattern::RmRecursive,
        );
        self.add_rule(
            "chmod_777",
            RiskLevel::High,
            "开放全部权限，存在严重安全隐患",
            Pattern::Chmod777,
        );
        self.add_rule(
            "drop_database",
            RiskLevel::High,
            "删除数据库/表操作不可恢复",
            Pattern::DropDatabase,
        );
        self.add_rule(
            "git_force_push",
            RiskLevel::High,
            "强制推送会覆盖远程历史，可能导致他人工作丢失",
            Pattern::GitForcePush,
        );
        self.add_rule(
            "git_reset_hard",
            RiskLevel::High,
            "硬重置会丢弃所有未提交的更改",
            Pattern::GitResetHard,
        );
        self.add_rule(
            "curl_pipe_sh",
            RiskLevel::High,
            "从网络下载并直接执行脚本，存在远程代码执行风险",
            Pattern::CurlPipeSh,
        );
        self.add_rule(
            "registry_edit",
            RiskLevel::High,
            "修改 Windows 注册表可能导致系统不稳定",
            Pattern::RegistryEdit,
        );
        self.add_rule(
            "kill_all",
            RiskLevel::High,
            "批量终止进程可能导致系统不稳定或数据丢失",
            Pattern::KillAll,
        );
        // Medium
        self.add_rule(
            "sudo_prefix",
            RiskLevel::Medium,
            "以管理员权限执行，影响范围更大",
            Pattern::SudoPrefix,
        );
        self.add_rule(
            "file_overwrite",
            RiskLevel::Medium,
            "重定向写入可能覆盖现有文件内容",
            Pattern::FileOverwrite,
        );
        self.add_rule(
            "mv_command",
            RiskLevel::Medium,
            "移动/重命名文件，如目标已存在会被覆盖",
            Pattern::MvCommand,
        );
        self.add_rule(
            "cp_recursive",
            RiskLevel::Medium,
            "递归复制可能覆盖目标目录中的同名文件",
            Pattern::CpRecursive,
        );
        self.add_rule(
            "git_clean",
            RiskLevel::Medium,
            "清理未跟踪文件，可能删除有用的本地文件",
            Pattern::GitClean,
        );
        self.add_rule(
            "npm_install_global",
            RiskLevel::Medium,
            "全局安装包会影响系统环境",
            Pattern::NpmInstallGlobal,
        );
        self.add_rule(
            "service_control",
            RiskLevel::Medium,
            "启停系统服务可能影响其他应用",
            Pattern::ServiceControl,
        );
        assert(self@ =~= old(self)@ + builtin_rules());
    }

    /// Appends one rule.
    fn add_rule(
        &mut self,
        name: &'static str,
        level: RiskLevel,
        reason: &'static str,
        pattern: Pattern,
    )
        ensures
            final(self)@ == old(self)@.push(
                RuleSpec { name: name@, level: level, reason: reason@, pattern: pattern },
            ),
    {
        self.rules.push(Rule { name, level, reason, pattern });
        assert(self@ =~= old(self)@.push(
            RuleSpec { name: name@, level: level, reason: reason@, pattern: pattern },
        ));
    }
}

impl RuleMatch {
    /// A copy of this match.
    pub fn clone_match(&self) -> (r: RuleMatch)
        ensures
            r@ == self@,
    {
        RuleMatch { level: self.level, rule_name: self.rule_name.clone(), reason: self.reason.clone() }
    }
}

/// Splits every segment at `sep`, trims the pieces and drops the empty ones.
fn split_all_chars(segs: &Vec<Vec<char>>, sep: &Vec<char>) -> (r: Vec<Vec<char>>)
    requires
        sep@.len() > 0,
    ensures
        views(r@) == split_all(views(segs@), sep@),
{
    let ghost vs = views(segs@);
    let mut out: Vec<Vec<char>> = Vec::new();
    assert(views(out@) =~= seq![]);
    let n = segs.len();
    for i in 0..n
        invariant
            n == segs@.len(),
            vs == views(segs@),
            sep@.len() > 0,
            views(out@) == split_all(vs.take(i as int), sep@),
    {
        let pieces = split_chars(&segs[i], sep);
        proof {
            assert(vs.take(i + 1).drop_last() =~= vs.take(i as int));
            assert(vs.take(i + 1).last() == segs@[i as int]@);
        }
        let ghost ps = views(pieces@);
        let ghost before = views(out@);
        let m = pieces.len();
        for k in 0..m
            invariant
                m == pieces@.len(),
                ps == views(pieces@),
                views(out@) == before + kept(ps.take(k as int)),
        {
            let t = trim_chars(&pieces[k]);
            proof {
                assert(ps.take(k + 1).drop_last() =~= ps.take(k as int));
                assert(ps.take(k + 1).last() == pieces@[k as int]@);
            }
            if t.len() > 0 {
                let ghost prev = views(out@);
                out.push(t);
                assert(views(out@) =~= prev.push(t@));
            }
            assert(views(out@) =~= before + kept(ps.take(k + 1)));
        }
        assert(ps.take(m as int) =~= ps);
    }
    assert(vs.take(n as int) =~= vs);
    out
}

/// Every match at level `l` has level `l`.
proof fn lemma_at_level(rules: Seq<RuleSpec>, c: Seq<char>, l: RiskLevel)
    ensures
        forall|i: int|
            0 <= i < matches_at_level(rules, c, l).len() ==> (#[trigger] matches_at_level(
                rules,
                c,
                l,
            )[i]).level == l,
    decreases rules.len(),
{
    if rules.len() > 0 {
        lemma_at_level(rules.drop_last(), c, l);
    }
}

/// Concatenating two descending sequences, the first never below the second,
/// gives a descending sequence.
proof fn lemma_descending_concat(a: Seq<MatchSpec>, b: Seq<MatchSpec>, k: nat)
    requires
        descending(a),
        descending(b),
        forall|i: int| 0 <= i < a.len() ==> (#[trigger] a[i]).level.spec_rank() >= k,
        forall|i: int| 0 <= i < b.len() ==> (#[trigger] b[i]).level.spec_rank() <= k,
    ensures
        descending(a + b),
{
    let s = a + b;
    assert forall|i: int, j: int| 0 <= i < j < s.len() implies #[trigger] s[i].level.spec_rank()
        >= #[trigger] s[j].level.spec_rank() by {
        if j < a.len() {
            assert(s[i] == a[i] && s[j] == a[j]);
        } else if i >= a.len() {
            assert(s[i] == b[i - a.len()] && s[j] == b[j - a.len()]);
        } else {
            assert(s[i] == a[i] && s[j] == b[j - a.len()]);
        }
    }
}

/// The matches of a command come highest level first.
pub proof fn law_matches_descending(rules: Seq<RuleSpec>, c: Seq<char>)
    ensures
        descending(matches_in(rules, c)),
{
    let f = matches_at_level(rules, c, RiskLevel::Forbidden);
    let h = matches_at_level(rules, c, RiskLevel::High);
    let m = matches_at_level(rules, c, RiskLevel::Medium);
    let lo = matches_at_level(rules, c, RiskLevel::Low);
    lemma_at_level(rules, c, RiskLevel::Forbidden);
    lemma_at_level(rules, c, RiskLevel::High);
    lemma_at_level(rules, c, RiskLevel::Medium);
    lemma_at_level(rules, c, RiskLevel::Low);
    lemma_descending_concat(f, h, 2);
    let fh = f + h;
    assert forall|i: int| 0 <= i < fh.len() implies (#[trigger] fh[i]).level.spec_rank() >= 1 by {
        if i < f.len() {
            assert(fh[i] == f[i]);
        } else {
            assert(fh[i] == h[i - f.len()]);
        }
    }
    lemma_descending_concat(fh, m, 1);
    let fhm = fh + m;
    assert forall|i: int| 0 <= i < fhm.len() implies (#[trigger] fhm[i]).level.spec_rank()
        >= 0 by {}
    lemma_descending_concat(fhm, lo, 0);
}

/// In a descending sequence the first level is the highest one.
pub proof fn lemma_max_of_descending(ms: Seq<MatchSpec>)
    requires
        descending(ms),
    ensures
        max_level_of(ms) == first_level(ms),
    decreases ms.len(),
{
    if ms.len() > 1 {
        let d = ms.drop_last();
        assert(descending(d)) by {
            assert forall|i: int, j: int| 0 <= i < j < d.len() implies #[trigger] d[i].level.spec_rank()
                >= #[trigger] d[j].level.spec_rank() by {
                assert(d[i] == ms[i] && d[j] == ms[j]);
            }
        }
        lemma_max_of_descending(d);
        assert(d[0] == ms[0]);
        assert(ms[0].level.spec_rank() >= ms[ms.len() - 1].level.spec_rank());
        assert(max_level_of(d) == ms[0].level);
        assert(max_level_of(ms) == higher(ms[0].level, ms.last().level));
    } else if ms.len() == 1 {
        assert(ms.drop_last().len() == 0);
        assert(max_level_of(ms.drop_last()) == RiskLevel::Low);
        assert(max_level_of(ms) == higher(RiskLevel::Low, ms[0].level));
    }
}

/// The highest level of two concatenated sequences is the higher of their highest levels.
pub proof fn lemma_max_level_concat(a: Seq<MatchSpec>, b: Seq<MatchSpec>)
    ensures
        max_level_of(a + b) == higher(max_level_of(a), max_level_of(b)),
    decreases b.len(),
{
    if b.len() == 0 {
        assert(a + b =~= a);
        assert(higher(max_level_of(a), RiskLevel::Low) == max_level_of(a));
    } else {
        assert((a + b).drop_last() =~= a + b.drop_last());
        assert((a + b).last() == b.last());
        lemma_max_level_concat(a, b.drop_last());
    }
}

/// Law: the level of a command chain is the highest of the levels of its
/// segments, and it is the highest level among all the matches reported.
pub proof fn law_chain_level_is_highest_segment(rules: Seq<RuleSpec>, segs: Seq<Seq<char>>)
    ensures
        max_level_of(chain_matches(rules, segs)) == segments_level(rules, segs),
    decreases segs.len(),
{
    if segs.len() > 0 {
        law_chain_level_is_highest_segment(rules, segs.drop_last());
        let ms = matches_in(rules, normalize(segs.last()));
        lemma_max_level_concat(chain_matches(rules, segs.drop_last()), ms);
        law_matches_descending(rules, normalize(segs.last()));
        lemma_max_of_descending(ms);
    }
}


/// No two rules share a name.
pub open spec fn names_distinct(rules: Seq<RuleSpec>) -> bool {
    forall|i: int, j: int| 0 <= i < j < rules.len() ==> #[trigger] rules[i].name != #[trigger] rules[j].name
}

/// No two matches name the same rule.
pub open spec fn match_names_apart(ms: Seq<MatchSpec>) -> bool {
    forall|i: int, j: int|
        0 <= i < j < ms.len() ==> #[trigger] ms[i].rule_name != #[trigger] ms[j].rule_name
}

/// The built-in rules: no name twice, no `Low` rule, the first four and only
/// those `Forbidden`, with the patterns in the listed order.
pub proof fn lemma_builtin_table()
    ensures
        names_distinct(builtin_rules()),
        builtin_rules().len() == 19,
        forall|k: int|
            0 <= k < 19 ==> (#[trigger] builtin_rules()[k]).level != RiskLevel::Low && ((
            builtin_rules()[k].level == RiskLevel::Forbidden) <==> k < 4),
        builtin_rules()[0].pattern == Pattern::ForkBomb,
        builtin_rules()[1].pattern == Pattern::FormatDisk,
        builtin_rules()[2].pattern == Pattern::RmRoot,
        builtin_rules()[3].pattern == Pattern::DdDiskOverwrite,
{
    reveal_strlit("fork_bomb");
    reveal_strlit("format_disk");
    reveal_strlit("rm_root");
    reveal_strlit("dd_disk_overwrite");
    reveal_strlit("rm_recursive");
    reveal_strlit("chmod_777");
    reveal_strlit("drop_database");
    reveal_strlit("git_force_push");
    reveal_strlit("git_reset_hard");
    reveal_strlit("curl_pipe_sh");
    reveal_strlit("registry_edit");
    reveal_strlit("kill_all");
    reveal_strlit("sudo_prefix");
    reveal_strlit("file_overwrite");
    reveal_strlit("mv_command");
    reveal_strlit("cp_recursive");
    reveal_strlit("git_clean");
    reveal_strlit("npm_install_global");
    reveal_strlit("service_control");
    let r = builtin_rules();
    assert forall|i: int, j: int| 0 <= i < j < r.len() implies #[trigger] r[i].name
        != #[trigger] r[j].name by {
        assert(0 <= i < 19 && 0 <= j < 19);
        assert(i == 0 || i == 1 || i == 2 || i == 3 || i == 4 || i == 5 || i == 6 || i == 7
            || i == 8 || i == 9 || i == 10 || i == 11 || i == 12 || i == 13 || i == 14 || i
            == 15 || i == 16 || i == 17);
        assert(j == 1 || j == 2 || j == 3 || j == 4 || j == 5 || j == 6 || j == 7 || j == 8
            || j == 9 || j == 10 || j == 11 || j == 12 || j == 13 || j == 14 || j == 15 || j
            == 16 || j == 17 || j == 18);
        if r[i].name == r[j].name {
            assert(r[i].name.len() == r[j].name.len());
            assert(r[i].name[0] == r[j].name[0]);
            assert(r[i].name[1] == r[j].name[1]);
            assert(r[i].name[4] == r[j].name[4]);
        }
    }
}

/// How many rules the normalized command `c` triggers.
pub open spec fn triggered_count(rules: Seq<RuleSpec>, c: Seq<char>) -> nat
    decreases rules.len(),
{
    if rules.len() == 0 {
        0
    } else {
        triggered_count(rules.drop_last(), c) + if pattern_holds(rules.last().pattern, c) {
            1nat
        } else {
            0nat
        }
    }
}

/// The matches at one level are exactly the triggered rules of that level.
proof fn lemma_at_level_members(rules: Seq<RuleSpec>, c: Seq<char>, l: RiskLevel)
    ensures
        forall|k: int|
            0 <= k < rules.len() && rules[k].level == l && pattern_holds(rules[k].pattern, c)
                ==> matches_at_level(rules, c, l).contains(match_of(#[trigger] rules[k])),
        forall|m: MatchSpec|
            matches_at_level(rules, c, l).contains(m) ==> exists|k: int|
                0 <= k < rules.len() && rules[k].level == l && pattern_holds(rules[k].pattern, c)
                    && m == match_of(#[trigger] rules[k]),
    decreases rules.len(),
{
    if rules.len() > 0 {
        let d = rules.drop_last();
        let r = rules.last();
        lemma_at_level_members(d, c, l);
        let prev = matches_at_level(d, c, l);
        let tail = if r.level == l && pattern_holds(r.pattern, c) {
            seq![match_of(r)]
        } else {
            seq![]
        };
        assert(matches_at_level(rules, c, l) == prev + tail);
        assert forall|k: int|
            0 <= k < rules.len() && rules[k].level == l && pattern_holds(rules[k].pattern, c)
                implies matches_at_level(rules, c, l).contains(match_of(#[trigger] rules[k])) by {
            if k < d.len() {
                assert(d[k] == rules[k]);
                let q = choose|q: int| 0 <= q < prev.len() && prev[q] == match_of(d[k]);
                assert((prev + tail)[q] == prev[q]);
            } else {
                assert((prev + tail)[prev.len() as int] == match_of(r));
            }
        }
        assert forall|m: MatchSpec| matches_at_level(rules, c, l).contains(m) implies exists|k: int|
            0 <= k < rules.len() && rules[k].level == l && pattern_holds(rules[k].pattern, c) && m
                == match_of(#[trigger] rules[k]) by {
            let q = choose|q: int| 0 <= q < (prev + tail).len() && (prev + tail)[q] == m;
            if q < prev.len() {
                assert(prev.contains(m));
                let k = choose|k: int|
                    0 <= k < d.len() && d[k].level == l && pattern_holds(d[k].pattern, c) && m
                        == match_of(#[trigger] d[k]);
                assert(rules[k] == d[k]);
            } else {
                assert(rules[rules.len() - 1] == r);
            }
        }
    }
}

/// The number of matches at each level adds up to the number of triggered rules.
proof fn lemma_level_counts(rules: Seq<RuleSpec>, c: Seq<char>)
    ensures
        matches_at_level(rules, c, RiskLevel::Forbidden).len() + matches_at_level(
            rules,
            c,
            RiskLevel::High,
        ).len() + matches_at_level(rules, c, RiskLevel::Medium).len() + matches_at_level(
            rules,
            c,
            RiskLevel::Low,
        ).len() == triggered_count(rules, c),
    decreases rules.len(),
{
    if rules.len() > 0 {
        lemma_level_counts(rules.drop_last(), c);
    }
}

/// Law: the matches reported for a command are exactly the rules it
/// triggers, each reported once: every triggered rule is reported, every
/// report comes from a triggered rule, and there are as many reports as
/// triggered rules.
pub proof fn law_matches_are_triggered_rules(rules: Seq<RuleSpec>, c: Seq<char>)
    ensures
        matches_in(rules, c).len() == triggered_count(rules, c),
        forall|k: int|
            0 <= k < rules.len() && pattern_holds(rules[k].pattern, c) ==> matches_in(
                rules,
                c,
            ).contains(match_of(#[trigger] rules[k])),
        forall|m: MatchSpec|
            matches_in(rules, c).contains(m) ==> exists|k: int|
                0 <= k < rules.len() && pattern_holds(rules[k].pattern, c) && m == match_of(
                    #[trigger] rules[k],
                ),
{
    let f = matches_at_level(rules, c, RiskLevel::Forbidden);
    let h = matches_at_level(rules, c, RiskLevel::High);
    let md = matches_at_level(rules, c, RiskLevel::Medium);
    let lo = matches_at_level(rules, c, RiskLevel::Low);
    lemma_level_counts(rules, c);
    lemma_at_level_members(rules, c, RiskLevel::Forbidden);
    lemma_at_level_members(rules, c, RiskLevel::High);
    lemma_at_level_members(rules, c, RiskLevel::Medium);
    lemma_at_level_members(rules, c, RiskLevel::Low);
    let all = f + h + md + lo;
    assert(matches_in(rules, c) == all);
    assert forall|k: int| 0 <= k < rules.len() && pattern_holds(rules[k].pattern, c) implies all.contains(
        match_of(#[trigger] rules[k]),
    ) by {
        let m = match_of(rules[k]);
        if rules[k].level == RiskLevel::Forbidden {
            let q = choose|q: int| 0 <= q < f.len() && f[q] == m;
            assert(all[q] == m);
        } else if rules[k].level == RiskLevel::High {
            let q = choose|q: int| 0 <= q < h.len() && h[q] == m;
            assert(all[f.len() + q] == m);
        } else if rules[k].level == RiskLevel::Medium {
            let q = choose|q: int| 0 <= q < md.len() && md[q] == m;
            assert(all[f.len() + h.len() + q] == m);
        } else {
            let q = choose|q: int| 0 <= q < lo.len() && lo[q] == m;
            assert(all[f.len() + h.len() + md.len() + q] == m);
        }
    }
    assert forall|m: MatchSpec| all.contains(m) implies exists|k: int|
        0 <= k < rules.len() && pattern_holds(rules[k].pattern, c) && m == match_of(
            #[trigger] rules[k],
        ) by {
        let q = choose|q: int| 0 <= q < all.len() && all[q] == m;
        if q < f.len() {
            assert(f.contains(m));
        } else if q < f.len() + h.len() {
            assert(h[q - f.len()] == m);
            assert(h.contains(m));
        } else if q < f.len() + h.len() + md.len() {
            assert(md[q - f.len() - h.len()] == m);
            assert(md.contains(m));
        } else {
            assert(lo[q - f.len() - h.len() - md.len()] == m);
            assert(lo.contains(m));
        }
    }
}

/// Law: a command that triggers no rule is `Low`; otherwise its level is
/// the level of one of the rules it triggers, and no triggered rule has a
/// higher level.
pub proof fn law_max_risk_is_highest_triggered(rules: Seq<RuleSpec>, c: Seq<char>)
    ensures
        triggered_count(rules, c) == 0 ==> first_level(matches_in(rules, c)) == RiskLevel::Low,
        forall|k: int|
            0 <= k < rules.len() && pattern_holds(rules[k].pattern, c) ==> (#[trigger] rules[k]).level.spec_rank()
                <= first_level(matches_in(rules, c)).spec_rank(),
        triggered_count(rules, c) > 0 ==> exists|k: int|
            0 <= k < rules.len() && pattern_holds(rules[k].pattern, c) && (#[trigger] rules[k]).level
                == first_level(matches_in(rules, c)),
{
    law_matches_are_triggered_rules(rules, c);
    law_matches_descending(rules, c);
    let ms = matches_in(rules, c);
    assert forall|k: int| 0 <= k < rules.len() && pattern_holds(rules[k].pattern, c) implies (#[trigger] rules[k]).level.spec_rank()
        <= first_level(ms).spec_rank() by {
        assert(ms.contains(match_of(rules[k])));
        let q = choose|q: int| 0 <= q < ms.len() && ms[q] == match_of(rules[k]);
        if q > 0 {
            assert(ms[0].level.spec_rank() >= ms[q].level.spec_rank());
        }
    }
    if triggered_count(rules, c) > 0 {
        assert(ms.contains(ms[0]));
    }
}


/// An element of `a + b` is an element of `a` or of `b`.
proof fn lemma_concat_member(a: Seq<MatchSpec>, b: Seq<MatchSpec>, m: MatchSpec)
    requires
        (a + b).contains(m),
    ensures
        a.contains(m) || b.contains(m),
{
    let q = choose|q: int| 0 <= q < (a + b).len() && (a + b)[q] == m;
    if q < a.len() {
        assert(a[q] == m);
    } else {
        assert(b[q - a.len()] == m);
    }
}

/// Two lists without a repeated name, with no name in common, make one.
proof fn lemma_apart_concat(a: Seq<MatchSpec>, b: Seq<MatchSpec>)
    requires
        match_names_apart(a),
        match_names_apart(b),
        forall|x: MatchSpec, y: MatchSpec|
            a.contains(x) && b.contains(y) ==> #[trigger] x.rule_name != #[trigger] y.rule_name,
    ensures
        match_names_apart(a + b),
{
    let ab = a + b;
    assert forall|i: int, j: int| 0 <= i < j < ab.len() implies #[trigger] ab[i].rule_name
        != #[trigger] ab[j].rule_name by {
        if j < a.len() {
            assert(ab[i] == a[i] && ab[j] == a[j]);
        } else if i >= a.len() {
            assert(ab[i] == b[i - a.len()] && ab[j] == b[j - a.len()]);
        } else {
            assert(ab[i] == a[i] && ab[j] == b[j - a.len()]);
            assert(a.contains(a[i]) && b.contains(b[j - a.len()]));
        }
    }
}

/// With distinct rule names, the matches at one level name no rule twice.
proof fn lemma_at_level_apart(rules: Seq<RuleSpec>, c: Seq<char>, l: RiskLevel)
    requires
        names_distinct(rules),
    ensures
        match_names_apart(matches_at_level(rules, c, l)),
    decreases rules.len(),
{
    if rules.len() > 0 {
        let d = rules.drop_last();
        let r = rules.last();
        assert forall|i: int, j: int| 0 <= i < j < d.len() implies #[trigger] d[i].name
            != #[trigger] d[j].name by {
            assert(d[i] == rules[i] && d[j] == rules[j]);
        }
        lemma_at_level_apart(d, c, l);
        lemma_at_level_members(d, c, l);
        let prev = matches_at_level(d, c, l);
        let tail = if r.level == l && pattern_holds(r.pattern, c) {
            seq![match_of(r)]
        } else {
            seq![]
        };
        assert(matches_at_level(rules, c, l) == prev + tail);
        assert forall|x: MatchSpec, y: MatchSpec|
            prev.contains(x) && tail.contains(y) implies #[trigger] x.rule_name
            != #[trigger] y.rule_name by {
            let k = choose|k: int|
                0 <= k < d.len() && d[k].level == l && pattern_holds(d[k].pattern, c) && x
                    == match_of(#[trigger] d[k]);
            assert(y == tail[0]);
            assert(d[k] == rules[k]);
            assert(r == rules[rules.len() - 1]);
        }
        lemma_apart_concat(prev, tail);
    }
}

/// With distinct rule names, matches at two different levels share no name.
proof fn lemma_levels_apart(rules: Seq<RuleSpec>, c: Seq<char>, l1: RiskLevel, l2: RiskLevel)
    requires
        names_distinct(rules),
        l1 != l2,
    ensures
        forall|x: MatchSpec, y: MatchSpec|
            matches_at_level(rules, c, l1).contains(x) && matches_at_level(rules, c, l2).contains(
                y,
            ) ==> #[trigger] x.rule_name != #[trigger] y.rule_name,
{
    lemma_at_level_members(rules, c, l1);
    lemma_at_level_members(rules, c, l2);
    assert forall|x: MatchSpec, y: MatchSpec|
        matches_at_level(rules, c, l1).contains(x) && matches_at_level(rules, c, l2).contains(
            y,
        ) implies #[trigger] x.rule_name != #[trigger] y.rule_name by {
        let k1 = choose|k: int|
            0 <= k < rules.len() && rules[k].level == l1 && pattern_holds(rules[k].pattern, c)
                && x == match_of(#[trigger] rules[k]);
        let k2 = choose|k: int|
            0 <= k < rules.len() && rules[k].level == l2 && pattern_holds(rules[k].pattern, c)
                && y == match_of(#[trigger] rules[k]);
        assert(k1 != k2);
        if k1 < k2 {
            assert(rules[k1].name != rules[k2].name);
        } else {
            assert(rules[k2].name != rules[k1].name);
        }
    }
}

/// Law: when no two rules share a name, one evaluation never reports a
/// rule name twice.
pub proof fn law_match_names_distinct(rules: Seq<RuleSpec>, c: Seq<char>)
    requires
        names_distinct(rules),
    ensures
        match_names_apart(matches_in(rules, c)),
{
    let f = matches_at_level(rules, c, RiskLevel::Forbidden);
    let h = matches_at_level(rules, c, RiskLevel::High);
    let md = matches_at_level(rules, c, RiskLevel::Medium);
    let lo = matches_at_level(rules, c, RiskLevel::Low);
    lemma_at_level_apart(rules, c, RiskLevel::Forbidden);
    lemma_at_level_apart(rules, c, RiskLevel::High);
    lemma_at_level_apart(rules, c, RiskLevel::Medium);
    lemma_at_level_apart(rules, c, RiskLevel::Low);
    lemma_levels_apart(rules, c, RiskLevel::Forbidden, RiskLevel::High);
    lemma_levels_apart(rules, c, RiskLevel::Forbidden, RiskLevel::Medium);
    lemma_levels_apart(rules, c, RiskLevel::Forbidden, RiskLevel::Low);
    lemma_levels_apart(rules, c, RiskLevel::High, RiskLevel::Medium);
    lemma_levels_apart(rules, c, RiskLevel::High, RiskLevel::Low);
    lemma_levels_apart(rules, c, RiskLevel::Medium, RiskLevel::Low);
    lemma_apart_concat(f, h);
    assert forall|x: MatchSpec, y: MatchSpec|
        (f + h).contains(x) && md.contains(y) implies #[trigger] x.rule_name
        != #[trigger] y.rule_name by {
        lemma_concat_member(f, h, x);
    }
    lemma_apart_concat(f + h, md);
    assert forall|x: MatchSpec, y: MatchSpec|
        (f + h + md).contains(x) && lo.contains(y) implies #[trigger] x.rule_name
        != #[trigger] y.rule_name by {
        lemma_concat_member(f + h, md, x);
        if (f + h).contains(x) {
            lemma_concat_member(f, h, x);
        }
    }
    lemma_apart_concat(f + h + md, lo);
}


/// Law: under the built-in rules, an evaluation reports only built-in rules
/// that the command triggers, never a `Low` one, never a name twice; and the
/// command is `Forbidden` exactly when it is a fork bomb, formats a disk,
/// removes the root, or overwrites a disk device with `dd`.
pub proof fn law_builtin_evaluation(c: Seq<char>)
    ensures
        match_names_apart(matches_in(builtin_rules(), c)),
        forall|m: MatchSpec|
            matches_in(builtin_rules(), c).contains(m) ==> m.level != RiskLevel::Low && exists|
                k: int,
            |
                0 <= k < builtin_rules().len() && pattern_holds(builtin_rules()[k].pattern, c)
                    && m == match_of(#[trigger] builtin_rules()[k]),
        (first_level(matches_in(builtin_rules(), c)) == RiskLevel::Forbidden) <==> (pattern_holds(
            Pattern::ForkBomb,
            c,
        ) || pattern_holds(Pattern::FormatDisk, c) || pattern_holds(Pattern::RmRoot, c)
            || pattern_holds(Pattern::DdDiskOverwrite, c)),
{
    let r = builtin_rules();
    lemma_builtin_table();
    law_match_names_distinct(r, c);
    law_matches_are_triggered_rules(r, c);
    law_max_risk_is_highest_triggered(r, c);
    let top = first_level(matches_in(r, c));
    if pattern_holds(Pattern::ForkBomb, c) {
        assert(r[0].level.spec_rank() <= top.spec_rank());
    } else if pattern_holds(Pattern::FormatDisk, c) {
        assert(r[1].level.spec_rank() <= top.spec_rank());
    } else if pattern_holds(Pattern::RmRoot, c) {
        assert(r[2].level.spec_rank() <= top.spec_rank());
    } else if pattern_holds(Pattern::DdDiskOverwrite, c) {
        assert(r[3].level.spec_rank() <= top.spec_rank());
    }
    if top == RiskLevel::Forbidden {
        assert(triggered_count(r, c) > 0);
        let k = choose|k: int|
            0 <= k < r.len() && pattern_holds(r[k].pattern, c) && (#[trigger] r[k]).level == top;
        assert(k < 4);
        assert(k == 0 || k == 1 || k == 2 || k == 3);
    }
}


/// Some match of `ms` names rule `name` at level `level`.
pub open spec fn reports(ms: Seq<MatchSpec>, name: Seq<char>, level: RiskLevel) -> bool {
    exists|i: int| 0 <= i < ms.len() && #[trigger] ms[i].rule_name == name && ms[i].level == level
}

/// The built-in rule at `k`, with this name, level and pattern, is reported
/// exactly when its pattern holds.
proof fn lemma_builtin_report(k: int, name: Seq<char>, level: RiskLevel, pattern: Pattern, c: Seq<char>)
    requires
        0 <= k < builtin_rules().len(),
        builtin_rules()[k].name == name,
        builtin_rules()[k].level == level,
        builtin_rules()[k].pattern == pattern,
    ensures
        reports(matches_in(builtin_rules(), c), name, level) <==> pattern_holds(pattern, c),
{
    let r = builtin_rules();
    let ms = matches_in(r, c);
    lemma_builtin_table();
    law_matches_are_triggered_rules(r, c);
    if pattern_holds(r[k].pattern, c) {
        assert(ms.contains(match_of(r[k])));
        let i = choose|i: int| 0 <= i < ms.len() && ms[i] == match_of(r[k]);
        assert(ms[i].rule_name == r[k].name && ms[i].level == r[k].level);
    }
    if reports(ms, r[k].name, r[k].level) {
        let i = choose|i: int|
            0 <= i < ms.len() && #[trigger] ms[i].rule_name == r[k].name && ms[i].level
                == r[k].level;
        assert(ms.contains(ms[i]));
        let j = choose|j: int|
            0 <= j < r.len() && pattern_holds(r[j].pattern, c) && ms[i] == match_of(
                #[trigger] r[j],
            );
        if j < k {
            assert(r[j].name != r[k].name);
        } else if j > k {
            assert(r[k].name != r[j].name);
        }
    }
}

/// Law: the `Forbidden` built-in rules. With `c` the command trimmed and lower-cased, an evaluation under the
/// built-in rules reports each of these rules, under its name and level,
/// exactly when the condition written beside it holds of `c`.
/// The risk level is at least the level of every reported rule.
pub proof fn law_forbidden_rule_triggers(command: Seq<char>)
    ensures
        ({
            let c = lowercase(trim(command));
            let ms = matches_in(builtin_rules(), normalize(command));
            &&& forall|i: int|
                0 <= i < ms.len() ==> (#[trigger] ms[i]).level.spec_rank() <= first_level(
                    ms,
                ).spec_rank()
            &&& reports(ms, "fork_bomb"@, RiskLevel::Forbidden) <==> (contains(c, ":(){ :|:& };:"@) || contains(c, ":(){"@))
            &&& reports(ms, "format_disk"@, RiskLevel::Forbidden) <==> (starts_with(c, "format "@) || contains(c, "mkfs"@) || contains(c, "/dev/sda"@) || contains(c, "/dev/nvme"@))
            &&& reports(ms, "rm_root"@, RiskLevel::Forbidden) <==> ((starts_with(c, "rm "@) && (contains(c, " /"@) || contains(c, " c:\\"@)) && (contains(c, "-rf"@) || contains(c, "-fr"@))) || (starts_with(c, "del "@) && contains(c, "/s"@) && (contains(c, "c:\\"@) || contains(c, "*"@))))
            &&& reports(ms, "dd_disk_overwrite"@, RiskLevel::Forbidden) <==> (starts_with(c, "dd "@) && contains(c, "of=/dev/"@))
        }),
{
    let c = lowercase(trim(command));
    let ms = matches_in(builtin_rules(), normalize(command));
    law_matches_descending(builtin_rules(), c);
    assert forall|i: int| 0 <= i < ms.len() implies (#[trigger] ms[i]).level.spec_rank()
        <= first_level(ms).spec_rank() by {
        if i > 0 {
            assert(ms[0].level.spec_rank() >= ms[i].level.spec_rank());
        }
    }
    assert(reports(ms, "fork_bomb"@, RiskLevel::Forbidden) <==> pattern_holds(Pattern::ForkBomb, c)) by {
        lemma_builtin_report(0, "fork_bomb"@, RiskLevel::Forbidden, Pattern::ForkBomb, c);
    }
    assert(reports(ms, "format_disk"@, RiskLevel::Forbidden) <==> pattern_holds(Pattern::FormatDisk, c)) by {
        lemma_builtin_report(1, "format_disk"@, RiskLevel::Forbidden, Pattern::FormatDisk, c);
    }
    assert(reports(ms, "rm_root"@, RiskLevel::Forbidden) <==> pattern_holds(Pattern::RmRoot, c)) by {
        lemma_builtin_report(2, "rm_root"@, RiskLevel::Forbidden, Pattern::RmRoot, c);
    }
    assert(reports(ms, "dd_disk_overwrite"@, RiskLevel::Forbidden) <==> pattern_holds(Pattern::DdDiskOverwrite, c)) by {
        lemma_builtin_report(3, "dd_disk_overwrite"@, RiskLevel::Forbidden, Pattern::DdDiskOverwrite, c);
    }
}

/// Law: the `High` built-in rules. With `c` the command trimmed and lower-cased, an evaluation under the
/// built-in rules reports each of these rules, under its name and level,
/// exactly when the condition written beside it holds of `c`.
pub proof fn law_high_rule_triggers(command: Seq<char>)
    ensures
        ({
            let c = lowercase(trim(command));
            let ms = matches_in(builtin_rules(), normalize(command));
            &&& reports(ms, "rm_recursive"@, RiskLevel::High) <==> (starts_with(c, "rm "@) && (contains(c, "-r"@) || contains(c, "-f"@)))
            &&& reports(ms, "chmod_777"@, RiskLevel::High) <==> (contains(c, "chmod"@) && (contains(c, "777"@) || contains(c, "+rwx"@)))
            &&& reports(ms, "drop_database"@, RiskLevel::High) <==> (contains(c, "drop database"@) || contains(c, "drop table"@) || contains(c, "truncate table"@))
            &&& reports(ms, "git_force_push"@, RiskLevel::High) <==> (contains(c, "git push"@) && (contains(c, "-f"@) || contains(c, "--force"@)))
            &&& reports(ms, "git_reset_hard"@, RiskLevel::High) <==> (contains(c, "git reset"@) && contains(c, "--hard"@))
            &&& reports(ms, "curl_pipe_sh"@, RiskLevel::High) <==> ((contains(c, "curl "@) || contains(c, "wget "@)) && (contains(c, "| sh"@) || contains(c, "| bash"@) || contains(c, "| powershell"@) || contains(c, "| iex"@)))
            &&& reports(ms, "registry_edit"@, RiskLevel::High) <==> (starts_with(c, "reg "@) && (contains(c, "delete"@) || contains(c, "add"@)))
            &&& reports(ms, "kill_all"@, RiskLevel::High) <==> (contains(c, "killall"@) || contains(c, "taskkill /f"@))
        }),
{
    let c = lowercase(trim(command));
    let ms = matches_in(builtin_rules(), normalize(command));
    assert(reports(ms, "rm_recursive"@, RiskLevel::High) <==> pattern_holds(Pattern::RmRecursive, c)) by {
        lemma_builtin_report(4, "rm_recursive"@, RiskLevel::High, Pattern::RmRecursive, c);
    }
    assert(reports(ms, "chmod_777"@, RiskLevel::High) <==> pattern_holds(Pattern::Chmod777, c)) by {
        lemma_builtin_report(5, "chmod_777"@, RiskLevel::High, Pattern::Chmod777, c);
    }
    assert(reports(ms, "drop_database"@, RiskLevel::High) <==> pattern_holds(Pattern::DropDatabase, c)) by {
        lemma_builtin_report(6, "drop_database"@, RiskLevel::High, Pattern::DropDatabase, c);
    }
    assert(reports(ms, "git_force_push"@, RiskLevel::High) <==> pattern_holds(Pattern::GitForcePush, c)) by {
        lemma_builtin_report(7, "git_force_push"@, RiskLevel::High, Pattern::GitForcePush, c);
    }
    assert(reports(ms, "git_reset_hard"@, RiskLevel::High) <==> pattern_holds(Pattern::GitResetHard, c)) by {
        lemma_builtin_report(8, "git_reset_hard"@, RiskLevel::High, Pattern::GitResetHard, c);
    }
    assert(reports(ms, "curl_pipe_sh"@, RiskLevel::High) <==> pattern_holds(Pattern::CurlPipeSh, c)) by {
        lemma_builtin_report(9, "curl_pipe_sh"@, RiskLevel::High, Pattern::CurlPipeSh, c);
    }
    assert(reports(ms, "registry_edit"@, RiskLevel::High) <==> pattern_holds(Pattern::RegistryEdit, c)) by {
        lemma_builtin_report(10, "registry_edit"@, RiskLevel::High, Pattern::RegistryEdit, c);
    }
    assert(reports(ms, "kill_all"@, RiskLevel::High) <==> pattern_holds(Pattern::KillAll, c)) by {
        lemma_builtin_report(11, "kill_all"@, RiskLevel::High, Pattern::KillAll, c);
    }
}

/// Law: the `Medium` built-in rules. With `c` the command trimmed and lower-cased, an evaluation under the
/// built-in rules reports each of these rules, under its name and level,
/// exactly when the condition written beside it holds of `c`.
pub proof fn law_medium_rule_triggers(command: Seq<char>)
    ensures
        ({
            let c = lowercase(trim(command));
            let ms = matches_in(builtin_rules(), normalize(command));
            &&& reports(ms, "sudo_prefix"@, RiskLevel::Medium) <==> (starts_with(c, "sudo "@))
            &&& reports(ms, "file_overwrite"@, RiskLevel::Medium) <==> (contains(c, " > "@) && !contains(c, " >> "@))
            &&& reports(ms, "mv_command"@, RiskLevel::Medium) <==> (starts_with(c, "mv "@) || starts_with(c, "move "@))
            &&& reports(ms, "cp_recursive"@, RiskLevel::Medium) <==> (starts_with(c, "cp "@) && contains(c, "-r"@))
            &&& reports(ms, "git_clean"@, RiskLevel::Medium) <==> (contains(c, "git clean"@))
            &&& reports(ms, "npm_install_global"@, RiskLevel::Medium) <==> ((starts_with(c, "npm "@) || starts_with(c, "pnpm "@)) && contains(c, "install"@) && contains(c, "-g"@))
            &&& reports(ms, "service_control"@, RiskLevel::Medium) <==> (starts_with(c, "systemctl "@) || starts_with(c, "service "@) || (starts_with(c, "net "@) && (contains(c, "stop"@) || contains(c, "start"@))))
        }),
{
    let c = lowercase(trim(command));
    let ms = matches_in(builtin_rules(), normalize(command));
    assert(reports(ms, "sudo_prefix"@, RiskLevel::Medium) <==> pattern_holds(Pattern::SudoPrefix, c)) by {
        lemma_builtin_report(12, "sudo_prefix"@, RiskLevel::Medium, Pattern::SudoPrefix, c);
    }
    assert(reports(ms, "file_overwrite"@, RiskLevel::Medium) <==> pattern_holds(Pattern::FileOverwrite, c)) by {
        lemma_builtin_report(13, "file_overwrite"@, RiskLevel::Medium, Pattern::FileOverwrite, c);
    }
    assert(reports(ms, "mv_command"@, RiskLevel::Medium) <==> pattern_holds(Pattern::MvCommand, c)) by {
        lemma_builtin_report(14, "mv_command"@, RiskLevel::Medium, Pattern::MvCommand, c);
    }
    assert(reports(ms, "cp_recursive"@, RiskLevel::Medium) <==> pattern_holds(Pattern::CpRecursive, c)) by {
        lemma_builtin_report(15, "cp_recursive"@, RiskLevel::Medium, Pattern::CpRecursive, c);
    }
    assert(reports(ms, "git_clean"@, RiskLevel::Medium) <==> pattern_holds(Pattern::GitClean, c)) by {
        lemma_builtin_report(16, "git_clean"@, RiskLevel::Medium, Pattern::GitClean, c);
    }
    assert(reports(ms, "npm_install_global"@, RiskLevel::Medium) <==> pattern_holds(Pattern::NpmInstallGlobal, c)) by {
        lemma_builtin_report(17, "npm_install_global"@, RiskLevel::Medium, Pattern::NpmInstallGlobal, c);
    }
    assert(reports(ms, "service_control"@, RiskLevel::Medium) <==> pattern_holds(Pattern::ServiceControl, c)) by {
        lemma_builtin_report(18, "service_control"@, RiskLevel::Medium, Pattern::ServiceControl, c);
    }
}


/// None of the texts `bad` occurs in `x`.
spec fn avoids(x: Seq<char>, bad: Seq<Seq<char>>) -> bool {
    forall|b: int| 0 <= b < bad.len() ==> !contains(x, #[trigger] bad[b])
}

/// A piece of a text that avoids `bad` avoids it too.
proof fn lemma_avoids_infix(x: Seq<char>, y: Seq<char>, bad: Seq<Seq<char>>)
    requires
        infix(x, y),
        avoids(y, bad),
    ensures
        avoids(x, bad),
{
    assert forall|b: int| 0 <= b < bad.len() implies !contains(x, #[trigger] bad[b]) by {
        if contains(x, bad[b]) {
            lemma_infix_contains(x, y, bad[b]);
        }
    }
}

/// The kept pieces are non-empty, trimmed, and keep what the pieces had.
proof fn lemma_kept_props(ps: Seq<Seq<char>>, src: Seq<char>, bad: Seq<Seq<char>>)
    requires
        forall|k: int| 0 <= k < ps.len() ==> infix(#[trigger] ps[k], src) && avoids(ps[k], bad),
    ensures
        forall|k: int|
            0 <= k < kept(ps).len() ==> infix(#[trigger] kept(ps)[k], src) && avoids(
                kept(ps)[k],
                bad,
            ) && kept(ps)[k].len() > 0 && trim(kept(ps)[k]) == kept(ps)[k],
    decreases ps.len(),
{
    if ps.len() > 0 {
        let d = ps.drop_last();
        let last = ps.last();
        assert forall|k: int| 0 <= k < d.len() implies infix(#[trigger] d[k], src) && avoids(
            d[k],
            bad,
        ) by {
            assert(d[k] == ps[k]);
        }
        lemma_kept_props(d, src, bad);
        let t = trim(last);
        assert(infix(last, src) && avoids(last, bad));
        lemma_trim_infix(last);
        lemma_infix_trans(t, last, src);
        lemma_avoids_infix(t, last, bad);
        law_trim_idempotent(last);
        let tail = if t.len() > 0 {
            seq![t]
        } else {
            seq![]
        };
        let r = kept(ps);
        assert(r == kept(d) + tail);
        assert forall|k: int| 0 <= k < r.len() implies infix(#[trigger] r[k], src) && avoids(
            r[k],
            bad,
        ) && r[k].len() > 0 && trim(r[k]) == r[k] by {
            if k < kept(d).len() {
                assert(r[k] == kept(d)[k]);
            } else {
                assert(r[k] == t);
            }
        }
    }
}

/// Splitting every segment at `sep`: the pieces are non-empty, trimmed,
/// pieces of `src`, and avoid `sep` besides what the segments avoided.
proof fn lemma_split_all_props(
    segs: Seq<Seq<char>>,
    sep: Seq<char>,
    src: Seq<char>,
    bad: Seq<Seq<char>>,
)
    requires
        sep.len() > 0,
        forall|j: int| 0 <= j < segs.len() ==> infix(#[trigger] segs[j], src) && avoids(segs[j], bad),
    ensures
        forall|k: int|
            0 <= k < split_all(segs, sep).len() ==> infix(#[trigger] split_all(segs, sep)[k], src)
                && avoids(split_all(segs, sep)[k], bad.push(sep)) && split_all(segs, sep)[k].len()
                > 0 && trim(split_all(segs, sep)[k]) == split_all(segs, sep)[k],
    decreases segs.len(),
{
    if segs.len() > 0 {
        let d = segs.drop_last();
        let last = segs.last();
        assert forall|j: int| 0 <= j < d.len() implies infix(#[trigger] d[j], src) && avoids(
            d[j],
            bad,
        ) by {
            assert(d[j] == segs[j]);
        }
        lemma_split_all_props(d, sep, src, bad);
        let ps = split(last, sep);
        lemma_split_pieces(last, sep);
        let nb = bad.push(sep);
        assert(infix(last, src) && avoids(last, bad));
        assert forall|k: int| 0 <= k < ps.len() implies infix(#[trigger] ps[k], src) && avoids(
            ps[k],
            nb,
        ) by {
            lemma_infix_trans(ps[k], last, src);
            lemma_avoids_infix(ps[k], last, bad);
            assert forall|b: int| 0 <= b < nb.len() implies !contains(ps[k], #[trigger] nb[b]) by {
                if b < bad.len() {
                    assert(nb[b] == bad[b]);
                }
            }
        }
        lemma_kept_props(ps, src, nb);
        let r = split_all(segs, sep);
        let a = split_all(d, sep);
        assert(r == a + kept(ps));
        assert forall|k: int| 0 <= k < r.len() implies infix(#[trigger] r[k], src) && avoids(
            r[k],
            nb,
        ) && r[k].len() > 0 && trim(r[k]) == r[k] by {
            if k < a.len() {
                assert(r[k] == a[k]);
            } else {
                assert(r[k] == kept(ps)[k - a.len()]);
            }
        }
    }
}

/// Law: the segments of a command chain are non-empty, trimmed pieces of
/// the command, and none of them holds a separator: `&&`, `||`, `;` or `|`.
pub proof fn law_chain_segments(command: Seq<char>)
    ensures
        forall|k: int|
            0 <= k < chain_segments(command).len() ==> {
                let x = #[trigger] chain_segments(command)[k];
                &&& x.len() > 0
                &&& trim(x) == x
                &&& infix(x, command)
                &&& !contains(x, "&&"@)
                &&& !contains(x, "||"@)
                &&& !contains(x, ";"@)
                &&& !contains(x, "|"@)
            },
{
    reveal_strlit("&&");
    reveal_strlit("||");
    reveal_strlit(";");
    reveal_strlit("|");
    let s0 = seq![command];
    let b0: Seq<Seq<char>> = seq![];
    assert(command.subrange(0, command.len() as int) =~= command);
    assert(infix(s0[0], command));
    let s1 = split_all(s0, "&&"@);
    lemma_split_all_props(s0, "&&"@, command, b0);
    let b1 = b0.push("&&"@);
    let s2 = split_all(s1, "||"@);
    lemma_split_all_props(s1, "||"@, command, b1);
    let b2 = b1.push("||"@);
    let s3 = split_all(s2, ";"@);
    lemma_split_all_props(s2, ";"@, command, b2);
    let b3 = b2.push(";"@);
    let s4 = split_all(s3, "|"@);
    lemma_split_all_props(s3, "|"@, command, b3);
    let b4 = b3.push("|"@);
    assert(s4 == chain_segments(command));
    assert forall|k: int| 0 <= k < s4.len() implies {
        let x = #[trigger] s4[k];
        &&& x.len() > 0
        &&& trim(x) == x
        &&& infix(x, command)
        &&& !contains(x, "&&"@)
        &&& !contains(x, "||"@)
        &&& !contains(x, ";"@)
        &&& !contains(x, "|"@)
    } by {
        assert(avoids(s4[k], b4));
        assert(b4[0] == "&&"@ && b4[1] == "||"@ && b4[2] == ";"@ && b4[3] == "|"@);
    }
}


/// No character of `x` is `&`, `|` or `;`.
pub open spec fn free_of_chain_marks(x: Seq<char>) -> bool {
    forall|i: int| 0 <= i < x.len() ==> #[trigger] x[i] != '&' && x[i] != '|' && x[i] != ';'
}

/// A separator does not occur in a text free of chain marks.
proof fn lemma_free_avoids(x: Seq<char>, sep: Seq<char>)
    requires
        free_of_chain_marks(x),
        sep.len() > 0,
        sep[0] == '&' || sep[0] == '|' || sep[0] == ';',
    ensures
        !contains(x, sep),
{
    if contains(x, sep) {
        let q = choose|q: int| #[trigger] occurs_at(x, sep, q);
        assert(x.subrange(q, q + sep.len())[0] == x[q]);
    }
}

/// Splitting trimmed, non-empty segments at a separator none of them holds
/// changes nothing.
proof fn lemma_split_all_unchanged(segs: Seq<Seq<char>>, sep: Seq<char>)
    requires
        sep.len() > 0,
        forall|j: int|
            0 <= j < segs.len() ==> !contains(#[trigger] segs[j], sep) && segs[j].len() > 0
                && trim(segs[j]) == segs[j],
    ensures
        split_all(segs, sep) == segs,
    decreases segs.len(),
{
    if segs.len() > 0 {
        let d = segs.drop_last();
        assert forall|j: int| 0 <= j < d.len() implies !contains(#[trigger] d[j], sep) && d[j].len()
            > 0 && trim(d[j]) == d[j] by {
            assert(d[j] == segs[j]);
        }
        lemma_split_all_unchanged(d, sep);
        lemma_split_none(segs.last(), sep);
        let ps = split(segs.last(), sep);
        assert(kept(ps) == kept(ps.drop_last()) + seq![segs.last()]);
        assert(ps.drop_last() =~= seq![]);
        assert(segs =~= d.push(segs.last()));
    }
}

/// A trimmed non-empty text starts and ends with a non-whitespace character.
proof fn lemma_trimmed_ends(x: Seq<char>)
    requires
        trim(x) == x,
        x.len() > 0,
    ensures
        !crate::text::is_ws(x[0]),
        !crate::text::is_ws(x.last()),
{
    let t = crate::text::trim_start(x);
    lemma_trim_start_head(x);
    lemma_trim_end_prefix(t);
    lemma_trim_end_last(t);
    assert(trim(x)[0] == t[0]);
}

/// Splitting `a`, `sep`, `b` at `sep` gives the segments `a` and `b`.
proof fn lemma_split_at_join(a: Seq<char>, sep: Seq<char>, b: Seq<char>)
    requires
        a.len() > 0,
        b.len() > 0,
        trim(a) == a,
        trim(b) == b,
        sep.len() > 0,
        forall|p: int| 0 <= p < a.len() ==> #[trigger] a[p] != sep[0],
        !contains(b, sep),
    ensures
        split_all(seq![a + sep + b], sep) == seq![a, b],
{
    let s = a + sep + b;
    lemma_split_two(a, sep, b);
    let two = seq![a, b];
    assert(two.drop_last() =~= seq![a]);
    assert(seq![a].drop_last() =~= Seq::<Seq<char>>::empty());
    assert(kept(seq![a]) == kept(Seq::<Seq<char>>::empty()) + seq![a]);
    assert(kept(seq![a]) =~= seq![a]);
    assert(kept(two) == kept(seq![a]) + seq![b]);
    assert(seq![s].drop_last() =~= Seq::<Seq<char>>::empty());
    assert(split_all(seq![s], sep) == split_all(Seq::<Seq<char>>::empty(), sep) + kept(split(s, sep)));
    assert(split_all(seq![s], sep) =~= seq![a, b]);
}

/// Law: two commands joined by a separator are evaluated as two segments.
/// For trimmed, non-empty `a` and `b` without `&`, `|` or `;`, the chain
/// `a`, separator, `b` has exactly the segments `a` and `b`, for each of the
/// separators `&&`, `||`, `;` and `|`; and `a` alone is its only segment.
pub proof fn law_chain_two_commands(a: Seq<char>, b: Seq<char>, sep: Seq<char>)
    requires
        a.len() > 0,
        b.len() > 0,
        trim(a) == a,
        trim(b) == b,
        free_of_chain_marks(a),
        free_of_chain_marks(b),
        sep == "&&"@ || sep == "||"@ || sep == ";"@ || sep == "|"@,
    ensures
        chain_segments(a + sep + b) == seq![a, b],
        chain_segments(a) == seq![a],
{
    reveal_strlit("&&");
    reveal_strlit("||");
    reveal_strlit(";");
    reveal_strlit("|");
    lemma_free_avoids(a, "&&"@);
    lemma_free_avoids(a, "||"@);
    lemma_free_avoids(a, ";"@);
    lemma_free_avoids(a, "|"@);
    lemma_free_avoids(b, "&&"@);
    lemma_free_avoids(b, "||"@);
    lemma_free_avoids(b, ";"@);
    lemma_free_avoids(b, "|"@);
    // `a` alone
    lemma_split_all_unchanged(seq![a], "&&"@);
    lemma_split_all_unchanged(seq![a], "||"@);
    lemma_split_all_unchanged(seq![a], ";"@);
    lemma_split_all_unchanged(seq![a], "|"@);
    // the joined chain
    let s = a + sep + b;
    lemma_trimmed_ends(a);
    lemma_trimmed_ends(b);
    assert(s[0] == a[0]);
    assert(s.last() == b.last());
    lemma_trim_fixed(s);
    assert forall|p: int| 0 <= p < a.len() implies #[trigger] a[p] != sep[0] by {}
    let two = seq![a, b];
    if sep == "&&"@ {
        lemma_split_at_join(a, sep, b);
        lemma_split_all_unchanged(two, "||"@);
        lemma_split_all_unchanged(two, ";"@);
        lemma_split_all_unchanged(two, "|"@);
    } else {
        assert(!contains(s, "&&"@)) by {
            if contains(s, "&&"@) {
                let q = choose|q: int| #[trigger] occurs_at(s, "&&"@, q);
                assert(s.subrange(q, q + 2)[0] == s[q]);
                assert(s.subrange(q, q + 2)[1] == s[q + 1]);
                if q < a.len() {
                    assert(s[q] == a[q]);
                } else if q < a.len() + sep.len() {
                    assert(s[q] == sep[q - a.len()]);
                    if q + 1 < a.len() + sep.len() {
                        assert(s[q + 1] == sep[q + 1 - a.len()]);
                    } else {
                        assert(s[q + 1] == b[q + 1 - a.len() - sep.len()]);
                    }
                } else {
                    assert(s[q] == b[q - a.len() - sep.len()]);
                }
            }
        }
        lemma_split_all_unchanged(seq![s], "&&"@);
        if sep == "||"@ {
            lemma_split_at_join(a, sep, b);
            lemma_split_all_unchanged(two, ";"@);
            lemma_split_all_unchanged(two, "|"@);
        } else {
            assert(!contains(s, "||"@)) by {
                if contains(s, "||"@) {
                    let q = choose|q: int| #[trigger] occurs_at(s, "||"@, q);
                    assert(s.subrange(q, q + 2)[0] == s[q]);
                    assert(s.subrange(q, q + 2)[1] == s[q + 1]);
                    if q < a.len() {
                        assert(s[q] == a[q]);
                    } else if q < a.len() + sep.len() {
                        assert(s[q] == sep[q - a.len()]);
                        if q + 1 < a.len() + sep.len() {
                            assert(s[q + 1] == sep[q + 1 - a.len()]);
                        } else {
                            assert(s[q + 1] == b[q + 1 - a.len() - sep.len()]);
                        }
                    } else {
                        assert(s[q] == b[q - a.len() - sep.len()]);
                    }
                }
            }
            lemma_split_all_unchanged(seq![s], "||"@);
            if sep == ";"@ {
                lemma_split_at_join(a, sep, b);
                lemma_split_all_unchanged(two, "|"@);
            } else {
                assert(!contains(s, ";"@)) by {
                    if contains(s, ";"@) {
                        let q = choose|q: int| #[trigger] occurs_at(s, ";"@, q);
                        assert(s.subrange(q, q + 1)[0] == s[q]);
                        if q < a.len() {
                            assert(s[q] == a[q]);
                        } else if q < a.len() + sep.len() {
                            assert(s[q] == sep[q - a.len()]);
                        } else {
                            assert(s[q] == b[q - a.len() - sep.len()]);
                        }
                    }
                }
                lemma_split_all_unchanged(seq![s], ";"@);
                lemma_split_at_join(a, sep, b);
            }
        }
    }
}


/// Within one level, the matches come in the order of their rules.
proof fn lemma_at_level_order(rules: Seq<RuleSpec>, c: Seq<char>, l: RiskLevel)
    ensures
        forall|i: int, j: int|
            0 <= i < j < matches_at_level(rules, c, l).len() ==> exists|ki: int, kj: int|
                0 <= ki < kj < rules.len() && #[trigger] matches_at_level(rules, c, l)[i]
                    == match_of(rules[ki]) && #[trigger] matches_at_level(rules, c, l)[j]
                    == match_of(rules[kj]),
    decreases rules.len(),
{
    if rules.len() > 0 {
        let d = rules.drop_last();
        let r = rules.last();
        lemma_at_level_order(d, c, l);
        lemma_at_level_members(d, c, l);
        let prev = matches_at_level(d, c, l);
        let tail = if r.level == l && pattern_holds(r.pattern, c) {
            seq![match_of(r)]
        } else {
            seq![]
        };
        let all = matches_at_level(rules, c, l);
        assert(all == prev + tail);
        assert forall|i: int, j: int| 0 <= i < j < all.len() implies exists|ki: int, kj: int|
            0 <= ki < kj < rules.len() && #[trigger] all[i] == match_of(rules[ki]) && #[trigger] all[j]
                == match_of(rules[kj]) by {
            if j < prev.len() {
                assert(all[i] == prev[i] && all[j] == prev[j]);
                let (ki, kj) = choose|ki: int, kj: int|
                    0 <= ki < kj < d.len() && #[trigger] prev[i] == match_of(d[ki]) && #[trigger] prev[j]
                        == match_of(d[kj]);
                assert(d[ki] == rules[ki] && d[kj] == rules[kj]);
            } else {
                assert(all[i] == prev[i]);
                assert(prev.contains(prev[i]));
                let ki = choose|k: int|
                    0 <= k < d.len() && d[k].level == l && pattern_holds(d[k].pattern, c)
                        && prev[i] == match_of(#[trigger] d[k]);
                assert(d[ki] == rules[ki]);
                assert(all[j] == match_of(rules[rules.len() - 1]));
            }
        }
    }
}

/// Law: matches of the same level come in the order in which their rules
/// are listed: for two matches of equal level, the earlier one comes from an
/// earlier rule.
pub proof fn law_same_level_in_rule_order(rules: Seq<RuleSpec>, c: Seq<char>)
    ensures
        forall|i: int, j: int|
            0 <= i < j < matches_in(rules, c).len() && matches_in(rules, c)[i].level
                == matches_in(rules, c)[j].level ==> exists|ki: int, kj: int|
                0 <= ki < kj < rules.len() && #[trigger] matches_in(rules, c)[i] == match_of(
                    rules[ki],
                ) && #[trigger] matches_in(rules, c)[j] == match_of(rules[kj]),
{
    let f = matches_at_level(rules, c, RiskLevel::Forbidden);
    let h = matches_at_level(rules, c, RiskLevel::High);
    let md = matches_at_level(rules, c, RiskLevel::Medium);
    let lo = matches_at_level(rules, c, RiskLevel::Low);
    lemma_at_level(rules, c, RiskLevel::Forbidden);
    lemma_at_level(rules, c, RiskLevel::High);
    lemma_at_level(rules, c, RiskLevel::Medium);
    lemma_at_level(rules, c, RiskLevel::Low);
    lemma_at_level_order(rules, c, RiskLevel::Forbidden);
    lemma_at_level_order(rules, c, RiskLevel::High);
    lemma_at_level_order(rules, c, RiskLevel::Medium);
    lemma_at_level_order(rules, c, RiskLevel::Low);
    let ms = matches_in(rules, c);
    let a = f.len();
    let b = a + h.len();
    let e = b + md.len();
    assert(ms == f + h + md + lo);
    assert forall|i: int, j: int|
        0 <= i < j < ms.len() && ms[i].level == ms[j].level implies exists|ki: int, kj: int|
        0 <= ki < kj < rules.len() && #[trigger] ms[i] == match_of(rules[ki]) && #[trigger] ms[j]
            == match_of(rules[kj]) by {
        if j < a {
            assert(ms[i] == f[i] && ms[j] == f[j]);
        } else if j < b {
            assert(ms[j] == h[j - a]);
            if i < a {
                assert(ms[i] == f[i]);
            } else {
                assert(ms[i] == h[i - a]);
            }
        } else if j < e {
            assert(ms[j] == md[j - b]);
            if i < a {
                assert(ms[i] == f[i]);
            } else if i < b {
                assert(ms[i] == h[i - a]);
            } else {
                assert(ms[i] == md[i - b]);
            }
        } else {
            assert(ms[j] == lo[j - e]);
            if i < a {
                assert(ms[i] == f[i]);
            } else if i < b {
                assert(ms[i] == h[i - a]);
            } else if i < e {
                assert(ms[i] == md[i - b]);
            } else {
                assert(ms[i] == lo[i - e]);
            }
        }
    }
}

} // verus!
