//! The command workbench: saved commands, templates, built-in entries and
//! history, searched by words and offered as candidates.
use vstd::prelude::*;
use crate::forms::{copy_strings, join, join_strings, spec_preview, CommandTemplate, TemplateParameter, TemplateView};
use crate::model::{Candidate, CandidateKind};
use crate::text::{
    chars_of, push_char, push_decimal, push_str, str_eq, string_of_range, string_views, to_lowercase,
    unicode_lower, decimal, split_words, split_ws,
};

use crate::history::{merged_history, newest_first, recent_distinct};

verus! {

/// Where a workbench entry comes from.
#[derive(Debug, Clone, Copy, PartialEq, Eq, Structural)]
pub enum HubKind {
    Favorite,
    Template,
    Builtin,
    Action,
    History,
    Project,
    Guided,
}

/// A workbench entry: a named command line, with the template it was made
/// from when it has one.
#[derive(Debug)]
pub struct SavedCommand {
    pub name: String,
    pub command: String,
    pub description: String,
    pub tags: Vec<String>,
    pub kind: HubKind,
    pub template: Option<CommandTemplate>,
}

/// The value of a workbench entry.
pub struct SavedView {
    pub name: Seq<char>,
    pub command: Seq<char>,
    pub description: Seq<char>,
    pub tags: Seq<Seq<char>>,
    pub kind: HubKind,
    pub template: Option<TemplateView>,
}

impl View for SavedCommand {
    type V = SavedView;

    open spec fn view(&self) -> SavedView {
        SavedView {
            name: self.name@,
            command: self.command@,
            description: self.description@,
            tags: string_views(self.tags@),
            kind: self.kind,
            template: match self.template {
                Some(t) => Some(t@),
                None => None,
            },
        }
    }
}

/// Values of a list of entries.
pub open spec fn saved_views(v: Seq<SavedCommand>) -> Seq<SavedView> {
    v.map_values(|c: SavedCommand| c@)
}

/// The built-in command templates: name and command line.
pub open spec fn builtin_table() -> Seq<(Seq<char>, Seq<char>)> {
    seq![
        ("创建 Git 分支"@, "git switch -c <BRANCH>"@),
        ("切换 Git 分支"@, "git switch <BRANCH>"@),
        ("运行 Cargo 测试"@, "cargo test"@),
        ("运行 dotnet 测试"@, "dotnet test <PROJECT>"@),
        ("运行 Go 测试"@, "go test ./..."@),
        ("运行 Python 测试"@, "uv run pytest"@),
        ("运行 npm 脚本"@, "npm run <SCRIPT>"@),
        ("运行 pnpm 脚本"@, "pnpm run <SCRIPT>"@),
        ("运行 Yarn 脚本"@, "yarn run <SCRIPT>"@),
        ("运行 Bun 脚本"@, "bun run <SCRIPT>"@),
        ("进入 Conda 环境"@, "conda activate <ENV>"@),
        ("在 Conda 环境运行"@, "conda run -n <ENV> <COMMAND>"@),
        ("启动 Compose 服务"@, "docker compose up -d <SERVICE>"@),
        ("查看 Compose 日志"@, "docker compose logs -f <SERVICE>"@),
        ("进入 Compose 服务"@, "docker compose exec <SERVICE> <COMMAND>"@),
        ("查看 Kubernetes 日志"@, "kubectl logs <POD>"@),
        ("进入 Kubernetes 容器"@, "kubectl exec -it <POD> -- <COMMAND>"@),
        ("连接 SSH 主机"@, "ssh <HOST>"@)
    ]
}

/// The workbench actions: name, command line and description.
pub open spec fn action_table() -> Seq<(Seq<char>, Seq<char>, Seq<char>)> {
    seq![
        ("打开设置"@, "blueberry config edit"@, "调整外观、补全和快捷键"@),
        ("管理工具"@, "blueberry tools"@, "查看工具入口、规则和学习状态"@),
        ("运行诊断"@, "blueberry doctor"@, "检查配置、适配器和安装状态"@),
        ("审查项目命令包"@, "blueberry packs review"@, "预览当前仓库的声明式操作与变更"@),
        ("重新运行引导"@, "blueberry setup"@, "重新选择常用初始设置"@)
    ]
}

fn plain_entry(name: &str, command: &str, description: &str, tags: Vec<String>, kind: HubKind) -> (r: SavedCommand)
    ensures
        r@ == (SavedView {
            name: name@,
            command: command@,
            description: description@,
            tags: string_views(tags@),
            kind,
            template: None,
        }),
{
    SavedCommand {
        name: name.to_owned(),
        command: command.to_owned(),
        description: description.to_owned(),
        tags,
        kind,
        template: None,
    }
}

/// The built-in command templates, in table order.
pub fn builtins() -> (r: Vec<SavedCommand>)
    ensures
        r@.len() == builtin_table().len(),
        forall|i: int| 0 <= i < r@.len() ==> (#[trigger] r@[i])@ == (SavedView {
            name: builtin_table()[i].0,
            command: builtin_table()[i].1,
            description: "内置命令模板"@,
            tags: Seq::empty(),
            kind: HubKind::Builtin,
            template: None,
        }),
{
    let table: [(&str, &str); 18] = [
        ("创建 Git 分支", "git switch -c <BRANCH>"),
        ("切换 Git 分支", "git switch <BRANCH>"),
        ("运行 Cargo 测试", "cargo test"),
        ("运行 dotnet 测试", "dotnet test <PROJECT>"),
        ("运行 Go 测试", "go test ./..."),
        ("运行 Python 测试", "uv run pytest"),
        ("运行 npm 脚本", "npm run <SCRIPT>"),
        ("运行 pnpm 脚本", "pnpm run <SCRIPT>"),
        ("运行 Yarn 脚本", "yarn run <SCRIPT>"),
        ("运行 Bun 脚本", "bun run <SCRIPT>"),
        ("进入 Conda 环境", "conda activate <ENV>"),
        ("在 Conda 环境运行", "conda run -n <ENV> <COMMAND>"),
        ("启动 Compose 服务", "docker compose up -d <SERVICE>"),
        ("查看 Compose 日志", "docker compose logs -f <SERVICE>"),
        ("进入 Compose 服务", "docker compose exec <SERVICE> <COMMAND>"),
        ("查看 Kubernetes 日志", "kubectl logs <POD>"),
        ("进入 Kubernetes 容器", "kubectl exec -it <POD> -- <COMMAND>"),
        ("连接 SSH 主机", "ssh <HOST>"),
    ];
    assert(forall|i: int| 0 <= i < 18 ==> (#[trigger] table@[i]).0@ == builtin_table()[i].0 && table@[i].1@ == builtin_table()[i].1);
    let mut r: Vec<SavedCommand> = Vec::new();
    let mut i: usize = 0;
    while i < 18
        invariant
            i <= 18,
            r@.len() == i,
            forall|k: int| 0 <= k < 18 ==> (#[trigger] table@[k]).0@ == builtin_table()[k].0 && table@[k].1@ == builtin_table()[k].1,
            forall|k: int| 0 <= k < i ==> (#[trigger] r@[k])@ == (SavedView {
                name: builtin_table()[k].0,
                command: builtin_table()[k].1,
                description: "内置命令模板"@,
                tags: Seq::empty(),
                kind: HubKind::Builtin,
                template: None,
            }),
        decreases 18 - i,
    {
        let tags: Vec<String> = Vec::new();
        assert(string_views(tags@) =~= Seq::<Seq<char>>::empty());
        let (name, command) = table[i];
        r.push(plain_entry(name, command, "内置命令模板", tags, HubKind::Builtin));
        i = i + 1;
    }
    r
}

/// The workbench actions, in table order, each tagged as an action.
pub fn actions() -> (r: Vec<SavedCommand>)
    ensures
        r@.len() == action_table().len(),
        forall|i: int| 0 <= i < r@.len() ==> (#[trigger] r@[i])@ == (SavedView {
            name: action_table()[i].0,
            command: action_table()[i].1,
            description: action_table()[i].2,
            tags: seq!["Blueberry 操作"@],
            kind: HubKind::Action,
            template: None,
        }),
{
    let table: [(&str, &str, &str); 5] = [
        ("打开设置", "blueberry config edit", "调整外观、补全和快捷键"),
        ("管理工具", "blueberry tools", "查看工具入口、规则和学习状态"),
        ("运行诊断", "blueberry doctor", "检查配置、适配器和安装状态"),
        ("审查项目命令包", "blueberry packs review", "预览当前仓库的声明式操作与变更"),
        ("重新运行引导", "blueberry setup", "重新选择常用初始设置"),
    ];
    assert(forall|i: int| 0 <= i < 5 ==> (#[trigger] table@[i]).0@ == action_table()[i].0
        && table@[i].1@ == action_table()[i].1 && table@[i].2@ == action_table()[i].2);
    let mut r: Vec<SavedCommand> = Vec::new();
    let mut i: usize = 0;
    while i < 5
        invariant
            i <= 5,
            r@.len() == i,
            forall|k: int| 0 <= k < 5 ==> (#[trigger] table@[k]).0@ == action_table()[k].0
                && table@[k].1@ == action_table()[k].1 && table@[k].2@ == action_table()[k].2,
            forall|k: int| 0 <= k < i ==> (#[trigger] r@[k])@ == (SavedView {
                name: action_table()[k].0,
                command: action_table()[k].1,
                description: action_table()[k].2,
                tags: seq!["Blueberry 操作"@],
                kind: HubKind::Action,
                template: None,
            }),
        decreases 5 - i,
    {
        let mut tags: Vec<String> = Vec::new();
        tags.push("Blueberry 操作".to_owned());
        assert(string_views(tags@) =~= seq!["Blueberry 操作"@]);
        let (name, command, description) = table[i];
        r.push(plain_entry(name, command, description, tags, HubKind::Action));
        i = i + 1;
    }
    r
}

/// The entry a template gives: named after it, showing its command line,
/// described by it or as a user template.
pub open spec fn template_entry(t: TemplateView, kind: HubKind) -> SavedView {
    SavedView {
        name: t.name,
        command: spec_preview(t),
        description: if t.description.len() == 0 { "用户模板"@ } else { t.description },
        tags: t.tags,
        kind,
        template: Some(t),
    }
}

/// The entry for one template.
pub fn template_as_command(item: CommandTemplate, kind: HubKind) -> (r: SavedCommand)
    ensures
        r@ == template_entry(item@, kind),
{
    let command = item.preview();
    let description = if item.description.as_str().is_empty() { "用户模板".to_owned() } else { item.description.clone() };
    SavedCommand {
        name: item.name.clone(),
        command,
        description,
        tags: copy_strings(&item.tags),
        kind,
        template: Some(item),
    }
}

/// The entries for templates of one kind, in order.
pub fn templates_as_commands(values: Vec<CommandTemplate>, kind: HubKind) -> (r: Vec<SavedCommand>)
    ensures
        r@.len() == values@.len(),
        forall|i: int| 0 <= i < r@.len() ==> (#[trigger] r@[i])@ == template_entry(values@[i]@, kind),
{
    let mut values = values;
    let ghost all = values@;
    let mut r: Vec<SavedCommand> = Vec::new();
    let n = values.len();
    let mut rest: Vec<CommandTemplate> = Vec::new();
    while values.len() > 0
        invariant
            values@.len() + rest@.len() == n,
            n == all.len(),
            forall|k: int| 0 <= k < values@.len() ==> values@[k] == all[k],
            forall|k: int| 0 <= k < rest@.len() ==> rest@[k] == all[n - 1 - k],
        decreases values@.len(),
    {
        let t = values.pop().unwrap();
        rest.push(t);
    }
    while rest.len() > 0
        invariant
            r@.len() + rest@.len() == n,
            n == all.len(),
            forall|k: int| 0 <= k < rest@.len() ==> rest@[k] == all[n - 1 - k],
            forall|k: int| 0 <= k < r@.len() ==> (#[trigger] r@[k])@ == template_entry(all[k]@, kind),
        decreases rest@.len(),
    {
        let t = rest.pop().unwrap();
        r.push(template_as_command(t, kind));
    }
    r
}

/// The first line of a text, as `str::lines` gives it.
pub open spec fn first_line(s: Seq<char>) -> Seq<char> {
    let end = match crate::forms::find_char(s, 0, '\n') {
        Some(i) => i,
        None => s.len() as int,
    };
    let line = s.subrange(0, end);
    if end < s.len() && line.len() > 0 && line.last() == '\r' { line.drop_last() } else { line }
}

fn first_line_exec(s: &str) -> (r: String)
    ensures
        r@ == first_line(s@),
{
    let c = chars_of(s);
    let mut end: usize = 0;
    while end < c.len() && c[end] != '\n'
        invariant
            end <= c@.len(),
            forall|k: int| 0 <= k < end ==> c@[k] != '\n',
            crate::forms::find_char(c@, 0, '\n') == crate::forms::find_char(c@, end as int, '\n'),
        decreases c@.len() - end,
    {
        end = end + 1;
    }
    let mut stop = end;
    if end < c.len() && end > 0 && c[end - 1] == '\r' {
        stop = end - 1;
    }
    let r = string_of_range(c.as_slice(), 0, stop);
    assert(r@ =~= first_line(s@));
    r
}

/// A history entry: named after the command's first line.
pub open spec fn history_entry(command: Seq<char>, description: Seq<char>) -> SavedView {
    SavedView {
        name: first_line(command),
        command,
        description,
        tags: Seq::empty(),
        kind: HubKind::History,
        template: None,
    }
}

/// The entries for history commands, in order.
pub fn history_commands(commands: Vec<String>, description: &str) -> (r: Vec<SavedCommand>)
    ensures
        r@.len() == commands@.len(),
        forall|i: int| 0 <= i < r@.len() ==> (#[trigger] r@[i])@ == history_entry(commands@[i]@, description@),
{
    let mut r: Vec<SavedCommand> = Vec::new();
    let mut i: usize = 0;
    while i < commands.len()
        invariant
            i <= commands@.len(),
            r@.len() == i,
            forall|k: int| 0 <= k < i ==> (#[trigger] r@[k])@ == history_entry(commands@[k]@, description@),
        decreases commands@.len() - i,
    {
        let name = first_line_exec(commands[i].as_str());
        let tags: Vec<String> = Vec::new();
        assert(string_views(tags@) =~= Seq::<Seq<char>>::empty());
        r.push(SavedCommand {
            name,
            command: commands[i].clone(),
            description: description.to_owned(),
            tags,
            kind: HubKind::History,
            template: None,
        });
        i = i + 1;
    }
    r
}


/// Values of a list of templates.
pub open spec fn template_views(v: Seq<CommandTemplate>) -> Seq<TemplateView> {
    v.map_values(|t: CommandTemplate| t@)
}

/// The built-in entries, in table order.
pub open spec fn builtin_entries() -> Seq<SavedView> {
    builtin_table().map_values(|e: (Seq<char>, Seq<char>)| SavedView {
        name: e.0,
        command: e.1,
        description: "内置命令模板"@,
        tags: Seq::empty(),
        kind: HubKind::Builtin,
        template: None,
    })
}

/// The action entries, in table order.
pub open spec fn action_entries() -> Seq<SavedView> {
    action_table().map_values(|e: (Seq<char>, Seq<char>, Seq<char>)| SavedView {
        name: e.0,
        command: e.1,
        description: e.2,
        tags: seq!["Blueberry 操作"@],
        kind: HubKind::Action,
        template: None,
    })
}

/// Everything the workbench searches, in the order it is offered: the
/// template of the current command line, favorites, user templates,
/// project templates, built-in templates, actions, then history.
pub open spec fn hub_entries(favorites: Seq<SavedView>, guided: Option<TemplateView>, templates: Seq<TemplateView>,
    projects: Seq<TemplateView>, history: Seq<Seq<char>>) -> Seq<SavedView> {
    (match guided {
        Some(t) => seq![template_entry(t, HubKind::Guided)],
        None => Seq::empty(),
    }) + favorites + templates.map_values(|t: TemplateView| template_entry(t, HubKind::Template))
        + projects.map_values(|t: TemplateView| template_entry(t, HubKind::Project)) + builtin_entries()
        + action_entries() + history.map_values(|h: Seq<char>| history_entry(h, "PowerShell 历史"@))
}

fn append_entries(dst: &mut Vec<SavedCommand>, src: Vec<SavedCommand>)
    ensures
        saved_views(final(dst)@) == saved_views(old(dst)@) + saved_views(src@),
{
    let mut src = src;
    let mut rest: Vec<SavedCommand> = Vec::new();
    let ghost all = src@;
    let n = src.len();
    while src.len() > 0
        invariant
            src@.len() + rest@.len() == n,
            n == all.len(),
            forall|k: int| 0 <= k < src@.len() ==> src@[k] == all[k],
            forall|k: int| 0 <= k < rest@.len() ==> rest@[k] == all[n - 1 - k],
        decreases src@.len(),
    {
        let t = src.pop().unwrap();
        rest.push(t);
    }
    let ghost start = saved_views(dst@);
    while rest.len() > 0
        invariant
            rest@.len() <= n,
            n == all.len(),
            forall|k: int| 0 <= k < rest@.len() ==> rest@[k] == all[n - 1 - k],
            saved_views(dst@) == start + saved_views(all.take(n - rest@.len())),
        decreases rest@.len(),
    {
        let t = rest.pop().unwrap();
        let ghost before = saved_views(dst@);
        let ghost k = n - 1 - rest@.len();
        dst.push(t);
        assert(saved_views(all.take(k + 1)) =~= saved_views(all.take(k)).push(all[k]@));
        assert(saved_views(dst@) =~= before.push(all[k]@));
    }
    assert(all.take(n as int) =~= all);
}

/// Everything the workbench searches, in order (see [`hub_entries`]).
pub fn hub_items(favorites: Vec<SavedCommand>, guided: Option<CommandTemplate>, templates: Vec<CommandTemplate>,
    projects: Vec<CommandTemplate>, history: Vec<String>) -> (r: Vec<SavedCommand>)
    ensures
        saved_views(r@) == hub_entries(saved_views(favorites@), match guided {
            Some(t) => Some(t@),
            None => None,
        }, template_views(templates@), template_views(projects@), string_views(history@)),
{
    let ghost fv = saved_views(favorites@);
    let ghost tv = template_views(templates@);
    let ghost pv = template_views(projects@);
    let ghost hv = string_views(history@);
    let ghost gv = match guided { Some(ref t) => Some(t@), None => None };
    let mut items: Vec<SavedCommand> = Vec::new();
    match guided {
        Some(t) => items.push(template_as_command(t, HubKind::Guided)),
        None => {},
    }
    let ghost g_part = saved_views(items@);
    assert(g_part =~= match gv { Some(t) => seq![template_entry(t, HubKind::Guided)], None => Seq::<SavedView>::empty() });
    append_entries(&mut items, favorites);
    let t = templates_as_commands(templates, HubKind::Template);
    assert(saved_views(t@) =~= tv.map_values(|x: TemplateView| template_entry(x, HubKind::Template)));
    append_entries(&mut items, t);
    let p = templates_as_commands(projects, HubKind::Project);
    assert(saved_views(p@) =~= pv.map_values(|x: TemplateView| template_entry(x, HubKind::Project)));
    append_entries(&mut items, p);
    let b = builtins();
    assert(saved_views(b@) =~= builtin_entries());
    append_entries(&mut items, b);
    let a = actions();
    assert(saved_views(a@) =~= action_entries());
    append_entries(&mut items, a);
    let h = history_commands(history, "PowerShell 历史");
    assert(saved_views(h@) =~= hv.map_values(|x: Seq<char>| history_entry(x, "PowerShell 历史"@)));
    append_entries(&mut items, h);
    items
}


/// `word` occurs in `text`.
pub open spec fn contains_seq(text: Seq<char>, word: Seq<char>) -> bool {
    exists|i: int| 0 <= i && i + word.len() <= text.len() && #[trigger] text.subrange(i, i + word.len()) == word
}

/// What a workbench query searches in an entry: its name, description,
/// command and tags, separated by spaces, in Unicode lower case.
pub open spec fn hub_text(item: SavedView) -> Seq<char> {
    unicode_lower(item.name + seq![' '] + item.description + seq![' '] + item.command + seq![' '] + join(item.tags, ' '))
}

/// Every word occurs in the text.
pub open spec fn all_words_in(text: Seq<char>, words: Seq<Seq<char>>) -> bool {
    forall|k: int| 0 <= k < words.len() ==> contains_seq(text, #[trigger] words[k])
}

/// The positions of the entries that hold every word, in order.
pub open spec fn matching_indices(items: Seq<SavedView>, words: Seq<Seq<char>>) -> Seq<int>
    decreases items.len(),
{
    if items.len() == 0 {
        Seq::empty()
    } else {
        let prev = matching_indices(items.drop_last(), words);
        if all_words_in(hub_text(items.last()), words) { prev.push(items.len() - 1) } else { prev }
    }
}

/// At most the first `n` elements.
pub open spec fn first_n<T>(s: Seq<T>, n: nat) -> Seq<T> {
    if n < s.len() { s.take(n as int) } else { s }
}

/// The kind of template an entry id names.
pub open spec fn template_kind_word(kind: HubKind) -> Seq<char> {
    match kind {
        HubKind::Project => "project"@,
        HubKind::Guided => "guided"@,
        _ => "template"@,
    }
}

/// The id of the candidate for an entry at a position: a template's own
/// id (or name and command), else the position and command.
pub open spec fn hub_id(item: SavedView, index: int) -> Seq<char> {
    match item.template {
        Some(t) => "hub:"@ + template_kind_word(item.kind) + ":"@
            + (if t.id.len() == 0 { t.name + ":"@ + item.command } else { t.id }),
        None => "hub:"@ + decimal(index as nat) + ":"@ + item.command,
    }
}

/// Where a workbench candidate says it comes from.
pub open spec fn hub_source(kind: HubKind) -> Seq<char> {
    match kind {
        HubKind::History => "Blueberry 工作台/历史"@,
        HubKind::Action => "Blueberry 工作台/操作"@,
        HubKind::Template => "Blueberry 工作台/模板"@,
        HubKind::Project => "Blueberry 工作台/项目"@,
        HubKind::Guided => "Blueberry 工作台/当前命令"@,
        _ => "Blueberry 工作台"@,
    }
}

/// The review of the project command packs is shown for the action that
/// opens it, when there is one.
pub open spec fn shows_review(item: SavedView, review: Option<Seq<char>>) -> bool {
    item.kind == HubKind::Action && item.command == "blueberry packs review"@ && review is Some
}

/// The detail text of an entry: its description, command and tags.
pub open spec fn hub_detail(item: SavedView) -> Seq<char> {
    item.description + "\n\n命令\n  "@ + item.command + "\n\n来源\n  "@ + join(item.tags, '、')
}

/// The candidate for the entry at a position.
pub open spec fn hub_candidate_ok(c: Candidate, item: SavedView, index: int, review: Option<Seq<char>>) -> bool {
    &&& c.label@ == item.name
    &&& c.insert_text@ == item.command
    &&& c.description@ == (if shows_review(item, review) { "项目命令包来源、校验与批准差异；F1 查看"@ } else { item.description })
    &&& c.kind == CandidateKind::Value
    &&& c.id@ == hub_id(item, index)
    &&& c.source@ == hub_source(item.kind)
    &&& c.detail@ == (if shows_review(item, review) { review->0 } else { hub_detail(item) })
    &&& c.description_source@.len() == 0 && c.language@.len() == 0 && c.match_reason@.len() == 0
    &&& !c.append_space
}

/// A list of (id, template) pairs read as a map; later pairs win.
pub open spec fn pairs_map(v: Seq<(Seq<char>, TemplateView)>) -> Map<Seq<char>, TemplateView>
    decreases v.len(),
{
    if v.len() == 0 {
        Map::empty()
    } else {
        pairs_map(v.drop_last()).insert(v.last().0, v.last().1)
    }
}

/// Values of (id, template) pairs.
pub open spec fn pair_views(v: Seq<(String, CommandTemplate)>) -> Seq<(Seq<char>, TemplateView)> {
    v.map_values(|p: (String, CommandTemplate)| (p.0@, p.1@))
}

/// The templates of the selected entries, by candidate id.
pub open spec fn hub_templates(items: Seq<SavedView>, selected: Seq<int>) -> Map<Seq<char>, TemplateView>
    decreases selected.len(),
{
    if selected.len() == 0 {
        Map::empty()
    } else {
        let prev = hub_templates(items, selected.drop_last());
        let i = selected.last();
        match items[i].template {
            Some(t) => prev.insert(hub_id(items[i], i), t),
            None => prev,
        }
    }
}

pub(crate) fn contains_word(text: &Vec<char>, word: &Vec<char>) -> (r: bool)
    ensures
        r == contains_seq(text@, word@),
{
    if word.len() > text.len() {
        return false;
    }
    let last = text.len() - word.len();
    let mut i: usize = 0;
    while i <= last
        invariant
            word@.len() <= text@.len(),
            last == text@.len() - word@.len(),
            i <= last,
            forall|j: int| 0 <= j < i ==> #[trigger] text@.subrange(j, j + word@.len()) != word@,
        decreases last - i,
    {
        if crate::forms::matches_at(text, i, word) {
            return true;
        }
        if i == last {
            return false;
        }
        i = i + 1;
    }
    false
}

fn entry_text(item: &SavedCommand) -> (r: Vec<char>)
    ensures
        r@ == hub_text(item@),
{
    let mut t = item.name.clone();
    push_char(&mut t, ' ');
    push_str(&mut t, item.description.as_str());
    push_char(&mut t, ' ');
    push_str(&mut t, item.command.as_str());
    push_char(&mut t, ' ');
    let tags = join_strings(&item.tags, ' ');
    push_str(&mut t, tags.as_str());
    assert(t@ =~= item.name@ + seq![' '] + item.description@ + seq![' '] + item.command@ + seq![' '] + join(item@.tags, ' '));
    let lowered = to_lowercase(t.as_str());
    chars_of(lowered.as_str())
}

fn all_words(text: &Vec<char>, words: &Vec<Vec<char>>) -> (r: bool)
    ensures
        r == all_words_in(text@, words@.map_values(|w: Vec<char>| w@)),
{
    let ghost wv = words@.map_values(|w: Vec<char>| w@);
    let mut k: usize = 0;
    while k < words.len()
        invariant
            wv == words@.map_values(|w: Vec<char>| w@),
            k <= words@.len(),
            forall|j: int| 0 <= j < k ==> contains_seq(text@, #[trigger] wv[j]),
        decreases words@.len() - k,
    {
        if !contains_word(text, &words[k]) {
            assert(!contains_seq(text@, wv[k as int]));
            return false;
        }
        k = k + 1;
    }
    true
}

fn hub_candidate(item: &SavedCommand, index: usize, review: &Option<String>) -> (r: Candidate)
    ensures
        hub_candidate_ok(r, item@, index as int, match review {
            Some(v) => Some(v@),
            None => None,
        }),
{
    let ghost rv = match review { Some(v) => Some(v@), None => None };
    let mut id = "hub:".to_owned();
    match &item.template {
        Some(t) => {
            let word = match item.kind {
                HubKind::Project => "project",
                HubKind::Guided => "guided",
                _ => "template",
            };
            push_str(&mut id, word);
            push_char(&mut id, ':');
            if t.id.as_str().is_empty() {
                push_str(&mut id, t.name.as_str());
                push_char(&mut id, ':');
                push_str(&mut id, item.command.as_str());
            } else {
                push_str(&mut id, t.id.as_str());
            }
            proof {
                reveal_strlit(":");
                assert(id@ =~= hub_id(item@, index as int));
            }
        },
        None => {
            push_decimal(&mut id, index);
            push_char(&mut id, ':');
            push_str(&mut id, item.command.as_str());
            proof {
                reveal_strlit(":");
                assert(id@ =~= hub_id(item@, index as int));
            }
        },
    }
    let source = match item.kind {
        HubKind::History => "Blueberry 工作台/历史".to_owned(),
        HubKind::Action => "Blueberry 工作台/操作".to_owned(),
        HubKind::Template => "Blueberry 工作台/模板".to_owned(),
        HubKind::Project => "Blueberry 工作台/项目".to_owned(),
        HubKind::Guided => "Blueberry 工作台/当前命令".to_owned(),
        _ => "Blueberry 工作台".to_owned(),
    };
    let reviewed = match item.kind {
        HubKind::Action => str_eq(item.command.as_str(), "blueberry packs review") && review.is_some(),
        _ => false,
    };
    let (description, detail) = if reviewed {
        let shown = match review {
            Some(v) => v.clone(),
            None => String::new(),
        };
        ("项目命令包来源、校验与批准差异；F1 查看".to_owned(), shown)
    } else {
        let mut d = item.description.clone();
        push_str(&mut d, "\n\n命令\n  ");
        push_str(&mut d, item.command.as_str());
        push_str(&mut d, "\n\n来源\n  ");
        let tags = join_strings(&item.tags, '、');
        push_str(&mut d, tags.as_str());
        (item.description.clone(), d)
    };
    let mut c = Candidate::new(item.name.clone(), item.command.clone(), description, CandidateKind::Value);
    c.id = id;
    c.source = source;
    c.detail = detail;
    c
}

/// Search the workbench entries: the entries holding every word of the
/// query (compared in Unicode lower case), at most `max_results` of them,
/// as candidates, with the templates of the chosen entries by candidate id
/// (later pairs win). `review` is the review of the project command packs.
pub fn search_hub(items: &Vec<SavedCommand>, query: &str, max_results: usize, review: Option<String>)
    -> (r: (Vec<Candidate>, Vec<(String, CommandTemplate)>))
    ensures
        ({
            let rv = match review {
                Some(v) => Some(v@),
                None => None,
            };
            let sel = first_n(matching_indices(saved_views(items@), split_ws(unicode_lower(query@))), max_results as nat);
            &&& r.0@.len() == sel.len()
            &&& forall|i: int| 0 <= i < sel.len() ==> hub_candidate_ok(#[trigger] r.0@[i], saved_views(items@)[sel[i]], sel[i], rv)
            &&& pairs_map(pair_views(r.1@)) == hub_templates(saved_views(items@), sel)
        }),
{
    let ghost iv = saved_views(items@);
    let ghost rv = match review { Some(ref v) => Some(v@), None => None };
    let lowered = to_lowercase(query);
    let lc = chars_of(lowered.as_str());
    let word_strings = split_words(lc.as_slice());
    let mut words: Vec<Vec<char>> = Vec::new();
    let mut w: usize = 0;
    while w < word_strings.len()
        invariant
            w <= word_strings@.len(),
            words@.map_values(|x: Vec<char>| x@) == string_views(word_strings@).take(w as int),
        decreases word_strings@.len() - w,
    {
        let ghost before = words@.map_values(|x: Vec<char>| x@);
        words.push(chars_of(word_strings[w].as_str()));
        assert(words@.map_values(|x: Vec<char>| x@) =~= before.push(word_strings@[w as int]@));
        assert(string_views(word_strings@).take(w as int + 1) =~= string_views(word_strings@).take(w as int).push(word_strings@[w as int]@));
        w = w + 1;
    }
    let ghost words_v = split_ws(unicode_lower(query@));
    assert(string_views(word_strings@).take(w as int) =~= words_v);
    let mut candidates: Vec<Candidate> = Vec::new();
    let mut templates: Vec<(String, CommandTemplate)> = Vec::new();
    let ghost mut sel: Seq<int> = Seq::empty();
    let mut i: usize = 0;
    assert(pair_views(templates@) =~= Seq::<(Seq<char>, TemplateView)>::empty());
    while i < items.len() && candidates.len() < max_results
        invariant
            iv == saved_views(items@),
            rv == match review { Some(v) => Some(v@), None => None },
            words@.map_values(|x: Vec<char>| x@) == words_v,
            i <= items@.len(),
            sel == matching_indices(iv.take(i as int), words_v),
            candidates@.len() == sel.len(),
            candidates@.len() <= max_results,
            forall|k: int| 0 <= k < sel.len() ==> hub_candidate_ok(#[trigger] candidates@[k], iv[sel[k]], sel[k], rv),
            forall|k: int| 0 <= k < sel.len() ==> 0 <= #[trigger] sel[k] < i,
            pairs_map(pair_views(templates@)) == hub_templates(iv, sel),
        decreases items@.len() - i,
    {
        assert(iv.take(i as int + 1).drop_last() =~= iv.take(i as int));
        assert(iv.take(i as int + 1).last() == iv[i as int]);
        assert(iv[i as int] == items@[i as int]@);
        let text = entry_text(&items[i]);
        if all_words(&text, &words) {
            let c = hub_candidate(&items[i], i, &review);
            let ghost before_sel = sel;
            let ghost before_c = candidates@;
            let ghost cc = c;
            assert(hub_candidate_ok(cc, iv[i as int], i as int, rv));
            candidates.push(c);
            proof {
                sel = sel.push(i as int);
                assert forall|k: int| 0 <= k < sel.len() implies hub_candidate_ok(#[trigger] candidates@[k], iv[sel[k]], sel[k], rv) by {
                    if k < before_sel.len() {
                        assert(candidates@[k] == before_c[k]);
                        assert(sel[k] == before_sel[k]);
                    } else {
                        assert(candidates@[k] == cc);
                        assert(sel[k] == i as int);
                    }
                }
                assert(sel.drop_last() =~= before_sel);
                assert(sel.last() == i as int);
            }
            match &items[i].template {
                Some(t) => {
                    let ghost before_t = pair_views(templates@);
                    templates.push((c_id_of(&candidates, candidates.len() - 1), t.copy()));
                    assert(pair_views(templates@) =~= before_t.push((hub_id(iv[i as int], i as int), t@)));
                    assert(pair_views(templates@).drop_last() =~= before_t);
                    assert(iv[i as int].template == Some(t@));
                },
                None => {
                    assert(iv[i as int].template is None);
                },
            }
        }
        i = i + 1;
    }
    proof {
        let all = matching_indices(iv, words_v);
        lemma_matching_prefix(iv, words_v, i as int);
        if i < items@.len() {
            assert(candidates@.len() == max_results);
            assert(all.take(all.len() as int) =~= all);
        } else {
            assert(iv.take(i as int) =~= iv);
        }
        assert(sel == first_n(all, max_results as nat));
    }
    (candidates, templates)
}

fn c_id_of(candidates: &Vec<Candidate>, k: usize) -> (r: String)
    requires
        k < candidates@.len(),
    ensures
        r@ == candidates@[k as int].id@,
{
    candidates[k].id.clone()
}

proof fn lemma_matching_prefix(items: Seq<SavedView>, words: Seq<Seq<char>>, n: int)
    requires
        0 <= n <= items.len(),
    ensures
        matching_indices(items.take(n), words).len() <= matching_indices(items, words).len(),
        matching_indices(items, words).take(matching_indices(items.take(n), words).len() as int)
            == matching_indices(items.take(n), words),
    decreases items.len(),
{
    let a = matching_indices(items.take(n), words);
    if n < items.len() {
        lemma_matching_prefix(items.drop_last(), words, n);
        assert(items.drop_last().take(n) =~= items.take(n));
        let d = matching_indices(items.drop_last(), words);
        assert(d.push(items.len() - 1).take(a.len() as int) =~= d.take(a.len() as int));
    } else {
        assert(items.take(n) =~= items);
        assert(a.take(a.len() as int) =~= a);
    }
}


/// What the interactive workbench matches a query against: name,
/// command, description and tags, separated by spaces, in Unicode lower
/// case.
pub open spec fn match_text(item: SavedView) -> Seq<char> {
    unicode_lower(item.name + seq![' '] + item.command + seq![' '] + item.description + seq![' '] + join(item.tags, ' '))
}

/// Whether an entry holds every whitespace-separated word of the query;
/// the query itself is compared as typed.
pub fn hub_match(item: &SavedCommand, query: &str) -> (r: bool)
    ensures
        r == all_words_in(match_text(item@), split_ws(query@)),
{
    let mut t = item.name.clone();
    push_char(&mut t, ' ');
    push_str(&mut t, item.command.as_str());
    push_char(&mut t, ' ');
    push_str(&mut t, item.description.as_str());
    push_char(&mut t, ' ');
    let tags = join_strings(&item.tags, ' ');
    push_str(&mut t, tags.as_str());
    assert(t@ =~= item.name@ + seq![' '] + item.command@ + seq![' '] + item.description@ + seq![' '] + join(item@.tags, ' '));
    let lowered = to_lowercase(t.as_str());
    let text = chars_of(lowered.as_str());
    let q = chars_of(query);
    let word_strings = split_words(q.as_slice());
    let ghost wv = string_views(word_strings@);
    let mut k: usize = 0;
    while k < word_strings.len()
        invariant
            wv == string_views(word_strings@),
            wv == split_ws(query@),
            text@ == match_text(item@),
            k <= wv.len(),
            forall|j: int| 0 <= j < k ==> contains_seq(text@, #[trigger] wv[j]),
        decreases wv.len() - k,
    {
        let w = chars_of(word_strings[k].as_str());
        assert(w@ == wv[k as int]);
        if !contains_word(&text, &w) {
            return false;
        }
        k = k + 1;
    }
    true
}


/// The workbench search finds exactly the entries that hold every word,
/// each once, in the order they are offered.
pub proof fn law_search_finds_exactly_the_matches(items: Seq<SavedView>, words: Seq<Seq<char>>)
    ensures
        forall|k: int| 0 <= k < matching_indices(items, words).len() ==> {
            let i = #[trigger] matching_indices(items, words)[k];
            0 <= i < items.len() && all_words_in(hub_text(items[i]), words)
        },
        forall|a: int, b: int| 0 <= a < b < matching_indices(items, words).len()
            ==> #[trigger] matching_indices(items, words)[a] < #[trigger] matching_indices(items, words)[b],
        forall|j: int| 0 <= j < items.len() && all_words_in(hub_text(#[trigger] items[j]), words)
            ==> matching_indices(items, words).contains(j),
    decreases items.len(),
{
    if items.len() > 0 {
        let d = items.drop_last();
        law_search_finds_exactly_the_matches(d, words);
        let prev = matching_indices(d, words);
        let m = matching_indices(items, words);
        assert forall|k: int| 0 <= k < prev.len() implies items[#[trigger] prev[k]] == d[prev[k]] by {}
        assert forall|j: int| 0 <= j < items.len() && all_words_in(hub_text(#[trigger] items[j]), words)
            implies m.contains(j) by {
            if j < items.len() - 1 {
                assert(d[j] == items[j]);
                assert(prev.contains(j));
                let k = choose|k: int| 0 <= k < prev.len() && prev[k] == j;
                assert(m[k] == j);
            } else {
                assert(m[m.len() - 1] == j);
            }
        }
    }
}


/// How many recent commands suggestions look through: twenty per
/// suggestion, at least fifty, at most the history kept.
pub open spec fn scan_limit(suggestion_limit: usize, history_limit: usize) -> int {
    let wide = if suggestion_limit * 20 > usize::MAX { usize::MAX as int } else { suggestion_limit * 20 };
    let at_least = if wide < 50 { 50 } else { wide };
    if at_least < history_limit { at_least } else { history_limit as int }
}

/// The commands suggestions are drawn from, in order: favorites (their
/// command and description), then the recent session commands looked
/// through; each with where it comes from.
pub open spec fn suggestion_pool(favorites: Seq<SavedView>, session: Seq<Seq<char>>, scan: int) -> Seq<(Seq<char>, Seq<char>, Seq<char>)> {
    favorites.map_values(|f: SavedView| (f.command, f.description, "收藏"@))
        + first_n(session, scan as nat).map_values(|c: Seq<char>| (c, "最近使用"@, "历史"@))
}

/// The suggestions, in pool order: commands that start with the line (in
/// Unicode lower case) and are not the line itself, each command once.
pub open spec fn suggested(pool: Seq<(Seq<char>, Seq<char>, Seq<char>)>, line: Seq<char>) -> Seq<(Seq<char>, Seq<char>, Seq<char>)>
    decreases pool.len(),
{
    if pool.len() == 0 {
        Seq::empty()
    } else {
        let prev = suggested(pool.drop_last(), line);
        let e = pool.last();
        if starts_with_seq(unicode_lower(e.0), unicode_lower(line)) && e.0 != line
            && !(exists|k: int| 0 <= k < prev.len() && (#[trigger] prev[k]).0 == e.0) {
            prev.push(e)
        } else {
            prev
        }
    }
}

/// `p` is a prefix of `s`.
pub open spec fn starts_with_seq(s: Seq<char>, p: Seq<char>) -> bool {
    crate::text::starts_with(s, p)
}

/// The candidate for the suggestion at a position.
pub open spec fn suggestion_ok(c: Candidate, e: (Seq<char>, Seq<char>, Seq<char>), index: int) -> bool {
    &&& c.label@ == e.0
    &&& c.insert_text@ == e.0
    &&& c.description@ == e.1
    &&& c.kind == CandidateKind::Command
    &&& c.id@ == "suggestion:"@ + e.2 + seq![':'] + decimal(index as nat) + seq![':'] + e.0
    &&& c.source@ == "Blueberry/"@ + e.2
    &&& c.match_reason@ == "来自"@ + e.2
    &&& c.description_source@.len() == 0 && c.language@.len() == 0 && c.detail@.len() == 0
    &&& !c.append_space
}

/// Commands suggested for a whole line, from favorites and recent session
/// commands: none when suggestions are off or the line is blank, else at
/// most `suggestion_limit` (see [`suggested`]). A suggestion replaces the
/// whole line.
pub fn suggestions(favorites: &Vec<SavedCommand>, line: &str, session: &Vec<String>, enabled: bool,
    suggestion_limit: usize, history_limit: usize) -> (r: Vec<Candidate>)
    ensures
        !enabled || crate::text::is_blank(line@) ==> r@.len() == 0,
        enabled && !crate::text::is_blank(line@) ==> {
            let s = first_n(suggested(suggestion_pool(saved_views(favorites@), string_views(session@),
                scan_limit(suggestion_limit, history_limit)), line@), suggestion_limit as nat);
            &&& r@.len() == s.len()
            &&& forall|i: int| 0 <= i < r@.len() ==> suggestion_ok(#[trigger] r@[i], s[i], i)
        },
{
    if !enabled || crate::text::is_blank_str(line) {
        return Vec::new();
    }
    let wide = if suggestion_limit > usize::MAX / 20 { usize::MAX } else { suggestion_limit * 20 };
    let at_least = if wide < 50 { 50 } else { wide };
    let scan = if at_least < history_limit { at_least } else { history_limit };
    let mut pool: Vec<(String, String, &str)> = Vec::new();
    let mut i: usize = 0;
    while i < favorites.len()
        invariant
            i <= favorites@.len(),
            pool@.map_values(|e: (String, String, &str)| (e.0@, e.1@, e.2@))
                == saved_views(favorites@).take(i as int).map_values(|f: SavedView| (f.command, f.description, "收藏"@)),
        decreases favorites@.len() - i,
    {
        let ghost before = pool@.map_values(|e: (String, String, &str)| (e.0@, e.1@, e.2@));
        pool.push((favorites[i].command.clone(), favorites[i].description.clone(), "收藏"));
        assert(pool@.map_values(|e: (String, String, &str)| (e.0@, e.1@, e.2@))
            =~= before.push((favorites@[i as int].command@, favorites@[i as int].description@, "收藏"@)));
        assert(saved_views(favorites@).take(i as int + 1) =~= saved_views(favorites@).take(i as int).push(favorites@[i as int]@));
        i = i + 1;
    }
    assert(saved_views(favorites@).take(i as int) =~= saved_views(favorites@));
    let ghost fav_part = pool@.map_values(|e: (String, String, &str)| (e.0@, e.1@, e.2@));
    let ghost sv = string_views(session@);
    let n = if scan < session.len() { scan } else { session.len() };
    let mut k: usize = 0;
    while k < n
        invariant
            n <= session@.len(),
            sv == string_views(session@),
            k <= n,
            pool@.map_values(|e: (String, String, &str)| (e.0@, e.1@, e.2@))
                == fav_part + sv.take(k as int).map_values(|c: Seq<char>| (c, "最近使用"@, "历史"@)),
        decreases n - k,
    {
        let ghost before = pool@.map_values(|e: (String, String, &str)| (e.0@, e.1@, e.2@));
        pool.push((session[k].clone(), "最近使用".to_owned(), "历史"));
        assert(pool@.map_values(|e: (String, String, &str)| (e.0@, e.1@, e.2@))
            =~= before.push((sv[k as int], "最近使用"@, "历史"@)));
        assert(sv.take(k as int + 1) =~= sv.take(k as int).push(sv[k as int]));
        k = k + 1;
    }
    let ghost pv = pool@.map_values(|e: (String, String, &str)| (e.0@, e.1@, e.2@));
    assert(sv.take(n as int) =~= first_n(sv, scan_limit(suggestion_limit, history_limit) as nat));
    assert(pv == suggestion_pool(saved_views(favorites@), sv, scan_limit(suggestion_limit, history_limit)));
    let needle_text = to_lowercase(line);
    let needle = chars_of(needle_text.as_str());
    let mut picked: Vec<usize> = Vec::new();
    let mut out: Vec<Candidate> = Vec::new();
    let mut j: usize = 0;
    let ghost mut chosen: Seq<(Seq<char>, Seq<char>, Seq<char>)> = Seq::empty();
    while j < pool.len() && out.len() < suggestion_limit
        invariant
            pv == pool@.map_values(|e: (String, String, &str)| (e.0@, e.1@, e.2@)),
            needle@ == unicode_lower(line@),
            j <= pv.len(),
            chosen == suggested(pv.take(j as int), line@),
            out@.len() == chosen.len(),
            out@.len() <= suggestion_limit,
            forall|m: int| 0 <= m < out@.len() ==> suggestion_ok(#[trigger] out@[m], chosen[m], m),
        decreases pv.len() - j,
    {
        let ghost t = pv.take(j as int + 1);
        assert(t.drop_last() =~= pv.take(j as int));
        assert(t.last() == pv[j as int]);
        let command = pool[j].0.as_str();
        let lowered = to_lowercase(command);
        let lc = chars_of(lowered.as_str());
        let mut fresh = true;
        if crate::text::chars_start_with(lc.as_slice(), needle.as_slice()) && !str_eq(command, line) {
            let mut m: usize = 0;
            while m < out.len()
                invariant
                    m <= out@.len(),
                    out@.len() == chosen.len(),
                    forall|q: int| 0 <= q < out@.len() ==> suggestion_ok(#[trigger] out@[q], chosen[q], q),
                    fresh == !(exists|q: int| 0 <= q < m && (#[trigger] chosen[q]).0 == command@),
                decreases out@.len() - m,
            {
                assert(suggestion_ok(out@[m as int], chosen[m as int], m as int));
                if str_eq(out[m].label.as_str(), command) {
                    fresh = false;
                }
                m = m + 1;
            }
            if fresh {
                let index = out.len();
                let source = pool[j].2;
                let mut id = "suggestion:".to_owned();
                push_str(&mut id, source);
                push_char(&mut id, ':');
                push_decimal(&mut id, index);
                push_char(&mut id, ':');
                push_str(&mut id, command);
                let mut src = "Blueberry/".to_owned();
                push_str(&mut src, source);
                let mut reason = "来自".to_owned();
                push_str(&mut reason, source);
                let mut c = Candidate::new(command.to_owned(), command.to_owned(), pool[j].1.clone(), CandidateKind::Command);
                c.id = id;
                c.source = src;
                c.match_reason = reason;
                let ghost e = pv[j as int];
                assert(e == (pool@[j as int].0@, pool@[j as int].1@, pool@[j as int].2@));
                assert(c.id@ =~= "suggestion:"@ + e.2 + seq![':'] + decimal(index as nat) + seq![':'] + e.0);
                assert(c.source@ =~= "Blueberry/"@ + e.2);
                assert(c.match_reason@ =~= "来自"@ + e.2);
                assert(suggestion_ok(c, e, index as int));
                let ghost before_out = out@;
                out.push(c);
                proof {
                    chosen = chosen.push(e);
                    assert forall|q: int| 0 <= q < out@.len() implies suggestion_ok(#[trigger] out@[q], chosen[q], q) by {
                        if q < before_out.len() {
                            assert(out@[q] == before_out[q]);
                        }
                    }
                }
            }
        }
        j = j + 1;
    }
    proof {
        let all = suggested(pv, line@);
        lemma_suggested_prefix(pv, line@, j as int);
        if j < pv.len() {
            assert(all.take(all.len() as int) =~= all);
        } else {
            assert(pv.take(j as int) =~= pv);
        }
    }
    out
}

proof fn lemma_suggested_prefix(pool: Seq<(Seq<char>, Seq<char>, Seq<char>)>, line: Seq<char>, n: int)
    requires
        0 <= n <= pool.len(),
    ensures
        suggested(pool.take(n), line).len() <= suggested(pool, line).len(),
        suggested(pool, line).take(suggested(pool.take(n), line).len() as int) == suggested(pool.take(n), line),
    decreases pool.len(),
{
    let a = suggested(pool.take(n), line);
    if n < pool.len() {
        lemma_suggested_prefix(pool.drop_last(), line, n);
        assert(pool.drop_last().take(n) =~= pool.take(n));
        let d = suggested(pool.drop_last(), line);
        assert(d.push(pool.last()).take(a.len() as int) =~= d.take(a.len() as int));
    } else {
        assert(pool.take(n) =~= pool);
        assert(a.take(a.len() as int) =~= a);
    }
}


/// Where the values offered for a form field come from.
#[derive(Debug)]
pub enum SuggestionSource {
    /// The entries of the working directory (only directories, or all),
    /// at most 100 of their labels.
    Paths { directories_only: bool },
    /// The field's own values.
    Values(Vec<String>),
    /// A project provider, asked with the line's command and the words
    /// after it.
    Provider { source: String, command: String, arguments: Vec<String> },
    /// Nothing: a provider field on an empty line.
    Nothing,
}

/// The project providers a field can name.
pub open spec fn is_provider(source: Seq<char>) -> bool {
    source == "cargo.packages"@ || source == "cargo.features"@ || source == "cargo.tests"@
        || source == "docker.compose.service"@
}

/// Where the values of a form field come from, for the command line
/// `line`: file and directory fields list the working directory, fields
/// backed by a project provider ask it, other fields offer their values.
pub fn suggestion_source(field: &TemplateParameter, line: &str) -> (r: SuggestionSource)
    ensures
        (field.kind@ == "file"@ || field.kind@ == "directory"@) ==> (r matches SuggestionSource::Paths { directories_only }
            && directories_only == (field.kind@ == "directory"@)),
        !(field.kind@ == "file"@ || field.kind@ == "directory"@) && !is_provider(field.source@)
            ==> (r matches SuggestionSource::Values(v) && string_views(v@) == string_views(field.values@)),
        !(field.kind@ == "file"@ || field.kind@ == "directory"@) && is_provider(field.source@) ==> {
            let words = split_ws(line@);
            if words.len() == 0 {
                r is Nothing
            } else {
                r matches SuggestionSource::Provider { source, command, arguments } && source@ == field.source@
                    && command@ == words[0] && string_views(arguments@) == words.drop_first()
            }
        },
{
    let kind = field.kind.as_str();
    let is_directory = str_eq(kind, "directory");
    if str_eq(kind, "file") || is_directory {
        return SuggestionSource::Paths { directories_only: is_directory };
    }
    let source = field.source.as_str();
    if !(str_eq(source, "cargo.packages") || str_eq(source, "cargo.features") || str_eq(source, "cargo.tests")
        || str_eq(source, "docker.compose.service")) {
        return SuggestionSource::Values(copy_strings(&field.values));
    }
    let chars = chars_of(line);
    let words = split_words(chars.as_slice());
    if words.len() == 0 {
        return SuggestionSource::Nothing;
    }
    let mut arguments: Vec<String> = Vec::new();
    let mut i: usize = 1;
    while i < words.len()
        invariant
            1 <= i <= words@.len(),
            string_views(arguments@) == string_views(words@).subrange(1, i as int),
        decreases words@.len() - i,
    {
        let w = words[i].clone();
        let ghost before = string_views(arguments@);
        arguments.push(w);
        assert(string_views(arguments@) =~= before.push(words@[i as int]@));
        assert(string_views(arguments@) =~= string_views(words@).subrange(1, i as int + 1));
        i = i + 1;
    }
    assert(string_views(words@).drop_first() =~= string_views(words@).subrange(1, words@.len() as int));
    SuggestionSource::Provider { source: field.source.clone(), command: words[0].clone(), arguments }
}


/// The saved commands a commands file holds: its favorites and templates.
pub fn inspect_commands(favorites: &Vec<SavedCommand>, templates: &Vec<CommandTemplate>) -> (r: usize)
    requires
        favorites@.len() + templates@.len() <= usize::MAX,
    ensures
        r == favorites@.len() + templates@.len(),
{
    favorites.len() + templates.len()
}

/// The values offered for a form field on the line `line`: the field's own
/// values, nothing for a provider field on an empty line, else at most 100
/// of the values `fetched` from the source [`suggestion_source`] names (the
/// labels of the directory's entries, or the provider's values).
pub fn parameter_suggestions(field: &TemplateParameter, line: &str, fetched: Vec<String>) -> (r: Vec<String>)
    ensures
        !(field.kind@ == "file"@ || field.kind@ == "directory"@) && !is_provider(field.source@)
            ==> string_views(r@) == string_views(field.values@),
        !(field.kind@ == "file"@ || field.kind@ == "directory"@) && is_provider(field.source@) && split_ws(line@).len() == 0
            ==> r@.len() == 0,
        (field.kind@ == "file"@ || field.kind@ == "directory"@)
            || (is_provider(field.source@) && split_ws(line@).len() > 0)
            ==> string_views(r@) == first_n(string_views(fetched@), 100),
{
    match suggestion_source(field, line) {
        SuggestionSource::Values(v) => v,
        SuggestionSource::Nothing => Vec::new(),
        _ => {
            let ghost fv = string_views(fetched@);
            let mut fetched = fetched;
            if fetched.len() > 100 {
                fetched.truncate(100);
            }
            assert(string_views(fetched@) =~= first_n(fv, 100));
            fetched
        },
    }
}

/// The workbench searched for `query`: the entries of [`hub_entries`]
/// (the current command's template `guided`, favorites, templates, project
/// templates, built-ins, actions and the merged history of the history
/// file and the session), searched as [`search_hub`] does.
pub fn search_with_history_guided(favorites: Vec<SavedCommand>, templates: Vec<CommandTemplate>,
    projects: Vec<CommandTemplate>, history_limit: usize, session: &Vec<String>, file: (Vec<String>, bool), query: &str,
    max_results: usize, review: Option<String>, guided: Option<CommandTemplate>)
    -> (r: (Vec<Candidate>, Vec<(String, CommandTemplate)>))
    ensures
        ({
            let items = hub_entries(saved_views(favorites@), match guided { Some(t) => Some(t@), None => None },
                template_views(templates@), template_views(projects@),
                recent_distinct(newest_first(string_views(file.0@) + string_views(session@)), history_limit as nat));
            let rv = match review { Some(v) => Some(v@), None => None };
            let sel = first_n(matching_indices(items, split_ws(unicode_lower(query@))), max_results as nat);
            &&& r.0@.len() == sel.len()
            &&& forall|i: int| 0 <= i < sel.len() ==> hub_candidate_ok(#[trigger] r.0@[i], items[sel[i]], sel[i], rv)
            &&& pairs_map(pair_views(r.1@)) == hub_templates(items, sel)
        }),
{
    let history = merged_history(history_limit, session, file);
    let items = hub_items(favorites, guided, templates, projects, history);
    search_hub(&items, query, max_results, review)
}

/// [`search_with_history_guided`] without a template of the current
/// command.
pub fn search_with_history(favorites: Vec<SavedCommand>, templates: Vec<CommandTemplate>,
    projects: Vec<CommandTemplate>, history_limit: usize, session: &Vec<String>, file: (Vec<String>, bool), query: &str,
    max_results: usize, review: Option<String>) -> (r: (Vec<Candidate>, Vec<(String, CommandTemplate)>))
    ensures
        ({
            let items = hub_entries(saved_views(favorites@), None, template_views(templates@), template_views(projects@),
                recent_distinct(newest_first(string_views(file.0@) + string_views(session@)), history_limit as nat));
            let rv = match review { Some(v) => Some(v@), None => None };
            let sel = first_n(matching_indices(items, split_ws(unicode_lower(query@))), max_results as nat);
            &&& r.0@.len() == sel.len()
            &&& forall|i: int| 0 <= i < sel.len() ==> hub_candidate_ok(#[trigger] r.0@[i], items[sel[i]], sel[i], rv)
            &&& pairs_map(pair_views(r.1@)) == hub_templates(items, sel)
        }),
{
    search_with_history_guided(favorites, templates, projects, history_limit, session, file, query, max_results, review, None)
}

/// The candidates of [`search_with_history`], without the templates.
pub fn candidates_with_history(favorites: Vec<SavedCommand>, templates: Vec<CommandTemplate>,
    projects: Vec<CommandTemplate>, history_limit: usize, session: &Vec<String>, file: (Vec<String>, bool), query: &str,
    max_results: usize, review: Option<String>) -> (r: Vec<Candidate>)
    ensures
        ({
            let items = hub_entries(saved_views(favorites@), None, template_views(templates@), template_views(projects@),
                recent_distinct(newest_first(string_views(file.0@) + string_views(session@)), history_limit as nat));
            let rv = match review { Some(v) => Some(v@), None => None };
            let sel = first_n(matching_indices(items, split_ws(unicode_lower(query@))), max_results as nat);
            &&& r@.len() == sel.len()
            &&& forall|i: int| 0 <= i < sel.len() ==> hub_candidate_ok(#[trigger] r@[i], items[sel[i]], sel[i], rv)
        }),
{
    search_with_history(favorites, templates, projects, history_limit, session, file, query, max_results, review).0
}

} // verus!
