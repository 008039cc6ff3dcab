use shellsense::forms::{CommandTemplate, TemplateParameter};
use shellsense::hub::{
    actions, builtins, history_commands, hub_items, hub_match, search_hub, suggestion_source, suggestions, HubKind,
    SavedCommand, SuggestionSource,
};
use shellsense::model::CandidateKind;

fn favorite(name: &str, command: &str, tags: &[&str]) -> SavedCommand {
    SavedCommand {
        name: name.into(),
        command: command.into(),
        description: "我的收藏".into(),
        tags: tags.iter().map(|t| t.to_string()).collect(),
        kind: HubKind::Favorite,
        template: None,
    }
}

#[test]
fn builtin_and_action_tables_are_offered_in_order() {
    let b = builtins();
    assert_eq!(b.len(), 18);
    assert_eq!(b[0].name, "创建 Git 分支");
    assert_eq!(b[0].command, "git switch -c <BRANCH>");
    assert_eq!(b[17].command, "ssh <HOST>");
    assert!(b.iter().all(|i| i.description == "内置命令模板" && i.kind == HubKind::Builtin));
    let a = actions();
    assert_eq!(a.len(), 5);
    assert_eq!(a[3].command, "blueberry packs review");
    assert!(a.iter().all(|i| i.tags == vec!["Blueberry 操作".to_string()]));
}

#[test]
fn search_finds_every_word_in_entry_order_with_ids() {
    let items = hub_items(vec![favorite("部署", "git push origin main", &["发布"])], None, Vec::new(), Vec::new(), Vec::new());
    assert_eq!(items.len(), 1 + 18 + 5);
    let (candidates, templates) = search_hub(&items, "GIT 分支", 100, None);
    let labels: Vec<&str> = candidates.iter().map(|c| c.label.as_str()).collect();
    assert_eq!(labels, ["创建 Git 分支", "切换 Git 分支"]);
    assert_eq!(candidates[0].id, "hub:1:git switch -c <BRANCH>");
    assert_eq!(candidates[0].insert_text, "git switch -c <BRANCH>");
    assert_eq!(candidates[0].kind, CandidateKind::Value);
    assert_eq!(candidates[0].source, "Blueberry 工作台");
    assert_eq!(candidates[0].detail, "内置命令模板\n\n命令\n  git switch -c <BRANCH>\n\n来源\n  ");
    assert!(templates.is_empty());
    let (found, _) = search_hub(&items, "发布", 100, None);
    assert_eq!(found.len(), 1);
    assert_eq!(found[0].id, "hub:0:git push origin main");
    assert_eq!(found[0].detail, "我的收藏\n\n命令\n  git push origin main\n\n来源\n  发布");
}

#[test]
fn search_stops_at_the_result_limit_and_an_empty_query_matches_all() {
    let items = hub_items(Vec::new(), None, Vec::new(), Vec::new(), vec!["ls -la".into(), "first\r\nsecond".into()]);
    let (all, _) = search_hub(&items, "   ", 1000, None);
    assert_eq!(all.len(), items.len());
    let (two, _) = search_hub(&items, "", 2, None);
    assert_eq!(two.len(), 2);
    let history = &all[all.len() - 1];
    assert_eq!(history.label, "first");
    assert_eq!(history.source, "Blueberry 工作台/历史");
    assert_eq!(history.description, "PowerShell 历史");
    let (none, _) = search_hub(&items, "no-such-word", 10, None);
    assert!(none.is_empty());
}

#[test]
fn templates_are_keyed_by_candidate_id_and_the_review_is_shown() {
    let template = CommandTemplate {
        id: "deploy".into(),
        name: "部署模板".into(),
        tokens: vec!["deploy".into(), "{env}".into()],
        ..Default::default()
    };
    let unnamed = CommandTemplate {
        name: "构建".into(),
        command: "cargo build".into(),
        description: "构建项目".into(),
        ..Default::default()
    };
    let guided = CommandTemplate {
        name: "当前".into(),
        command: "git status".into(),
        ..Default::default()
    };
    let items = hub_items(Vec::new(), Some(guided), vec![template], vec![unnamed], Vec::new());
    assert_eq!(items[0].kind, HubKind::Guided);
    assert_eq!(items[1].command, "deploy {env}");
    assert_eq!(items[1].description, "用户模板");
    let (candidates, templates) = search_hub(&items, "", 3, Some("差异".into()));
    assert_eq!(candidates[0].id, "hub:guided:当前:git status");
    assert_eq!(candidates[1].id, "hub:template:deploy");
    assert_eq!(candidates[2].id, "hub:project:构建:cargo build");
    assert_eq!(candidates[2].source, "Blueberry 工作台/项目");
    assert_eq!(templates.len(), 3);
    assert_eq!(templates[1].0, "hub:template:deploy");
    assert_eq!(templates[1].1.name, "部署模板");
    let (review, _) = search_hub(&items, "packs review", 10, Some("差异".into()));
    assert_eq!(review.len(), 1);
    assert_eq!(review[0].detail, "差异");
    assert_eq!(review[0].description, "项目命令包来源、校验与批准差异；F1 查看");
    let (plain, _) = search_hub(&items, "packs review", 10, None);
    assert_eq!(plain[0].description, "预览当前仓库的声明式操作与变更");
}

#[test]
fn interactive_matching_uses_the_query_as_typed() {
    let item = favorite("Deploy", "git push", &["Release"]);
    assert!(hub_match(&item, "deploy release"));
    assert!(hub_match(&item, ""));
    assert!(!hub_match(&item, "Deploy"));
    assert!(!hub_match(&item, "missing"));
    let history = history_commands(vec!["a\nb".into()], "PSReadLine 历史");
    assert_eq!(history[0].name, "a");
    assert_eq!(history[0].description, "PSReadLine 历史");
}

#[test]
fn suggestions_complete_the_whole_line_from_favorites_and_history() {
    let favorites = vec![favorite("部署", "git push origin main", &[])];
    let session: Vec<String> = vec!["git status".into(), "GIT push origin main".into(), "git status".into(), "git".into(), "ls".into()];
    let found = suggestions(&favorites, "git", &session, true, 5, 100);
    let commands: Vec<&str> = found.iter().map(|c| c.insert_text.as_str()).collect();
    assert_eq!(commands, ["git push origin main", "git status", "GIT push origin main"]);
    assert_eq!(found[0].id, "suggestion:收藏:0:git push origin main");
    assert_eq!(found[0].source, "Blueberry/收藏");
    assert_eq!(found[1].id, "suggestion:历史:1:git status");
    assert_eq!(found[1].description, "最近使用");
    assert_eq!(found[1].match_reason, "来自历史");
    assert_eq!(suggestions(&favorites, "git", &session, true, 1, 100).len(), 1);
    assert!(suggestions(&favorites, "git", &session, false, 5, 100).is_empty());
    assert!(suggestions(&favorites, "  ", &session, true, 5, 100).is_empty());
    assert_eq!(suggestions(&Vec::new(), "git", &session, true, 5, 1).len(), 1);
}

#[test]
fn form_fields_name_where_their_values_come_from() {
    let directory = TemplateParameter { name: "dir".into(), kind: "directory".into(), ..Default::default() };
    assert!(matches!(suggestion_source(&directory, "cd"), SuggestionSource::Paths { directories_only: true }));
    let file = TemplateParameter { name: "f".into(), kind: "file".into(), ..Default::default() };
    assert!(matches!(suggestion_source(&file, ""), SuggestionSource::Paths { directories_only: false }));
    let listed = TemplateParameter { name: "mode".into(), values: vec!["fast".into(), "slow".into()], ..Default::default() };
    assert!(matches!(suggestion_source(&listed, "cargo"), SuggestionSource::Values(v) if v == vec!["fast".to_string(), "slow".to_string()]));
    let provided = TemplateParameter { name: "package".into(), source: "cargo.packages".into(), ..Default::default() };
    assert!(matches!(suggestion_source(&provided, "   "), SuggestionSource::Nothing));
    match suggestion_source(&provided, " cargo  test -p ") {
        SuggestionSource::Provider { source, command, arguments } => {
            assert_eq!(source, "cargo.packages");
            assert_eq!(command, "cargo");
            assert_eq!(arguments, vec!["test".to_string(), "-p".to_string()]);
        }
        other => panic!("{other:?}"),
    }
}
