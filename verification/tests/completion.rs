use shellsense::completion::preserve_suffix;
use shellsense::model::Candidate;

#[test]
fn middle_insert_keeps_suffix_without_duplication() {
    for (line, cursor, value, expected) in [
        ("git", 1, "git", "git"),
        ("giXYZ", 2, "git", "gitXYZ"),
        ("'中文😀x'", 7, "'中文😀'", "'中文😀x'"),
        ("git tail", 2, "git", "git"),
    ] {
        let end = if line == "git tail" { 3 } else { line.len() };
        let mut c = Candidate {
            insert_text: value.into(),
            ..Default::default()
        };
        preserve_suffix(&mut c, line, cursor, 0, end);
        assert_eq!(c.insert_text, expected);
    }
}

#[test]
fn suffix_is_left_alone_outside_the_range() {
    let mut c = Candidate {
        insert_text: "git".into(),
        append_space: true,
        ..Default::default()
    };
    preserve_suffix(&mut c, "gi", 2, 0, 2);
    assert_eq!(c.insert_text, "git");
    assert!(c.append_space);
    preserve_suffix(&mut c, "中", 1, 0, 3);
    assert_eq!(c.insert_text, "git");
    preserve_suffix(&mut c, "gXt", 1, 0, 3);
    assert_eq!(c.insert_text, "gitXt");
    assert!(!c.append_space);
}

use shellsense::completion::{finish_merge, merge_sources, plan_sources, SourcePlan, SpecFacts};
use shellsense::model::{CandidateKind, Completion, InputContext};

fn context(command: &str, prefix: &str, command_position: bool) -> InputContext {
    InputContext {
        command: command.into(),
        prefix: prefix.into(),
        command_position,
        ..Default::default()
    }
}

fn item(label: &str, kind: CandidateKind) -> Candidate {
    Candidate {
        label: label.into(),
        insert_text: label.into(),
        kind,
        ..Default::default()
    }
}

#[test]
fn sources_are_planned_from_the_token_and_its_spec() {
    let plan = plan_sources(&context("Set-Location", "", false), None, true);
    assert!(plan.paths && plan.directories_only && !plan.project);
    assert!(!plan_sources(&context("git", "-x", false), None, true).paths);
    assert!(plan_sources(&context("", "$ENV:Pa", true), None, true).paths);
    assert!(plan_sources(&context("", "./src", true), None, true).paths);
    assert!(!plan_sources(&context("", "gi", true), None, true).paths);
    let mut suppressed = context("ls", "", false);
    suppressed.suppressed = true;
    assert!(!plan_sources(&suppressed, None, true).paths);
    let cargo = SpecFacts { provider: Some("cargo.packages".into()), path_values: false, options_ended: false, directories_only: false };
    let plan = plan_sources(&context("cargo", "-p", false), Some(&cargo), true);
    assert!(!plan.paths && plan.project);
    assert_eq!(plan.provider.as_deref(), Some("cargo.packages"));
    assert!(!plan_sources(&context("cargo", "", false), Some(&cargo), false).project);
    let shell = SpecFacts { provider: Some("powershell.modules".into()), path_values: true, options_ended: false, directories_only: true };
    let plan = plan_sources(&context("Import-Module", "-Name", false), Some(&shell), true);
    assert!(plan.paths && plan.directories_only && !plan.project);
}

#[test]
fn merging_sets_paths_apart_orders_them_and_drops_repeats() {
    let base = Completion {
        replace_start: 0,
        replace_end: 1,
        candidates: vec![item("b", CandidateKind::Command), item("dir", CandidateKind::Directory)],
        ..Default::default()
    };
    let plan = SourcePlan { paths: true, directories_only: false, project: true, provider: None };
    let paths = vec![item("b.txt", CandidateKind::File), item("Zeta", CandidateKind::Directory), item("alpha", CandidateKind::Directory)];
    let (merged, set_apart) = merge_sources(base, None, Some((paths, false)), &plan);
    assert!(merged.incomplete);
    assert_eq!(merged.candidates.len(), 1);
    assert_eq!(set_apart.len(), 4);
    let mut ranked = merged;
    ranked.candidates.push(item("b", CandidateKind::Command));
    let descriptions = vec![("b".to_string(), "描述".to_string())];
    let done = finish_merge(ranked, set_apart, "b", 1, &descriptions, 10);
    let labels: Vec<&str> = done.candidates.iter().map(|c| c.label.as_str()).collect();
    assert_eq!(labels, ["b", "alpha", "dir", "Zeta", "b.txt"]);
    assert_eq!(done.candidates[0].description, "描述");
    let limited = finish_merge(Completion::default(), vec![item("x", CandidateKind::File)], "", 0, &Vec::new(), 0);
    assert!(limited.candidates.is_empty());
}
