use shellsense::completion::preserve_suffix;
use shellsense::model::{Candidate, CandidateKind, InputContext};
use shellsense::path_cache::{plan_path_completion, sort_listing, Listing, PathCache, PathPlan, PathResult};

fn context_for(line: &str, prefix: &str, command: &str) -> InputContext {
    let mut start = line.find(prefix).unwrap();
    if start > 0 && matches!(line.as_bytes()[start - 1], b'\'' | b'"') {
        start -= 1;
    }
    InputContext {
        command: command.to_owned(),
        prefix: prefix.to_owned(),
        replace_start: start,
        replace_end: line.len(),
        ..Default::default()
    }
}

fn environment(pairs: &[(&str, &str)]) -> Vec<(String, String)> {
    let mut v: Vec<(String, String)> = pairs.iter().map(|(k, v)| (k.to_string(), v.to_string())).collect();
    v.sort();
    v
}

fn entries(list: &[(&str, bool)]) -> Vec<(String, bool)> {
    list.iter().map(|(n, d)| (n.to_string(), *d)).collect()
}

/// Completes one token with `cwd` as the working directory and `listing`
/// giving the entries of each directory.
fn complete(
    cache: &mut PathCache,
    line: &str,
    context: &InputContext,
    env: &[(String, String)],
    directories_only: bool,
    cwd: &str,
    listing: &dyn Fn(&str) -> Vec<(String, bool)>,
) -> PathResult {
    match plan_path_completion(line, context, &env.to_vec(), directories_only, '/') {
        PathPlan::Done(result) => result,
        PathPlan::Scan(scan) => {
            let directory = if scan.scan_parent.is_empty() {
                cwd.to_owned()
            } else if scan.scan_parent.starts_with('/') {
                scan.scan_parent.clone()
            } else {
                format!("{cwd}/{}", scan.scan_parent)
            };
            let directory = match directory.strip_suffix('/') {
                Some(d) if !d.is_empty() => d.to_owned(),
                _ => directory,
            };
            let needs = cache.begin(&directory, Some((1, 0)));
            let read = if needs { Listing::Read(listing(&directory), false) } else { Listing::Cached };
            cache.complete_listing(&scan, &directory, Some((1, 0)), read, directories_only, '/')
        }
    }
}

fn candidate<'a>(result: &'a PathResult, label: &str) -> &'a Candidate {
    result
        .candidates
        .iter()
        .find(|candidate| candidate.label == label)
        .unwrap_or_else(|| panic!("missing candidate {label}: {:?}", result.candidates))
}

#[test]
fn directories_environment_and_invalidation() {
    let mut cache = PathCache::default();
    let list = |_: &str| entries(&[("file.txt", false), ("中文目录", true)]);
    let result = complete(&mut cache, "", &InputContext::default(), &[], true, "/tmp/t", &list);
    assert_eq!(result.candidates.len(), 1);
    assert_eq!(result.candidates[0].label, "中文目录");
    assert_eq!(result.candidates[0].kind, CandidateKind::Directory);
    assert_eq!(result.candidates[0].id, "path:/tmp/t/中文目录");
    let context = InputContext {
        prefix: "$env:PA".into(),
        replace_end: 7,
        ..Default::default()
    };
    let env = environment(&[("PATH", "secret")]);
    let result = complete(&mut cache, "$env:PA", &context, &env, false, "/tmp/t", &list);
    assert_eq!(result.candidates[0].insert_text, "$env:PATH");
    assert!(!format!("{:?}", result.candidates).contains("secret"));
    cache.invalidate();
    let plan = plan_path_completion("", &InputContext::default(), &Vec::new(), false, '/');
    let PathPlan::Scan(scan) = plan else { panic!("expected a directory scan") };
    assert!(cache.begin("/tmp/t", None));
    let result = cache.complete_listing(&scan, "/tmp/t", None, Listing::Cancelled, false, '/');
    assert!(result.incomplete);
    assert!(result.candidates.is_empty());
}

#[test]
fn environment_paths_keep_expression_and_quote_spaces_with_double_quotes() {
    let env = environment(&[("ROOT", "/tmp/root")]);
    let list = |dir: &str| match dir {
        "/tmp/root/child" => entries(&[("space file.txt", false)]),
        "/tmp/root" => entries(&[("child", true), ("child dir", true)]),
        _ => Vec::new(),
    };
    let mut cache = PathCache::default();
    let prefix = "$env:ROOT/child/spa";
    let line = format!("Get-ChildItem {prefix}");
    let context = context_for(&line, prefix, "Get-ChildItem");
    let result = complete(&mut cache, &line, &context, &env, false, "/tmp/root", &list);
    let file = candidate(&result, "space file.txt");
    assert_eq!(file.insert_text, "\"$env:ROOT/child/space file.txt\"");
    assert!(!file.insert_text.contains("`$env:"));

    let prefix = "$env:ROOT/child";
    let line = format!("Get-ChildItem {prefix}");
    let context = context_for(&line, prefix, "Get-ChildItem");
    let result = complete(&mut cache, &line, &context, &env, false, "/tmp/root", &list);
    let directory = candidate(&result, "child dir");
    assert_eq!(directory.insert_text, "\"$env:ROOT/child dir/");
    assert!(!directory.insert_text.ends_with('"'));
}

#[test]
fn single_quoted_environment_path_is_literal_and_not_expanded() {
    let env = environment(&[("ROOT", "/tmp/root")]);
    let list = |dir: &str| match dir {
        "/tmp/root/child" => entries(&[("space file.txt", false)]),
        _ => Vec::new(),
    };
    let prefix = "$env:ROOT/child/spa";
    let line = format!("Get-ChildItem '{prefix}");
    let context = context_for(&line, prefix, "Get-ChildItem");
    let result = complete(&mut PathCache::default(), &line, &context, &env, false, "/tmp/cwd", &list);
    assert!(result.candidates.is_empty());
}

#[test]
fn braced_environment_names_and_paths_are_valid_power_shell_text() {
    let env = environment(&[("ProgramFiles(x86)", "/tmp/pf")]);
    let list = |dir: &str| match dir {
        "/tmp/pf" => entries(&[("hello.txt", false)]),
        _ => Vec::new(),
    };
    let prefix = "${env:ProgramFiles(x86)}/hel";
    let line = format!("Get-ChildItem {prefix}");
    let context = context_for(&line, prefix, "Get-ChildItem");
    let result = complete(&mut PathCache::default(), &line, &context, &env, false, "/tmp/pf", &list);
    let file = candidate(&result, "hello.txt");
    assert_eq!(file.insert_text, "${env:ProgramFiles(x86)}/hello.txt");
    assert!(!file.insert_text.contains("`$"));

    let prefix = "$env:Program";
    let line = format!("Get-ChildItem {prefix}");
    let context = context_for(&line, prefix, "Get-ChildItem");
    let result = complete(&mut PathCache::default(), &line, &context, &env, false, "/tmp/pf", &list);
    let variable = candidate(&result, "$env:ProgramFiles(x86)");
    assert_eq!(variable.insert_text, "${env:ProgramFiles(x86)}");
}

#[test]
fn tilde_is_kept_for_power_shell_paths_but_expanded_for_native_commands() {
    let env = environment(&[("USERPROFILE", "/tmp/home")]);
    let list = |dir: &str| match dir {
        "/tmp/home" => entries(&[("tilde-dir", true)]),
        _ => Vec::new(),
    };
    let prefix = "~/tilde";
    let line = format!("Get-ChildItem {prefix}");
    let context = context_for(&line, prefix, "Get-ChildItem");
    let result = complete(&mut PathCache::default(), &line, &context, &env, false, "/tmp/cwd", &list);
    assert_eq!(candidate(&result, "tilde-dir").insert_text, "~/tilde-dir/");

    let prefix = "~";
    let line = format!("Get-ChildItem {prefix}");
    let context = context_for(&line, prefix, "Get-ChildItem");
    let result = complete(&mut PathCache::default(), &line, &context, &env, false, "/tmp/cwd", &list);
    assert_eq!(candidate(&result, "tilde-dir").insert_text, "~/tilde-dir/");

    let line = format!("rg {prefix}");
    let context = context_for(&line, prefix, "rg");
    let result = complete(&mut PathCache::default(), &line, &context, &env, false, "/tmp/cwd", &list);
    let native = candidate(&result, "tilde-dir");
    assert!(native.insert_text.starts_with("/tmp/home"));
    assert!(!native.insert_text.starts_with('~'));
}

#[test]
fn files_close_open_quotes_while_directories_stay_open() {
    let list = |_: &str| entries(&[("中文😀 file.txt", false), ("中文😀 folder", true)]);
    for quote in ['\'', '"'] {
        let prefix = "中文😀";
        let line = format!("Get-ChildItem {quote}{prefix}");
        let context = context_for(&line, prefix, "Get-ChildItem");
        let result = complete(&mut PathCache::default(), &line, &context, &[], false, "/tmp/root", &list);
        let file = candidate(&result, "中文😀 file.txt");
        assert_eq!(file.insert_text, format!("{quote}中文😀 file.txt{quote}"));
    }
    let line = "Get-ChildItem \"中文😀";
    let context = context_for(line, "中文😀", "Get-ChildItem");
    let result = complete(&mut PathCache::default(), line, &context, &[], false, "/tmp/root", &list);
    let directory = candidate(&result, "中文😀 folder");
    assert_eq!(directory.insert_text, "\"中文😀 folder/");
}

#[test]
fn environment_path_suffix_does_not_duplicate_existing_quote() {
    let env = environment(&[("ROOT", "/tmp/root")]);
    let list = |dir: &str| match dir {
        "/tmp/root/child" => entries(&[("space file.txt", false)]),
        _ => Vec::new(),
    };
    let prefix = "$env:ROOT/child/spa";
    let line = format!("Get-ChildItem \"{prefix}XYZ\"");
    let cursor = line.find("spa").unwrap() + "spa".len();
    let context = context_for(&line, prefix, "Get-ChildItem");
    let result = complete(&mut PathCache::default(), &line, &context, &env, false, "/tmp/root", &list);
    let mut file = candidate(&result, "space file.txt").clone();
    preserve_suffix(&mut file, &line, cursor, context.replace_start, context.replace_end);
    assert_eq!(file.insert_text, "\"$env:ROOT/child/space file.txtXYZ\"");
}

#[test]
fn listings_put_directories_first_then_names_without_case() {
    let sorted = sort_listing(&entries(&[("b.txt", false), ("Zed", true), ("a.txt", false), ("alpha", true), ("B.md", false)]));
    let names: Vec<&str> = sorted.iter().map(|(n, _)| n.as_str()).collect();
    assert_eq!(names, ["alpha", "Zed", "a.txt", "B.md", "b.txt"]);
}

#[test]
fn a_cached_listing_is_used_until_the_directory_changes() {
    let mut cache = PathCache::new();
    let plan = plan_path_completion("", &InputContext::default(), &Vec::new(), false, '/');
    let PathPlan::Scan(scan) = plan else { panic!("expected a directory scan") };
    assert!(cache.begin("/d", Some((5, 0))));
    let first = cache.complete_listing(&scan, "/d", Some((5, 0)), Listing::Read(entries(&[("one", false)]), false), false, '/');
    assert_eq!(first.candidates.len(), 1);
    assert!(!cache.begin("/d", Some((5, 0))));
    let cached = cache.complete_listing(&scan, "/d", Some((5, 0)), Listing::Cached, false, '/');
    assert_eq!(cached.candidates[0].label, "one");
    assert!(cache.begin("/d", Some((6, 0))));
    let partial = cache.complete_listing(&scan, "/d", Some((6, 0)), Listing::Read(entries(&[("two", false)]), true), false, '/');
    assert!(partial.incomplete);
    assert_eq!(partial.candidates[0].label, "two");
    // A partial listing is not kept: the earlier one is still cached.
    let cached = cache.complete_listing(&scan, "/d", Some((5, 0)), Listing::Cached, false, '/');
    assert_eq!(cached.candidates[0].label, "one");
    let failed = cache.complete_listing(&scan, "/e", None, Listing::Unreadable("PermissionDenied".into()), false, '/');
    assert_eq!(failed.diagnostic.as_deref(), Some("无法读取目录：PermissionDenied"));
    assert!(failed.candidates.is_empty());
}

#[test]
fn the_least_recently_used_listing_is_dropped_when_full() {
    let mut cache = PathCache::new();
    let plan = plan_path_completion("", &InputContext::default(), &Vec::new(), false, '/');
    let PathPlan::Scan(scan) = plan else { panic!("expected a directory scan") };
    for k in 0..64 {
        let dir = format!("/d{k}");
        assert!(cache.begin(&dir, None));
        cache.complete_listing(&scan, &dir, None, Listing::Read(entries(&[("x", false)]), false), false, '/');
    }
    // Use the first directory again, so the second is now the oldest.
    assert!(!cache.begin("/d0", None));
    cache.complete_listing(&scan, "/d0", None, Listing::Cached, false, '/');
    assert!(cache.begin("/new", None));
    cache.complete_listing(&scan, "/new", None, Listing::Read(entries(&[("y", false)]), false), false, '/');
    assert!(!cache.begin("/d0", None));
    assert!(cache.begin("/d1", None));
    assert!(!cache.begin("/d2", None));
    assert!(!cache.begin("/new", None));
}
