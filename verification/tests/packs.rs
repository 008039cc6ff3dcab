use shellsense::forms::TemplateParameter;
use shellsense::packs::{
    check_approval, confirm_digest, load_checked, pack_digest, pack_status, review_text, to_hex, ApprovedPack,
    LoadedPack, PackError, PackFile, PackMeta, PackOperation,
};

fn strings(v: Option<&toml::Value>) -> Vec<String> {
    v.and_then(|v| v.as_array())
        .map(|a| a.iter().map(|s| s.as_str().unwrap().to_owned()).collect())
        .unwrap_or_default()
}

fn text(v: &toml::Value, key: &str, default: &str) -> String {
    v.get(key).and_then(|s| s.as_str()).unwrap_or(default).to_owned()
}

/// Reads a pack file the way the configuration loader does.
fn parse(source: &str) -> PackFile {
    let v: toml::Value = toml::from_str(source).unwrap();
    let pack = &v["pack"];
    let operations = v
        .get("operations")
        .and_then(|o| o.as_array())
        .map(|ops| {
            ops.iter()
                .map(|op| PackOperation {
                    id: text(op, "id", ""),
                    name: text(op, "name", ""),
                    description: text(op, "description", ""),
                    tags: strings(op.get("tags")),
                    tokens: strings(op.get("tokens")),
                    parameters: op
                        .get("parameters")
                        .and_then(|p| p.as_array())
                        .map(|ps| {
                            ps.iter()
                                .map(|p| TemplateParameter {
                                    name: text(p, "name", ""),
                                    label: text(p, "label", ""),
                                    kind: text(p, "kind", "text"),
                                    required: p.get("required").and_then(|r| r.as_bool()).unwrap_or(false),
                                    default: text(p, "default", ""),
                                    values: strings(p.get("values")),
                                    source: text(p, "source", ""),
                                })
                                .collect()
                        })
                        .unwrap_or_default(),
                })
                .collect()
        })
        .unwrap_or_default();
    PackFile {
        schema_version: v["schema_version"].as_integer().unwrap() as u32,
        pack: PackMeta { id: text(pack, "id", ""), name: text(pack, "name", ""), version: text(pack, "version", "") },
        operations,
    }
}

const PACK: &str = "schema_version = 1\n[pack]\nid = 'team'\nname = 'Team'\nversion = '1'\n[[operations]]\nid = 'test'\nname = 'Test'\ntokens = ['cargo', 'test', '{package}']\n[[operations.parameters]]\nname = 'package'\nrequired = true\n";

#[test]
fn approval_is_bound_to_exact_repository_contents() {
    let pack = load_checked("/repo".into(), PACK.as_bytes(), parse(PACK)).unwrap();
    let (templates, status) = pack_status(&pack, None);
    assert!(templates.is_empty());
    assert!(status.is_some());
    let approved = pack.digest.clone();
    let (templates, status) = pack_status(&pack, Some(&approved));
    assert_eq!(templates.len(), 1);
    assert_eq!(templates[0].id, "team:test");
    assert!(status.is_none());
    assert!(check_approval(&templates, &status).is_ok());
    let changed_text = PACK.replace("version = '1'", "version = '2'");
    let changed = load_checked("/repo".into(), changed_text.as_bytes(), parse(&changed_text)).unwrap();
    let (templates, status) = pack_status(&changed, Some(&approved));
    assert!(templates.is_empty());
    assert_eq!(status.as_deref(), Some("发现项目命令包 Team v2；运行 blueberry packs review 审查"));
    assert!(check_approval(&templates, &status).is_err());
    assert_eq!(check_approval(&Vec::new(), &None), Err("当前仓库没有已批准的项目操作".to_owned()));
    assert!(confirm_digest(&approved, &pack).is_ok());
    assert!(confirm_digest(&approved, &changed).is_err());
}

#[test]
fn scripts_and_shell_operators_are_rejected() {
    let prefix = "schema_version = 1\n[pack]\nid = 'team'\nname = 'Team'\nversion = '1'\n[[operations]]\nid = 'test'\nname = 'Test'\n";
    let source = format!("{prefix}tokens = ['cargo', ';', 'test']\n");
    let error = parse(&source).validate().unwrap_err();
    assert!(matches!(error, PackError::Token(ref id) if id == "test"));
    assert_eq!(error.message(), "操作 test 含有不允许的命令 token");
    for token in ["a b", "$x", "a|b", "", "{", "x`"] {
        let mut file = parse(&format!("{prefix}tokens = ['cargo']\n"));
        file.operations[0].tokens.push(token.into());
        assert!(matches!(file.validate(), Err(PackError::Token(_))), "{token:?}");
    }
}

#[test]
fn each_fault_is_reported_with_its_message() {
    let mut file = parse(PACK);
    file.schema_version = 2;
    assert_eq!(file.validate().unwrap_err().message(), "项目命令包 schema_version 必须为 1");
    let mut file = parse(PACK);
    file.pack.version = "  ".into();
    assert!(matches!(file.validate(), Err(PackError::Meta)));
    let mut file = parse(PACK);
    let copy = parse(PACK).operations.remove(0);
    file.operations.push(copy);
    assert!(matches!(file.validate(), Err(PackError::Operation)));
    let mut file = parse(PACK);
    file.operations[0].tokens.push("{missing}".into());
    assert_eq!(file.validate().unwrap_err().message(), "操作 test 的字段 missing 未定义");
    let mut file = parse(PACK);
    let p = parse(PACK).operations.remove(0).parameters.remove(0);
    file.operations[0].parameters.push(p);
    assert_eq!(file.validate().unwrap_err().message(), "操作 test 的参数名称重复");
    let mut file = parse(PACK);
    file.operations[0].parameters[0].source = "npm.scripts".into();
    assert_eq!(file.validate().unwrap_err().message(), "操作 test 的参数 package 使用了不支持的数据源");
    let mut file = parse(PACK);
    file.operations[0].parameters[0].kind = "enum".into();
    file.operations[0].parameters[0].values = vec!["a".into()];
    file.operations[0].parameters[0].default = "b".into();
    assert_eq!(file.validate().unwrap_err().message(), "操作 test 的参数 package 默认值不在枚举值中");
    let mut file = parse(PACK);
    file.operations[0].parameters[0].kind = "color".into();
    assert!(matches!(file.validate(), Err(PackError::Form(_))));
    assert!(parse(PACK).validate().is_ok());
}

#[test]
fn digests_are_lower_case_sha256() {
    assert_eq!(pack_digest(b""), "e3b0c44298fc1c149afbf4c8996fb92427ae41e4649b934ca495991b7852b855");
    assert_eq!(pack_digest(b"abc"), "ba7816bf8f01cfea414140de5dae2223b00361a396177a9cb410ff61f20015ad");
    assert_eq!(to_hex(&[0, 15, 16, 255]), "000f10ff");
}

#[test]
fn reviews_mark_new_changed_unchanged_and_removed_operations() {
    let pack = load_checked("/repo".into(), PACK.as_bytes(), parse(PACK)).unwrap();
    let first = review_text("/repo/.blueberry/commands.toml", &pack, None);
    assert_eq!(
        first,
        format!(
            "来源：/repo/.blueberry/commands.toml\n项目命令包：Team (team) v1\nSHA-256：{}\n状态：待批准\n+ Test：cargo test {{package}}\n",
            pack.digest
        )
    );
    let mut old = parse(PACK);
    old.operations.push(PackOperation {
        id: "b-gone".into(),
        name: "Gone".into(),
        description: String::new(),
        tags: Vec::new(),
        tokens: vec!["rm".into()],
        parameters: Vec::new(),
    });
    old.operations.push(PackOperation {
        id: "a-gone".into(),
        name: "Also".into(),
        description: String::new(),
        tags: Vec::new(),
        tokens: vec!["ls".into()],
        parameters: Vec::new(),
    });
    let approval = ApprovedPack { digest: pack.digest.clone(), file: old };
    let second = review_text("p", &pack, Some(&approval));
    assert!(second.contains("状态：已批准\n  Test：cargo test {package}\n- Also：ls\n- Gone：rm\n"), "{second}");
    let mut changed = parse(PACK);
    changed.operations[0].name = "Renamed".into();
    let changed_pack = LoadedPack { root: "/repo".into(), digest: "x".into(), file: changed };
    let approval = ApprovedPack { digest: pack.digest.clone(), file: parse(PACK) };
    let third = review_text("p", &changed_pack, Some(&approval));
    assert!(third.ends_with("状态：待批准\n~ Renamed：cargo test {package}\n"), "{third}");
}
