use shellsense::form::{form_completion, guided_template, FormError, TemplateForm};
use shellsense::forms::{
    fill_placeholders, placeholder_names, quote_powershell_token, CommandTemplate, TemplateParameter,
};

#[test]
fn structured_form_applies_defaults_optional_fields_and_enum_rules() {
    let template = CommandTemplate {
        tokens: vec![
            "cargo".into(),
            "test".into(),
            "-p".into(),
            "{package}".into(),
            "{mode}".into(),
            "{optional}".into(),
        ],
        parameters: vec![
            TemplateParameter {
                name: "package".into(),
                label: "包".into(),
                required: true,
                ..Default::default()
            },
            TemplateParameter {
                name: "mode".into(),
                kind: "enum".into(),
                default: "fast".into(),
                values: vec!["fast".into(), "slow".into()],
                ..Default::default()
            },
            TemplateParameter {
                name: "optional".into(),
                ..Default::default()
            },
        ],
        ..Default::default()
    };
    let mut form = TemplateForm::new(template).unwrap();
    assert!(form.submit("").is_err());
    assert!(!form.submit("my package").unwrap());
    assert!(form.submit("invalid").is_err());
    assert!(!form.submit("").unwrap());
    assert!(form.submit("").unwrap());
    assert_eq!(form.finish().unwrap(), "cargo test -p 'my package' fast");
}

#[test]
fn legacy_command_form_keeps_placeholder_behavior() {
    let mut form = TemplateForm::new(CommandTemplate {
        command: "git switch -c <BRANCH>".into(),
        ..Default::default()
    })
    .unwrap();
    assert!(!form.is_empty());
    assert!(form.submit("feature's work").unwrap());
    assert_eq!(form.finish().unwrap(), "git switch -c 'feature''s work'");
}

#[test]
fn guided_form_preserves_existing_text_and_suffix() {
    let line = "cargo test -p --release";
    let cursor = "cargo test -p".len();
    let template = guided_template(line, cursor).expect("guided package form");
    let mut form = TemplateForm::new(template).unwrap();
    assert!(form.submit("my crate").unwrap());
    assert_eq!(form.finish().unwrap(), "cargo test -p 'my crate' --release");
    assert!(guided_template("cargo test -p | rm", cursor).is_none());
    assert!(guided_template("cargo test -pX", cursor).is_none());
}

#[test]
fn guided_template_builds_one_required_placeholder() {
    let template = guided_template("git switch -c ", 14).unwrap();
    assert_eq!(template.id, "guided:git-branch");
    assert_eq!(template.command, "git switch -c {BRANCH}");
    assert_eq!(template.parameters.len(), 1);
    assert_eq!(template.parameters[0].name, "BRANCH");
    assert_eq!(template.parameters[0].label, "新分支名称");
    assert_eq!(template.parameters[0].kind, "text");
    assert!(template.parameters[0].required);
    let compose = guided_template("docker compose logs -f", 22).unwrap();
    assert_eq!(compose.command, "docker compose logs -f {SERVICE}");
    assert_eq!(compose.parameters[0].source, "docker.compose.service");
    // Not a character boundary, beyond the line, or an unknown command.
    assert!(guided_template("git switch -c é", 16).is_none());
    assert!(guided_template("git switch -c", 40).is_none());
    assert!(guided_template("git status", 10).is_none());
}

#[test]
fn quoting_keeps_safe_tokens_bare() {
    assert_eq!(quote_powershell_token("src/main.rs"), "src/main.rs");
    assert_eq!(quote_powershell_token(""), "''");
    assert_eq!(quote_powershell_token("a b"), "'a b'");
    assert_eq!(quote_powershell_token("it's"), "'it''s'");
}

#[test]
fn placeholders_are_listed_once_in_order() {
    assert_eq!(
        placeholder_names("copy {from} <to> {from} {bad name} <>"),
        vec!["from".to_string(), "to".to_string()]
    );
    let values = vec![("to".to_string(), "b c".to_string()), ("from".to_string(), "a".to_string())];
    assert_eq!(fill_placeholders("copy {from} <to>", &values), "copy a 'b c'");
}

#[test]
fn form_errors_name_the_field() {
    let missing = TemplateForm::new(CommandTemplate {
        tokens: vec!["run".into(), "{target}".into()],
        ..Default::default()
    });
    match missing {
        Err(FormError::Undefined(name)) => assert_eq!(name, "target"),
        other => panic!("unexpected {:?}", other),
    }
    let unknown = TemplateForm::new(CommandTemplate {
        tokens: vec!["{x}".into()],
        parameters: vec![TemplateParameter {
            name: "x".into(),
            kind: "color".into(),
            ..Default::default()
        }],
        ..Default::default()
    });
    match unknown {
        Err(e) => assert_eq!(e.message(), "参数 x 使用未知类型 color"),
        Ok(_) => panic!("unknown kind accepted"),
    }
    let split = CommandTemplate {
        tokens: vec!["a{b".into()],
        ..Default::default()
    };
    assert!(matches!(split.render(&Vec::new()), Err(FormError::SplitPlaceholder)));
}

#[test]
fn finish_before_the_last_field_is_refused() {
    let mut form = TemplateForm::new(CommandTemplate {
        command: "echo {a} {b}".into(),
        ..Default::default()
    })
    .unwrap();
    assert_eq!(form.position(), (1, 2));
    assert!(matches!(form.finish(), Err(FormError::Unfinished)));
    assert!(!form.submit("x").unwrap());
    assert_eq!(form.preview(), "echo x {b}");
    assert!(form.submit("y").unwrap());
    assert!(matches!(form.submit("z"), Err(FormError::Ended)));
    assert_eq!(form.finish().unwrap(), "echo x y");
}

#[test]
fn form_frame_shows_progress_and_hints() {
    let mut form = TemplateForm::new(CommandTemplate {
        tokens: vec!["deploy".into(), "{env}".into()],
        parameters: vec![TemplateParameter {
            name: "env".into(),
            label: "环境".into(),
            kind: "enum".into(),
            values: vec!["a".into(), "b".into(), "c".into(), "d".into(), "e".into(), "f".into()],
            ..Default::default()
        }],
        ..Default::default()
    })
    .unwrap();
    let frame = form_completion(&form, "", 7);
    assert_eq!(frame.replace_end, 7);
    assert_eq!(frame.argument_hint, "参数 1/1 · 环境 · Enter 下一项 · Esc 取消");
    assert_eq!(frame.candidates.len(), 1);
    assert_eq!(frame.candidates[0].label, "填写参数：环境");
    assert_eq!(frame.candidates[0].description, "↑↓ 选值：a、b、c、d、e");
    assert_eq!(frame.candidates[0].insert_text, "deploy {env}");
    assert_eq!(frame.candidates[0].id, "hub-form:环境");
    form.set_values("env", Vec::new());
    let frame = form_completion(&form, "x", 7);
    assert_eq!(frame.candidates[0].description, "当前值：x");
    assert!(form.submit("").unwrap());
    let done = form_completion(&form, "", 7);
    assert!(done.candidates.is_empty());
}
