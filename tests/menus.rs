use rmenu::action::{Action, Outcome, RofiCommand, RofiMenu, RunError};
use rmenu::builder::{BuildError, Builder, SubBuilder};
use rmenu::value::Value;

fn text(s: &str) -> Value {
    Value::Text(s.to_string())
}

fn map(entries: Vec<(&str, Value)>) -> Value {
    Value::Mapping(entries.into_iter().map(|(k, v)| (k.to_string(), v)).collect())
}

fn list(items: Vec<Value>) -> Value {
    Value::Sequence(items)
}

fn command(program: &str, args: &[&str]) -> Value {
    map(vec![
        ("type", text("Command")),
        ("command", text(program)),
        ("args", list(args.iter().map(|a| text(a)).collect())),
    ])
}

fn option(label: &str, action: Value) -> Value {
    map(vec![("string", text(label)), ("action", action)])
}

fn menu(name: &str, prompt: &str, options: Vec<Value>) -> Value {
    map(vec![
        ("type", text("Menu")),
        ("name", text(name)),
        ("prompt", text(prompt)),
        ("options", list(options)),
    ])
}

struct Shortcut;

impl SubBuilder for Shortcut {
    fn build(&self, config: &Value) -> Result<Action, BuildError> {
        match config.get("run").and_then(|v| v.as_str()) {
            Some(p) => Ok(Action::Command(RofiCommand::new(p.to_string(), vec![]))),
            None => Err(BuildError::Malformed("Shortcut has no run".to_string())),
        }
    }
}

fn builder() -> Builder<Shortcut> {
    Builder::new()
}

fn as_menu(a: &Action) -> &RofiMenu {
    match a {
        Action::Menu(m) => m,
        Action::Command(_) => panic!("not a menu"),
    }
}

fn as_command(a: &Action) -> &RofiCommand {
    match a {
        Action::Command(c) => c,
        Action::Menu(_) => panic!("not a command"),
    }
}

fn finished(s: &str) -> Outcome {
    Outcome::Finished(s.to_string())
}

#[test]
fn value_lookup_finds_first_text_key() {
    let v = map(vec![("a", text("1")), ("b", text("2")), ("a", text("3"))]);
    assert_eq!(v.get("a").and_then(|x| x.as_str()), Some("1"));
    assert_eq!(v.get("b").and_then(|x| x.as_str()), Some("2"));
    assert!(v.get("c").is_none());
    assert!(text("x").get("a").is_none());
    assert!(v.is_mapping());
    assert!(!list(vec![]).is_mapping());
    assert_eq!(list(vec![text("x"), Value::Other]).as_sequence().map(|s| s.len()), Some(2));
}

#[test]
fn command_round_trip() {
    let a = builder().build_action(&command("echo", &["hi"])).unwrap();
    let c = as_command(&a);
    assert_eq!(c.command(), "echo");
    assert_eq!(c.args(), &vec!["hi".to_string()]);
    let req = a.request();
    assert_eq!(req.program, "echo");
    assert_eq!(req.args, vec!["hi".to_string()]);
    assert!(req.input.is_none());
    assert!(matches!(a.resume(&finished("")), Ok(None)));
    assert!(matches!(a.resume(&finished("whatever it printed")), Ok(None)));
}

#[test]
fn command_failures() {
    let a = builder().build_action(&command("nope", &[])).unwrap();
    assert!(matches!(a.resume(&Outcome::SpawnFailed), Err(RunError::Spawn)));
    assert!(matches!(a.resume(&Outcome::IoFailed), Err(RunError::Io)));
}

#[test]
fn command_args_drop_non_text() {
    let v = map(vec![
        ("type", text("Command")),
        ("command", text("ls")),
        ("args", list(vec![text("-l"), Value::Other, list(vec![]), text("/tmp")])),
    ]);
    let a = builder().build_action(&v).unwrap();
    assert_eq!(as_command(&a).args(), &vec!["-l".to_string(), "/tmp".to_string()]);
}

fn malformed(r: Result<Action, BuildError>) -> String {
    match r {
        Err(BuildError::Malformed(m)) => m,
        other => panic!("expected a malformed configuration, got {:?}", other),
    }
}

#[test]
fn command_malformed_fields() {
    let b = builder();
    let v = map(vec![("type", text("Command")), ("args", list(vec![]))]);
    assert_eq!(malformed(b.build_action(&v)), "Command has no command");
    let v = map(vec![("type", text("Command")), ("command", list(vec![])), ("args", list(vec![]))]);
    assert_eq!(malformed(b.build_action(&v)), "Command is not a string");
    let v = map(vec![("type", text("Command")), ("command", text("ls"))]);
    assert_eq!(malformed(b.build_action(&v)), "Command has no args");
    let v = map(vec![("type", text("Command")), ("command", text("ls")), ("args", text("-l"))]);
    assert_eq!(malformed(b.build_action(&v)), "Args is not a sequence");
}

#[test]
fn menu_malformed_fields() {
    let b = builder();
    let v = map(vec![("type", text("Menu")), ("prompt", text("p")), ("options", list(vec![]))]);
    assert_eq!(malformed(b.build_action(&v)), "Menu has no name");
    let v = map(vec![("type", text("Menu")), ("name", Value::Other)]);
    assert_eq!(malformed(b.build_action(&v)), "Name is not a string");
    let v = map(vec![("type", text("Menu")), ("name", text("m")), ("options", list(vec![]))]);
    assert_eq!(malformed(b.build_action(&v)), "Menu has no prompt");
    let v = map(vec![("type", text("Menu")), ("name", text("m")), ("prompt", Value::Other)]);
    assert_eq!(malformed(b.build_action(&v)), "Prompt is not a string");
    let v = map(vec![("type", text("Menu")), ("name", text("m")), ("prompt", text("p"))]);
    assert_eq!(malformed(b.build_action(&v)), "Menu has no options");
    let v = map(vec![
        ("type", text("Menu")),
        ("name", text("m")),
        ("prompt", text("p")),
        ("options", text("a")),
    ]);
    assert_eq!(malformed(b.build_action(&v)), "Options is not a sequence");
    let v = menu("m", "p", vec![map(vec![("action", command("true", &[]))])]);
    assert_eq!(malformed(b.build_action(&v)), "Menu option has no string");
    let v = menu("m", "p", vec![map(vec![("string", Value::Other), ("action", command("true", &[]))])]);
    assert_eq!(malformed(b.build_action(&v)), "Menu option string is not a string");
    let v = menu("m", "p", vec![map(vec![("string", text("a"))])]);
    assert_eq!(malformed(b.build_action(&v)), "Menu option has no action");
}

#[test]
fn nested_build_error_propagates() {
    let v = menu("m", "p", vec![option("a", map(vec![("command", text("ls"))]))]);
    assert!(matches!(builder().build_action(&v), Err(BuildError::MissingType)));
}

#[test]
fn missing_and_invalid_type() {
    let b = builder();
    assert!(matches!(b.build_action(&map(vec![])), Err(BuildError::MissingType)));
    assert!(matches!(b.build_action(&text("Menu")), Err(BuildError::MissingType)));
    let v = map(vec![("type", list(vec![]))]);
    assert!(matches!(b.build_action(&v), Err(BuildError::InvalidTypeField)));
}

#[test]
fn unknown_type_carries_tag() {
    let v = map(vec![("type", text("Launcher"))]);
    match builder().build_action(&v) {
        Err(BuildError::UnknownActionType(t)) => assert_eq!(t, "Launcher"),
        other => panic!("unexpected {:?}", other),
    }
}

#[test]
fn registered_constructor_is_used() {
    let mut b = builder();
    b.add_subbuilder("Shortcut".to_string(), Shortcut);
    let v = map(vec![("type", text("Shortcut")), ("run", text("firefox"))]);
    let a = b.build_action(&v).unwrap();
    assert_eq!(as_command(&a).command(), "firefox");
    let v = map(vec![("type", text("Shortcut"))]);
    assert_eq!(malformed(b.build_action(&v)), "Shortcut has no run");
}

#[test]
fn builtin_tags_are_not_overridden() {
    let mut b = builder();
    b.add_subbuilder("Command".to_string(), Shortcut);
    let a = b.build_action(&command("echo", &["x"])).unwrap();
    assert_eq!(as_command(&a).command(), "echo");
}

#[test]
fn non_mapping_options_are_skipped() {
    let v = menu(
        "m",
        "p",
        vec![
            text("stray"),
            option("a", command("true", &[])),
            Value::Other,
            list(vec![]),
            option("b", command("false", &[])),
        ],
    );
    let a = builder().build_action(&v).unwrap();
    let m = as_menu(&a);
    assert_eq!(m.len(), 2);
    assert_eq!(m.optionstring(), "a\nb\n");
}

#[test]
fn duplicate_labels_last_write_wins() {
    let v = menu(
        "m",
        "p",
        vec![
            option("a", command("first", &[])),
            option("b", command("b", &[])),
            option("a", command("second", &[])),
        ],
    );
    let a = builder().build_action(&v).unwrap();
    let m = as_menu(&a);
    assert_eq!(m.len(), 2);
    assert_eq!(m.optionstring(), "b\na\n");
    let picked = m.select("a\n").unwrap().unwrap();
    assert_eq!(as_command(picked).command(), "second");
}

#[test]
fn option_lines_keep_insertion_order() {
    let v = menu(
        "m",
        "p",
        vec![
            option("zeta", command("true", &[])),
            option("alpha", command("true", &[])),
            option("mid", command("true", &[])),
        ],
    );
    let a = builder().build_action(&v).unwrap();
    let m = as_menu(&a);
    let s = m.optionstring();
    assert_eq!(s, "zeta\nalpha\nmid\n");
    assert_eq!(s.matches('\n').count(), 3);
    assert!(!s.contains("\n\n"));
}

#[test]
fn empty_menu_has_no_lines() {
    let m = RofiMenu::new("m".to_string(), "p".to_string());
    assert_eq!(m.optionstring(), "");
    assert_eq!(m.len(), 0);
    assert!(matches!(m.select(""), Ok(None)));
}

#[test]
fn unmapped_selection_is_an_error() {
    let a = builder().build_action(&menu("m", "p", vec![option("a", command("true", &[]))])).unwrap();
    let m = as_menu(&a);
    match m.select("zzz\n") {
        Err(RunError::UnmappedSelection(s)) => assert_eq!(s, "zzz"),
        other => panic!("unexpected {:?}", other),
    }
    match a.resume(&finished("A\n")) {
        Err(RunError::UnmappedSelection(s)) => assert_eq!(s, "A"),
        other => panic!("unexpected {:?}", other),
    }
    assert!(matches!(m.find_option("b"), Err(RunError::UnmappedSelection(_))));
}

#[test]
fn only_trailing_whitespace_is_trimmed() {
    let a = builder().build_action(&menu("m", "p", vec![option("a", command("true", &[]))])).unwrap();
    let m = as_menu(&a);
    assert!(matches!(m.select("a \t\n"), Ok(Some(_))));
    assert!(matches!(m.select(" a\n"), Err(RunError::UnmappedSelection(_))));
}

#[test]
fn empty_picker_output_ends_chain() {
    let a = builder()
        .build_action(&menu("m", "p", vec![option("a", command("true", &[])), option("b", command("false", &[]))]))
        .unwrap();
    assert!(matches!(as_menu(&a).select(""), Ok(None)));
    assert!(matches!(a.resume(&finished("")), Ok(None)));
}

#[test]
fn picker_failures() {
    let a = builder().build_action(&menu("m", "p", vec![option("a", command("true", &[]))])).unwrap();
    assert!(matches!(a.resume(&Outcome::SpawnFailed), Err(RunError::Spawn)));
    assert!(matches!(a.resume(&Outcome::IoFailed), Err(RunError::Io)));
}

#[test]
fn picker_arguments() {
    let mut items = Vec::new();
    for i in 0..12 {
        items.push(option(&format!("o{}", i), command("true", &[])));
    }
    let a = builder().build_action(&menu("main", "Pick one", items)).unwrap();
    let m = as_menu(&a);
    assert_eq!(m.name(), "main");
    assert_eq!(m.prompt(), "Pick one");
    let expected: Vec<String> = ["-p", "Pick one", "-l", "12", "-dmenu", "-i", "-no-custom"]
        .iter()
        .map(|s| s.to_string())
        .collect();
    assert_eq!(m.picker_args(), expected);
    let req = a.request();
    assert_eq!(req.program, "/usr/bin/rofi");
    assert_eq!(req.args, expected);
}

#[test]
fn end_to_end_scenario() {
    let v = menu("m", "p", vec![option("a", command("true", &[])), option("b", command("false", &[]))]);
    let root = builder().build_action(&v).unwrap();
    let req = root.request();
    assert_eq!(req.program, "/usr/bin/rofi");
    assert_eq!(req.input.as_deref(), Some("a\nb\n"));
    let next = root.resume(&finished("b\n")).unwrap().unwrap();
    let req = next.request();
    assert_eq!(req.program, "false");
    assert!(req.args.is_empty());
    assert!(matches!(next.resume(&finished("")), Ok(None)));
}

#[test]
fn nested_menus_launch_picker_twice() {
    let inner = menu("inner", "q", vec![option("x", command("echo", &["deep"]))]);
    let v = menu("outer", "p", vec![option("sub", inner), option("y", command("true", &[]))]);
    let root = builder().build_action(&v).unwrap();
    let mut launches = 0;
    let mut current = &root;
    let outputs = ["sub\n", "x\n", ""];
    let mut step = 0;
    loop {
        let req = current.request();
        if req.program == "/usr/bin/rofi" {
            launches += 1;
        }
        match current.resume(&finished(outputs[step])).unwrap() {
            None => break,
            Some(next) => current = next,
        }
        step += 1;
    }
    assert_eq!(launches, 2);
    assert_eq!(as_command(current).command(), "echo");
    assert_eq!(as_command(current).args(), &vec!["deep".to_string()]);
}

#[test]
fn add_option_replaces_and_moves_to_back() {
    let mut m = RofiMenu::new("m".to_string(), "p".to_string());
    m.add_option("a".to_string(), Action::Command(RofiCommand::new("1".to_string(), vec![])));
    m.add_option("b".to_string(), Action::Command(RofiCommand::new("2".to_string(), vec![])));
    m.add_option("a".to_string(), Action::Command(RofiCommand::new("3".to_string(), vec![])));
    assert_eq!(m.optionstring(), "b\na\n");
    assert_eq!(as_command(m.find_option("a").unwrap()).command(), "3");
    assert_eq!(as_command(m.find_option("b").unwrap()).command(), "2");
}

#[test]
fn first_failing_option_decides_error() {
    let v = menu(
        "m",
        "p",
        vec![
            option("ok", command("true", &[])),
            text("skipped"),
            option("bad", map(vec![("type", text("Launcher"))])),
            map(vec![("action", command("true", &[]))]),
        ],
    );
    match builder().build_action(&v) {
        Err(BuildError::UnknownActionType(t)) => assert_eq!(t, "Launcher"),
        other => panic!("unexpected {:?}", other),
    }
    let v = menu(
        "m",
        "p",
        vec![
            map(vec![("string", text("a"))]),
            option("bad", map(vec![("type", text("Launcher"))])),
        ],
    );
    assert_eq!(malformed(builder().build_action(&v)), "Menu option has no action");
}

#[test]
fn nested_menu_is_built_in_full() {
    let deepest = menu("c", "r", vec![option("z", command("echo", &["z"]))]);
    let inner = menu("b", "q", vec![option("y", deepest), option("w", command("true", &[]))]);
    let v = menu("a", "p", vec![option("x", inner)]);
    let root = builder().build_action(&v).unwrap();
    let inner = as_menu(as_menu(&root).find_option("x").unwrap());
    assert_eq!(inner.name(), "b");
    assert_eq!(inner.prompt(), "q");
    assert_eq!(inner.optionstring(), "y\nw\n");
    let deepest = as_menu(inner.find_option("y").unwrap());
    assert_eq!(deepest.name(), "c");
    let leaf = as_command(deepest.find_option("z").unwrap());
    assert_eq!(leaf.command(), "echo");
    assert_eq!(leaf.args(), &vec!["z".to_string()]);
}

#[test]
fn builtin_menu_tag_is_not_overridden() {
    let mut b = builder();
    b.add_subbuilder("Menu".to_string(), Shortcut);
    let v = menu("m", "p", vec![option("a", command("true", &[]))]);
    let a = b.build_action(&v).unwrap();
    assert_eq!(as_menu(&a).name(), "m");
}
