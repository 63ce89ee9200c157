use splitmods::{
    emit, entry_file, fold_unit, names_clash_free, plan_layout, resolve_dir, unit_manifest,
    workspace_manifest, Action, Decl, LayoutError,
};

fn other(text: &str) -> Decl {
    Decl::Other { text: text.to_string() }
}

fn module(name: &str, body: Option<Vec<Decl>>) -> Decl {
    Decl::Namespace { name: name.to_string(), decl: format!("mod {} ;", name), body }
}

fn path(segments: &[&str]) -> Vec<String> {
    segments.iter().map(|s| s.to_string()).collect()
}

fn dir(segments: &[&str]) -> Action {
    Action::CreateDir { path: path(segments) }
}

fn write(segments: &[&str], contents: &str) -> Action {
    Action::WriteFile { path: path(segments), contents: contents.to_string() }
}

fn manifest_of(name: &str) -> String {
    format!(
        "[package]\nname = \"{}\"\nversion = \"0.1.0\"\nauthors = [\"James Munns <james@onevariable.com>\"]\n",
        name
    )
}

fn written(actions: &[Action], segments: &[&str]) -> Option<String> {
    let wanted = path(segments);
    actions.iter().find_map(|a| match a {
        Action::WriteFile { path, contents } if *path == wanted => Some(contents.clone()),
        _ => None,
    })
}

#[test]
fn alpha_with_function_and_bodiless_beta() {
    let tree = vec![
        module("alpha", Some(vec![other("fn f ( ) { }")])),
        module("beta", None),
    ];
    let actions = plan_layout(tree).unwrap();
    let expected = vec![
        dir(&[]),
        dir(&["alpha", "src"]),
        write(&["alpha", "src", "lib.rs"], "fn f ( ) { }"),
        dir(&["base", "src"]),
        write(&["base", "src", "lib.rs"], "mod alpha ; mod beta ;"),
        write(&["alpha", "Cargo.toml"], &manifest_of("alpha")),
        write(&["base", "Cargo.toml"], &manifest_of("base")),
        write(&["Cargo.toml"], "[workspace]\nmembers = [\n    \"alpha\",\n    \"base\",\n]\n"),
    ];
    assert_eq!(actions, expected);
}

#[test]
fn empty_tree_gives_only_the_root_unit() {
    let actions = plan_layout(Vec::new()).unwrap();
    let expected = vec![
        dir(&[]),
        dir(&["base", "src"]),
        write(&["base", "src", "lib.rs"], ""),
        write(&["base", "Cargo.toml"], &manifest_of("base")),
        write(&["Cargo.toml"], "[workspace]\nmembers = [\n    \"base\",\n]\n"),
    ];
    assert_eq!(actions, expected);
}

fn nested_tree() -> Vec<Decl> {
    vec![
        other("use std :: fmt ;"),
        module(
            "a",
            Some(vec![
                other("fn in_a ( ) { }"),
                module(
                    "b",
                    Some(vec![module("c", Some(vec![other("struct C ;"), other("fn c ( ) { }")]))]),
                ),
            ]),
        ),
        other("fn main ( ) { }"),
    ]
}

#[test]
fn nested_chain_maps_to_directories() {
    let actions = plan_layout(nested_tree()).unwrap();
    assert_eq!(
        written(&actions, &["a", "src", "b", "c", "mod.rs"]).unwrap(),
        "struct C ; fn c ( ) { }"
    );
    assert_eq!(written(&actions, &["a", "src", "b", "mod.rs"]).unwrap(), "mod c ;");
    assert_eq!(written(&actions, &["a", "src", "lib.rs"]).unwrap(), "fn in_a ( ) { } mod b ;");
    assert!(actions.contains(&dir(&["a", "src", "b", "c"])));
    assert!(actions.contains(&dir(&["a", "src", "b"])));
    // deeper modules are written before the unit that declares them
    let c_at = actions.iter().position(|x| *x == dir(&["a", "src", "b", "c"])).unwrap();
    let b_file = actions
        .iter()
        .position(|x| matches!(x, Action::WriteFile { path, .. } if *path == path_of_b()))
        .unwrap();
    assert!(c_at < b_file);
    // only the top-level module becomes a unit
    assert_eq!(
        written(&actions, &["Cargo.toml"]).unwrap(),
        "[workspace]\nmembers = [\n    \"a\",\n    \"base\",\n]\n"
    );
    assert!(written(&actions, &["b", "Cargo.toml"]).is_none());
}

fn path_of_b() -> Vec<String> {
    path(&["a", "src", "b", "mod.rs"])
}

#[test]
fn declarations_that_are_not_modules_are_kept() {
    let actions = plan_layout(nested_tree()).unwrap();
    let root = written(&actions, &["base", "src", "lib.rs"]).unwrap();
    assert_eq!(root, "use std :: fmt ; mod a ; fn main ( ) { }");
}

#[test]
fn fold_strips_bodies_and_keeps_order() {
    let mut actions = Vec::new();
    let mut units = Vec::new();
    let folded = fold_unit(nested_tree(), &Vec::new(), true, &mut actions, &mut units);
    let expected = vec![other("use std :: fmt ;"), module("a", None), other("fn main ( ) { }")];
    assert_eq!(folded, expected);
    assert_eq!(units, vec!["a".to_string()]);
    assert_eq!(actions.len(), 6);
    assert_eq!(actions[0], dir(&["a", "src"]));
}

#[test]
fn fold_below_the_root_registers_nothing() {
    let mut actions = Vec::new();
    let mut units = Vec::new();
    let here = path(&["x", "src"]);
    let folded =
        fold_unit(vec![module("m", Some(vec![other("fn m ( ) { }")]))], &here, false, &mut actions, &mut units);
    assert_eq!(folded, vec![module("m", None)]);
    assert!(units.is_empty());
    assert_eq!(
        actions,
        vec![dir(&["x", "src", "m"]), write(&["x", "src", "m", "mod.rs"], "fn m ( ) { }")]
    );
}

#[test]
fn bodiless_module_is_passed_through() {
    let tree = vec![module("ext", None), other("fn g ( ) { }")];
    let actions = plan_layout(tree).unwrap();
    assert!(!actions.iter().any(|a| match a {
        Action::CreateDir { path } | Action::WriteFile { path, .. } => path.first().map(|s| s.as_str()) == Some("ext"),
    }));
    assert_eq!(written(&actions, &["base", "src", "lib.rs"]).unwrap(), "mod ext ; fn g ( ) { }");
}

#[test]
fn workspace_lists_every_top_level_unit_once() {
    let tree = vec![
        module("one", Some(vec![module("inner", Some(vec![]))])),
        module("ext", None),
        module("two", Some(vec![])),
    ];
    let actions = plan_layout(tree).unwrap();
    assert_eq!(
        written(&actions, &["Cargo.toml"]).unwrap(),
        "[workspace]\nmembers = [\n    \"one\",\n    \"two\",\n    \"base\",\n]\n"
    );
    for unit in ["one", "two", "base"] {
        assert_eq!(written(&actions, &[unit, "Cargo.toml"]).unwrap(), manifest_of(unit));
    }
    assert!(written(&actions, &["ext", "Cargo.toml"]).is_none());
    assert!(written(&actions, &["inner", "Cargo.toml"]).is_none());
}

#[test]
fn planning_twice_gives_the_same_actions() {
    let first = plan_layout(nested_tree()).unwrap();
    let second = plan_layout(nested_tree()).unwrap();
    assert_eq!(first, second);
}

#[test]
fn sibling_modules_with_one_name_clash() {
    let tree = vec![module("a", Some(vec![])), module("a", Some(vec![other("fn f ( ) { }")]))];
    assert_eq!(plan_layout(tree), Err(LayoutError::NameClash));
}

#[test]
fn nested_siblings_with_one_name_clash() {
    let tree = vec![module(
        "a",
        Some(vec![module("b", Some(vec![])), other("fn f ( ) { }"), module("b", Some(vec![]))]),
    )];
    assert_eq!(plan_layout(tree), Err(LayoutError::NameClash));
}

#[test]
fn top_level_module_named_base_clashes() {
    let tree = vec![module("base", Some(vec![]))];
    assert_eq!(plan_layout(tree), Err(LayoutError::NameClash));
}

#[test]
fn nested_module_named_base_is_fine() {
    let tree = vec![module("a", Some(vec![module("base", Some(vec![]))]))];
    assert!(plan_layout(tree).is_ok());
}

#[test]
fn bodiless_module_may_share_a_name_with_an_inline_one() {
    let tree = vec![module("a", None), module("a", Some(vec![]))];
    assert!(names_clash_free(&tree, true));
}

#[test]
fn emit_joins_with_single_spaces() {
    let tree = vec![other("a"), other(""), module("m", None), other("b c")];
    assert_eq!(emit(&tree), "a mod m ; b c");
    assert_eq!(emit(&Vec::new()), "");
    assert_eq!(emit(&vec![other(""), other("x")]), "x");
}

#[test]
fn resolve_dir_adds_src_only_at_the_top() {
    assert_eq!(resolve_dir(&Vec::new(), &"a".to_string(), true), path(&["a", "src"]));
    assert_eq!(resolve_dir(&path(&["a", "src"]), &"b".to_string(), false), path(&["a", "src", "b"]));
    assert_eq!(entry_file(true), "lib.rs");
    assert_eq!(entry_file(false), "mod.rs");
}

#[test]
fn manifests_have_exact_text() {
    assert_eq!(unit_manifest(&"alpha".to_string()), manifest_of("alpha"));
    assert_eq!(
        workspace_manifest(&vec!["x".to_string(), "y".to_string()]),
        "[workspace]\nmembers = [\n    \"x\",\n    \"y\",\n]\n"
    );
    assert_eq!(workspace_manifest(&Vec::new()), "[workspace]\nmembers = [\n]\n");
}
