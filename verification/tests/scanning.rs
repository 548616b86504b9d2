use tauri_helper::path::PathComponent;
use tauri_helper::scan::{
    collect_commands_from_source, collect_commands_from_sources, collect_path_module_files,
    dedup_and_sort_source_files, is_specta_attr, is_tauri_command_attr, item_commands_of,
    item_module_files_of, module_path_for_source, path_module_files, qualify, rs_source_file,
    SourceFile,
};
use tauri_helper::rust_source::{ModuleAttribute, RustAttribute, RustItem};

fn comps(parts: &[&str]) -> Vec<PathComponent> {
    parts
        .iter()
        .map(|p| match *p {
            "/" => PathComponent::Root,
            "." => PathComponent::Current,
            ".." => PathComponent::Parent,
            n => PathComponent::Normal(n.to_string()),
        })
        .collect()
}

fn names(p: &[PathComponent]) -> Vec<String> {
    p.iter()
        .map(|c| match c {
            PathComponent::Root => "/".to_string(),
            PathComponent::Current => ".".to_string(),
            PathComponent::Parent => "..".to_string(),
            PathComponent::Normal(n) => n.clone(),
        })
        .collect()
}

fn file(parts: &[&str], module: &str) -> SourceFile {
    SourceFile { path: comps(parts), module: module.to_string() }
}

#[test]
fn module_path_of_crate_roots_is_empty() {
    let dir = comps(&["/", "ws", "src"]);
    assert_eq!(module_path_for_source(&dir, &comps(&["/", "ws", "src", "lib.rs"])), Some(String::new()));
    assert_eq!(module_path_for_source(&dir, &comps(&["/", "ws", "src", "main.rs"])), Some(String::new()));
}

#[test]
fn module_path_of_nested_files() {
    let dir = comps(&["/", "ws", "src"]);
    assert_eq!(
        module_path_for_source(&dir, &comps(&["/", "ws", "src", "commands.rs"])),
        Some("commands".to_string())
    );
    assert_eq!(
        module_path_for_source(&dir, &comps(&["/", "ws", "src", "api", "users.rs"])),
        Some("api::users".to_string())
    );
    assert_eq!(
        module_path_for_source(&dir, &comps(&["/", "ws", "src", "api", "mod.rs"])),
        Some("api".to_string())
    );
    assert_eq!(
        module_path_for_source(&dir, &comps(&["/", "ws", "src", "api", "lib.rs"])),
        Some("api::lib".to_string())
    );
}

#[test]
fn module_path_refuses_foreign_and_non_rust_files() {
    let dir = comps(&["/", "ws", "src"]);
    assert_eq!(module_path_for_source(&dir, &comps(&["/", "ws", "tests", "a.rs"])), None);
    assert_eq!(module_path_for_source(&dir, &comps(&["/", "ws", "src", "notes.txt"])), None);
    assert_eq!(module_path_for_source(&dir, &comps(&["/", "ws", "src"])), None);
}

#[test]
fn rs_source_file_requires_rs_extension() {
    let dir = comps(&["src"]);
    let f = rs_source_file(&dir, &comps(&["src", "a", "b.rs"])).unwrap();
    assert_eq!(names(&f.path), vec!["src", "a", "b.rs"]);
    assert_eq!(f.module, "a::b");
    assert!(rs_source_file(&dir, &comps(&["src", ".rs"])).is_none());
    assert!(rs_source_file(&dir, &comps(&["src", "b.rs.bak"])).is_none());
}

#[test]
fn qualify_prefixes_the_module() {
    assert_eq!(qualify(&String::new(), &"greet".to_string()), "greet");
    assert_eq!(qualify(&"api::users".to_string(), &"greet".to_string()), "api::users::greet");
}

#[test]
fn attribute_predicates() {
    let a = RustAttribute { global: false, path: vec!["tauri".into(), "command".into()] };
    let b = RustAttribute { global: true, path: vec!["specta".into(), "specta".into()] };
    let c = RustAttribute { global: false, path: vec!["command".into()] };
    assert!(is_tauri_command_attr(&a));
    assert!(!is_specta_attr(&a));
    assert!(is_specta_attr(&b));
    assert!(!is_tauri_command_attr(&c));
}

const SOURCE: &str = r#"
use serde::Serialize;

#[tauri::command]
fn greet(name: String) -> String { format!("Hello, {}!", name) }

#[tauri::command]
#[specta::specta]
pub async fn calculate_sum(a: i32, b: i32) -> i32 { a + b }

#[command]
fn not_collected() {}

fn helper() {}

mod inner {
    #[tauri::command]
    fn nested_is_not_top_level() {}
}
"#;

#[test]
fn commands_are_collected_with_their_module_path() {
    let f = file(&["src", "api.rs"], "api");
    let cmds = collect_commands_from_source(&f, &Some(SOURCE.to_string()));
    let got: Vec<(String, bool)> = cmds.iter().map(|c| (c.path.clone(), c.specta)).collect();
    assert_eq!(
        got,
        vec![("api::greet".to_string(), false), ("api::calculate_sum".to_string(), true)]
    );
}

#[test]
fn commands_at_the_crate_root_are_unqualified() {
    let f = file(&["src", "lib.rs"], "");
    let cmds = collect_commands_from_source(&f, &Some(SOURCE.to_string()));
    assert_eq!(cmds[0].path, "greet");
}

#[test]
fn no_commands_without_marker_text_or_valid_syntax() {
    let f = file(&["src", "lib.rs"], "");
    assert!(collect_commands_from_source(&f, &None).is_empty());
    assert!(collect_commands_from_source(&f, &Some("fn a() {}".to_string())).is_empty());
    let broken = "#[tauri::command] fn broken( {".to_string();
    assert!(collect_commands_from_source(&f, &Some(broken)).is_empty());
}

#[test]
fn global_path_commands_are_collected() {
    let f = file(&["src", "lib.rs"], "");
    let text = "#[::tauri::command] fn a() {} // tauri::command".to_string();
    let cmds = collect_commands_from_source(&f, &Some(text));
    assert_eq!(cmds.len(), 1);
    assert_eq!(cmds[0].path, "a");
}

#[test]
fn path_attribute_modules_are_found() {
    let f = file(&["src", "lib.rs"], "");
    let text = r#"
        #[path = "platform/linux.rs"]
        mod os;
        #[path("other.rs")]
        mod other;
        #[path = "data.json"]
        mod data;
        mod plain;
        #[path = "inline.rs"]
        mod inline_mod { }
    "#
    .to_string();
    let found = path_module_files(&f, &Some(text));
    let got: Vec<(Vec<String>, String)> = found.iter().map(|s| (names(&s.path), s.module.clone())).collect();
    assert_eq!(
        got,
        vec![
            (vec!["src".to_string(), "platform".to_string(), "linux.rs".to_string()], "os".to_string()),
            (vec!["src".to_string(), "other.rs".to_string()], "other".to_string()),
        ]
    );
}

#[test]
fn path_attribute_modules_nest_in_the_declaring_module() {
    let f = file(&["src", "api", "mod.rs"], "api");
    let text = r#"#[path = "./impls/x.rs"] mod x; #[path = "/abs/y.rs"] mod y;"#.to_string();
    let found = path_module_files(&f, &Some(text));
    assert_eq!(names(&found[0].path), vec!["src", "api", "impls", "x.rs"]);
    assert_eq!(found[0].module, "api::x");
    assert_eq!(names(&found[1].path), vec!["/", "abs", "y.rs"]);
    assert_eq!(found[1].module, "api::y");
}

#[test]
fn collect_path_module_files_appends_in_order() {
    let mut files = vec![file(&["src", "lib.rs"], ""), file(&["src", "a.rs"], "a")];
    let contents = vec![Some(r#"#[path = "b.rs"] mod b;"#.to_string()), None];
    collect_path_module_files(&mut files, &contents);
    assert_eq!(files.len(), 3);
    assert_eq!(names(&files[2].path), vec!["src", "b.rs"]);
    assert_eq!(files[2].module, "b");
}

#[test]
fn source_files_are_deduplicated_and_sorted() {
    let files = vec![
        file(&["src", "z.rs"], "z"),
        file(&["src", "a.rs"], "a"),
        file(&["src", "z.rs"], "other"),
        file(&["src", "a", "b.rs"], "a::b"),
    ];
    let out = dedup_and_sort_source_files(&files);
    let got: Vec<(Vec<String>, String)> = out.iter().map(|s| (names(&s.path), s.module.clone())).collect();
    assert_eq!(
        got,
        vec![
            (vec!["src".to_string(), "a".to_string(), "b.rs".to_string()], "a::b".to_string()),
            (vec!["src".to_string(), "a.rs".to_string()], "a".to_string()),
            (vec!["src".to_string(), "z.rs".to_string()], "z".to_string()),
        ]
    );
}

#[test]
fn commands_from_several_sources_concatenate() {
    let files = vec![file(&["src", "lib.rs"], ""), file(&["src", "b.rs"], "b")];
    let contents = vec![
        Some("#[tauri::command] fn one() {}".to_string()),
        Some("#[tauri::command] #[specta::specta] fn two() {}".to_string()),
    ];
    let cmds = collect_commands_from_sources(&files, &contents);
    let got: Vec<(String, bool)> = cmds.iter().map(|c| (c.path.clone(), c.specta)).collect();
    assert_eq!(got, vec![("one".to_string(), false), ("b::two".to_string(), true)]);
}

#[test]
fn cfg_gated_commands_are_collected() {
    let f = file(&["src", "lib.rs"], "");
    let text = r#"
        #[cfg(target_os = "windows")]
        #[tauri::command]
        fn windows_only() {}
    "#
    .to_string();
    let cmds = collect_commands_from_source(&f, &Some(text));
    assert_eq!(cmds.len(), 1);
    assert_eq!(cmds[0].path, "windows_only");
}

#[test]
fn a_file_reached_twice_is_scanned_once() {
    let mut files = vec![file(&["src", "lib.rs"], ""), file(&["src", "b.rs"], "b")];
    let contents = vec![Some(r#"#[path = "b.rs"] mod renamed;"#.to_string()), None];
    collect_path_module_files(&mut files, &contents);
    assert_eq!(files.len(), 3);
    let out = dedup_and_sort_source_files(&files);
    assert_eq!(out.len(), 2);
    assert_eq!(names(&out[0].path), vec!["src", "b.rs"]);
    assert_eq!(out[0].module, "b");
    assert_eq!(names(&out[1].path), vec!["src", "lib.rs"]);
}

fn at(path: &str) -> RustAttribute {
    let global = path.starts_with("::");
    RustAttribute {
        global,
        path: path.trim_start_matches("::").split("::").map(|s| s.to_string()).collect(),
    }
}

fn module_attr(ident: Option<&str>, string_argument: Option<&str>) -> ModuleAttribute {
    ModuleAttribute {
        ident: ident.map(|s| s.to_string()),
        string_argument: string_argument.map(|s| s.to_string()),
    }
}

fn function(name: &str, attributes: Vec<RustAttribute>) -> RustItem {
    RustItem::Function { name: name.to_string(), attributes }
}

fn module(name: &str, inline: bool, attributes: Vec<ModuleAttribute>) -> RustItem {
    RustItem::Module { name: name.to_string(), inline, attributes }
}

#[test]
fn parsed_items_give_their_commands_in_order() {
    let items = vec![
        function("greet", vec![at("tauri::command")]),
        RustItem::Other,
        function("helper", vec![at("inline")]),
        function("sum", vec![at("specta::specta"), at("tauri::command")]),
        function("plain", vec![]),
        function("rooted", vec![at("::tauri::command")]),
        module("inner", true, vec![module_attr(None, None)]),
        function("not_specta", vec![at("tauri::command"), at("specta")]),
    ];
    let found = item_commands_of(&"api::v1".to_string(), &items);
    let got: Vec<(String, bool)> = found.iter().map(|c| (c.path.clone(), c.specta)).collect();
    assert_eq!(
        got,
        vec![
            ("api::v1::greet".to_string(), false),
            ("api::v1::sum".to_string(), true),
            ("api::v1::rooted".to_string(), false),
            ("api::v1::not_specta".to_string(), false),
        ]
    );
    let at_root = item_commands_of(&String::new(), &vec![function("a", vec![at("tauri::command")])]);
    assert_eq!(at_root[0].path, "a");
    assert!(item_commands_of(&"m".to_string(), &Vec::new()).is_empty());
}

#[test]
fn parsed_module_declarations_give_their_path_files() {
    let f = file(&["src", "api", "mod.rs"], "api");
    let items = vec![
        module("os", false, vec![module_attr(Some("path"), Some("platform/linux.rs"))]),
        module("inline_mod", true, vec![module_attr(Some("path"), Some("inline.rs"))]),
        function("f", vec![at("path")]),
        module("plain", false, vec![]),
        module("data", false, vec![module_attr(Some("path"), Some("data.json"))]),
        module("rooted", false, vec![module_attr(None, Some("r.rs"))]),
        module("no_literal", false, vec![module_attr(Some("path"), None)]),
        module("doc", false, vec![module_attr(Some("doc"), Some("x.rs"))]),
        module("other", false, vec![module_attr(Some("path"), Some("other.rs")), module_attr(Some("cfg"), None)]),
    ];
    let found = item_module_files_of(&f, &items);
    let got: Vec<(Vec<String>, String)> = found.iter().map(|s| (names(&s.path), s.module.clone())).collect();
    assert_eq!(
        got,
        vec![
            (
                vec!["src".to_string(), "api".to_string(), "platform".to_string(), "linux.rs".to_string()],
                "api::os".to_string()
            ),
            (vec!["src".to_string(), "api".to_string(), "other.rs".to_string()], "api::other".to_string()),
        ]
    );
}

#[test]
fn only_plain_path_attributes_with_a_literal_count() {
    let f = file(&["src", "lib.rs"], "");
    let text = r#"
        #[::path = "rooted.rs"]
        mod rooted;
        #[path = concat!("a", ".rs")]
        mod computed;
        #[path("a.rs", "b.rs")]
        mod two;
        #[path("spaced.rs")]
        #[cfg(unix)]
        mod spaced;
    "#
    .to_string();
    let found = path_module_files(&f, &Some(text));
    let got: Vec<(Vec<String>, String)> = found.iter().map(|s| (names(&s.path), s.module.clone())).collect();
    assert_eq!(got, vec![(vec!["src".to_string(), "spaced.rs".to_string()], "spaced".to_string())]);
}
