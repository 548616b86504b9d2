use tauri_helper::logging::{
    from_impl_for_variant, is_string_type, FieldType, FromImplKind, VariantFields, VariantShape,
};
use tauri_helper::path::{
    components_of_text, extension, file_stem, join_text, parent, path_less, strip_prefix,
    PathComponent,
};
use tauri_helper::rust_source::RustAttribute;
use tauri_helper::text::{chars_less, chars_of, fn_name, split_chars, trim};
use tauri_helper::types::{
    get_member_pkg_name, get_workspace_members, get_workspace_pkg_name, members_to_scan, CargoToml,
    Package, TauriHelperOptions, Workspace,
};
use tauri_helper::workspace::{commands_list_dir, declares_workspace};

fn text(v: &[char]) -> String {
    v.iter().collect()
}

fn n(s: &str) -> PathComponent {
    PathComponent::Normal(s.to_string())
}

fn shown(p: &[PathComponent]) -> Vec<String> {
    p.iter()
        .map(|c| match c {
            PathComponent::Root => "/".to_string(),
            PathComponent::Current => ".".to_string(),
            PathComponent::Parent => "..".to_string(),
            PathComponent::Normal(n) => n.clone(),
        })
        .collect()
}

#[test]
fn trim_removes_unicode_white_space() {
    assert_eq!(text(&trim(&chars_of(" \t a b \r\n"))), "a b");
    assert_eq!(text(&trim(&chars_of("\u{3000}x\u{a0}"))), "x");
    assert_eq!(text(&trim(&chars_of("   "))), "");
}

#[test]
fn split_keeps_empty_pieces() {
    let pieces: Vec<String> = split_chars(&chars_of("a\n\nb\n"), '\n').iter().map(|p| text(p)).collect();
    assert_eq!(pieces, vec!["a", "", "b", ""]);
}

#[test]
fn fn_name_is_the_last_segment() {
    assert_eq!(text(&fn_name(&chars_of("a::b::c"))), "c");
    assert_eq!(text(&fn_name(&chars_of("plain"))), "plain");
    assert_eq!(text(&fn_name(&chars_of("a:::b"))), "b");
    assert_eq!(text(&fn_name(&chars_of("a::"))), "");
}

#[test]
fn code_point_order() {
    assert!(chars_less(&chars_of("B"), &chars_of("a")));
    assert!(chars_less(&chars_of("ab"), &chars_of("abc")));
    assert!(!chars_less(&chars_of("abc"), &chars_of("abc")));
    assert!(chars_less(&chars_of("z"), &chars_of("é")));
}

#[test]
fn path_text_components() {
    assert_eq!(shown(&components_of_text(&chars_of("a//b/./c/"))), vec!["a", "b", "c"]);
    assert_eq!(shown(&components_of_text(&chars_of("./x/../y"))), vec![".", "x", "..", "y"]);
    assert_eq!(shown(&components_of_text(&chars_of("/r/s"))), vec!["/", "r", "s"]);
    assert!(components_of_text(&chars_of("")).is_empty());
}

#[test]
fn joining_paths() {
    let dir = vec![n("src")];
    assert_eq!(shown(&join_text(&dir, &chars_of("./a.rs"))), vec!["src", "a.rs"]);
    assert_eq!(shown(&join_text(&Vec::new(), &chars_of("./a.rs"))), vec![".", "a.rs"]);
    assert_eq!(shown(&join_text(&dir, &chars_of("/abs.rs"))), vec!["/", "abs.rs"]);
}

#[test]
fn extensions_and_stems() {
    assert_eq!(extension(&chars_of("a.tar.gz")).map(|e| text(&e)), Some("gz".to_string()));
    assert_eq!(extension(&chars_of(".rs")), None);
    assert_eq!(extension(&chars_of("noext")), None);
    assert_eq!(extension(&chars_of("a.")).map(|e| text(&e)), Some(String::new()));
    assert_eq!(text(&file_stem(&chars_of("app_specta.txt"))), "app_specta");
    assert_eq!(text(&file_stem(&chars_of(".hidden"))), ".hidden");
}

#[test]
fn parents_and_prefixes() {
    assert_eq!(parent(&vec![n("a.rs")]).map(|p| p.len()), Some(0));
    assert!(parent(&vec![PathComponent::Root]).is_none());
    assert!(parent(&Vec::new()).is_none());
    let rest = strip_prefix(&vec![n("a"), n("b"), n("c")], &vec![n("a")]).unwrap();
    assert_eq!(shown(&rest), vec!["b", "c"]);
    assert!(strip_prefix(&vec![n("a")], &vec![n("b")]).is_none());
}

#[test]
fn path_order_follows_component_kinds() {
    assert!(path_less(&vec![PathComponent::Root], &vec![PathComponent::Current]));
    assert!(path_less(&vec![PathComponent::Parent], &vec![n("-x")]));
    assert!(path_less(&vec![n("a")], &vec![n("a"), n("b")]));
    assert!(!path_less(&vec![n("b")], &vec![n("a"), n("z")]));
}

fn manifest(name: &str, members: &[&str]) -> CargoToml {
    CargoToml {
        package: Package { name: name.to_string(), version: "0.1.0".to_string(), edition: "2021".to_string() },
        workspace: Workspace { members: members.iter().map(|m| m.to_string()).collect() },
    }
}

#[test]
fn manifest_getters() {
    let m = manifest("my-app", &[".", "crates/a"]);
    assert_eq!(get_workspace_pkg_name(&m), "my-app");
    assert_eq!(get_member_pkg_name(&m), "my-app");
    assert_eq!(get_workspace_members(&m), vec![".", "crates/a"]);
    let w: Workspace = Default::default();
    assert!(w.members.is_empty());
}

#[test]
fn options_and_members_to_scan() {
    let d = TauriHelperOptions::default();
    assert!(!d.collect_all);
    assert!(d.members.is_none());
    let o = TauriHelperOptions::new(true, Some(vec!["x".to_string()]));
    assert!(o.collect_all);
    assert_eq!(members_to_scan(&o, &vec!["ignored".to_string()]), vec!["x"]);
    assert_eq!(members_to_scan(&d, &Vec::new()), vec!["."]);
    assert_eq!(members_to_scan(&d, &vec!["a".to_string()]), vec!["a"]);
    let empty = TauriHelperOptions::new(false, Some(Vec::new()));
    assert!(members_to_scan(&empty, &vec!["a".to_string()]).is_empty());
}

#[test]
fn workspace_detection() {
    assert!(declares_workspace(&Some("[package]\nname=\"x\"\n[workspace]\n".to_string())));
    assert!(!declares_workspace(&Some("[package]\nname=\"x\"\n".to_string())));
    assert!(!declares_workspace(&None));
}

#[test]
fn commands_list_directory() {
    let root = vec![PathComponent::Root, n("ws")];
    assert_eq!(shown(&commands_list_dir(&None, &root)), vec!["/", "ws", "target", "tauri_commands_list"]);
    let custom = Some(vec![PathComponent::Root, n("tmp"), n("t")]);
    assert_eq!(shown(&commands_list_dir(&custom, &root)), vec!["/", "tmp", "t", "tauri_commands_list"]);
}

fn ty(path: &[&str]) -> FieldType {
    FieldType { path: Some(path.iter().map(|s| s.to_string()).collect()) }
}

fn attr(name: &str) -> RustAttribute {
    RustAttribute { global: false, path: vec![name.to_string()] }
}

#[test]
fn string_type_detection() {
    assert!(is_string_type(&ty(&["String"])));
    assert!(is_string_type(&ty(&["std", "string", "String"])));
    assert!(!is_string_type(&ty(&["str"])));
    assert!(!is_string_type(&FieldType { path: None }));
}

#[test]
fn logging_conversions_per_variant() {
    let single_string = VariantShape { attributes: vec![attr("logging_from")], fields: VariantFields::Unnamed(vec![ty(&["String"])]) };
    let single_int = VariantShape { attributes: vec![attr("doc"), attr("logging_from")], fields: VariantFields::Unnamed(vec![ty(&["i32"])]) };
    let single_plain = VariantShape { attributes: vec![], fields: VariantFields::Unnamed(vec![ty(&["i32"])]) };
    let pair = VariantShape { attributes: vec![], fields: VariantFields::Unnamed(vec![ty(&["String"]), ty(&["i32"])]) };
    let named = VariantShape { attributes: vec![], fields: VariantFields::Named(vec![ty(&["i32"])]) };
    let unit = VariantShape { attributes: vec![attr("logging_from")], fields: VariantFields::Unit };
    assert_eq!(from_impl_for_variant(&single_string), Some(FromImplKind::Converted { via_to_string: true }));
    assert_eq!(from_impl_for_variant(&single_int), Some(FromImplKind::Converted { via_to_string: false }));
    assert_eq!(from_impl_for_variant(&single_plain), None);
    assert_eq!(from_impl_for_variant(&pair), Some(FromImplKind::FromTuple));
    assert_eq!(from_impl_for_variant(&named), Some(FromImplKind::FromFields));
    assert_eq!(from_impl_for_variant(&unit), None);
}
