use tauri_helper::listing::{
    collect_commands, commands_fingerprint, fingerprint_text, is_listing_entry,
    is_specta_command_file, ListedFile,
};
use tauri_helper::commands::{
    command_file_name, command_files, command_list_text, member_command_files, simple_fingerprint,
};
use tauri_helper::scan::{collect_commands_from_sources, CollectedCommand, SourceFile};
use tauri_helper::path::PathComponent;

fn comps(parts: &[&str]) -> Vec<PathComponent> {
    parts.iter().map(|p| PathComponent::Normal(p.to_string())).collect()
}

fn listed(name: &str, content: &str) -> ListedFile {
    ListedFile { path: comps(&["target", "list", name]), is_file: true, content: Some(content.to_string()) }
}

#[test]
fn specta_files_are_recognised_by_stem() {
    assert!(is_specta_command_file(&comps(&["d", "app_specta.txt"])));
    assert!(!is_specta_command_file(&comps(&["d", "app.txt"])));
    assert!(is_specta_command_file(&comps(&["d", "x_specta"])));
    assert!(!is_specta_command_file(&Vec::new()));
    assert!(!is_specta_command_file(&vec![PathComponent::Parent]));
}

#[test]
fn tauri_listing_reads_non_specta_lists() {
    let files = vec![
        listed("other.txt", "other::b::zeta\n  other::alpha  \n\n"),
        listed("app.txt", "my_app::cmd::greet\nmy_app::alpha\n"),
        listed("app_specta.txt", "my_app::cmd::greet\n"),
        listed("notes.md", "not::read\n"),
    ];
    let got = collect_commands(false, "my-app", &files).ok().unwrap();
    assert_eq!(got, vec!["alpha", "other::alpha", "cmd::greet", "other::b::zeta"]);
}

#[test]
fn specta_listing_reads_only_specta_lists() {
    let files = vec![listed("app.txt", "my_app::a\n"), listed("app_specta.txt", "my_app::b\nmy_app::b\n")];
    let got = collect_commands(true, "my-app", &files).ok().unwrap();
    assert_eq!(got, vec!["b"]);
}

#[test]
fn directories_and_unreadable_files_are_skipped() {
    let dir = ListedFile { path: comps(&["d", "sub.txt"]), is_file: false, content: Some("x::y\n".to_string()) };
    let unreadable = ListedFile { path: comps(&["d", "u.txt"]), is_file: true, content: None };
    let got = collect_commands(false, "app", &vec![dir, unreadable]).ok().unwrap();
    assert!(got.is_empty());
}

#[test]
fn invalid_command_path_is_reported() {
    let files = vec![listed("b.txt", "ok::one\nbad path\n"), listed("a.txt", "fine\nalso-bad\n")];
    match collect_commands(false, "app", &files) {
        Err(e) => {
            assert_eq!(e.command, "also-bad");
            assert_eq!(e.file, comps(&["target", "list", "a.txt"]));
        },
        Ok(_) => panic!("an invalid command path must be refused"),
    }
}

#[test]
fn written_lists_read_back() {
    let written = vec!["my_app::zeta".to_string(), "dep::alpha".to_string(), "my_app::mod_a::beta".to_string()];
    let text = command_list_text(&written);
    let got = collect_commands(false, "my_app", &vec![listed("my_app.txt", &text)]).ok().unwrap();
    assert_eq!(got, vec!["dep::alpha", "mod_a::beta", "zeta"]);
}

#[test]
fn fingerprint_text_covers_txt_files_in_path_order() {
    let files = vec![
        listed("b.txt", "x\n"),
        listed("a.txt", "y\n"),
        listed("c.md", "z\n"),
        ListedFile { path: comps(&["target", "list", "d.txt"]), is_file: true, content: None },
    ];
    assert_eq!(fingerprint_text(&files), "a.txt\ny\n\nb.txt\nx\n\n");
    assert_eq!(commands_fingerprint(&files), simple_fingerprint("a.txt\ny\n\nb.txt\nx\n\n"));
}

#[test]
fn each_list_reaches_its_macro() {
    for name in ["my_app", "a", "specta_tools"] {
        let tauri = comps(&["d", &command_file_name(name, false)]);
        let specta = comps(&["d", &command_file_name(name, true)]);
        assert!(!is_specta_command_file(&tauri));
        assert!(is_specta_command_file(&specta));
    }
    // A crate whose own name ends in `_specta` has its full list taken for a specta list.
    assert!(is_specta_command_file(&comps(&["d", &command_file_name("tools_specta", false)])));
}

#[test]
fn a_written_directory_reads_back_whole() {
    let cmd = |path: &str, specta: bool| CollectedCommand { path: path.to_string(), specta };
    let app = member_command_files(
        "my-app",
        &vec![cmd("api::greet", true), cmd("alpha", false), cmd("api::greet", true)],
    );
    let dep = member_command_files("dep", &vec![cmd("zeta", true), cmd("x::alpha", false)]);
    let empty = member_command_files("quiet", &Vec::new());
    let mut files = Vec::new();
    for lists in [&dep, &empty, &app] {
        files.push(listed(&command_file_name(&lists.crate_name, false), &command_list_text(&lists.tauri_commands)));
        files.push(listed(&command_file_name(&lists.crate_name, true), &command_list_text(&lists.specta_commands)));
    }
    let all = collect_commands(false, "my-app", &files).ok().unwrap();
    assert_eq!(all, vec!["alpha", "dep::x::alpha", "api::greet", "dep::zeta"]);
    let specta = collect_commands(true, "my-app", &files).ok().unwrap();
    assert_eq!(specta, vec!["api::greet", "dep::zeta"]);
    assert_eq!(command_list_text(&empty.tauri_commands), "");
}

#[test]
fn both_files_are_written_for_every_crate() {
    let cmd = |path: &str, specta: bool| CollectedCommand { path: path.to_string(), specta };
    let files = command_files(&member_command_files("my-app", &vec![cmd("b", false), cmd("a", true)]));
    assert_eq!(files.len(), 2);
    assert_eq!(files[0].name, "my_app.txt");
    assert_eq!(files[0].content, "my_app::a\nmy_app::b\n");
    assert_eq!(files[1].name, "my_app_specta.txt");
    assert_eq!(files[1].content, "my_app::a\n");
    let quiet = command_files(&member_command_files("quiet", &Vec::new()));
    assert_eq!(quiet.len(), 2);
    assert_eq!((quiet[0].name.as_str(), quiet[0].content.as_str()), ("quiet.txt", ""));
    assert_eq!((quiet[1].name.as_str(), quiet[1].content.as_str()), ("quiet_specta.txt", ""));
}

#[test]
fn only_the_lists_asked_for_are_read() {
    assert!(is_listing_entry(&comps(&["d", "app.txt"]), true, false));
    assert!(!is_listing_entry(&comps(&["d", "app.txt"]), true, true));
    assert!(is_listing_entry(&comps(&["d", "app_specta.txt"]), true, true));
    assert!(!is_listing_entry(&comps(&["d", "app_specta.txt"]), true, false));
    assert!(!is_listing_entry(&comps(&["d", "app.txt"]), false, false));
    assert!(!is_listing_entry(&comps(&["d", "notes.md"]), true, false));
}

#[test]
fn scanned_sources_reach_the_macros() {
    let sources = vec![
        SourceFile { path: comps(&["src", "lib.rs"]), module: String::new() },
        SourceFile { path: comps(&["src", "api.rs"]), module: "api".to_string() },
    ];
    let contents = vec![
        Some("#[tauri::command] fn zeta() {} fn helper() {}".to_string()),
        Some("#[tauri::command]\n#[specta::specta]\npub fn greet() {}".to_string()),
    ];
    let app = member_command_files("my-app", &collect_commands_from_sources(&sources, &contents));
    let dep = member_command_files("dep", &collect_commands_from_sources(
        &vec![SourceFile { path: comps(&["dep", "src", "lib.rs"]), module: String::new() }],
        &vec![Some("#[::tauri::command] #[specta::specta] fn alpha() {}".to_string())],
    ));
    let mut listed_files = Vec::new();
    for lists in [&app, &dep] {
        for f in command_files(lists) {
            listed_files.push(listed(&f.name, &f.content));
        }
    }
    let all = collect_commands(false, "my-app", &listed_files).ok().unwrap();
    assert_eq!(all, vec!["dep::alpha", "api::greet", "zeta"]);
    let specta = collect_commands(true, "my-app", &listed_files).ok().unwrap();
    assert_eq!(specta, vec!["dep::alpha", "api::greet"]);
}
