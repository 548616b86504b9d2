use tauri_helper::commands::{
    command_file_name, command_list_text, dedup_commands, first_unparsable_command,
    full_command_path, member_command_files,
    simple_fingerprint, sort_by_fn_name, sorted_unique,
};
use tauri_helper::scan::CollectedCommand;

fn strings(v: &[&str]) -> Vec<String> {
    v.iter().map(|s| s.to_string()).collect()
}

#[test]
fn full_command_path_uses_the_crate_name() {
    assert_eq!(full_command_path("my-app", "api::greet"), "my_app::api::greet");
    assert_eq!(full_command_path("core", "ping"), "core::ping");
}

#[test]
fn sort_by_fn_name_orders_by_last_segment_stably() {
    let mut v = strings(&["b::zeta", "a::alpha", "z::mid", "c::alpha", "alpha"]);
    sort_by_fn_name(&mut v);
    assert_eq!(v, strings(&["a::alpha", "c::alpha", "alpha", "z::mid", "b::zeta"]));
}

#[test]
fn sort_by_fn_name_uses_the_rightmost_separator() {
    let mut v = strings(&["x:::b", "y::a", "q::"]);
    sort_by_fn_name(&mut v);
    assert_eq!(v, strings(&["q::", "y::a", "x:::b"]));
}

#[test]
fn dedup_removes_only_adjacent_repeats() {
    let mut v = strings(&["a", "a", "b", "a", "b", "b"]);
    dedup_commands(&mut v);
    assert_eq!(v, strings(&["a", "b", "a", "b"]));
}

#[test]
fn sorted_unique_is_an_ordered_set() {
    let v = strings(&["b", "a", "c", "a", "b", "Z"]);
    assert_eq!(sorted_unique(&v), strings(&["Z", "a", "b", "c"]));
}

#[test]
fn command_list_text_is_one_command_per_line() {
    assert_eq!(command_list_text(&strings(&["a::x", "b::y"])), "a::x\nb::y\n");
    assert_eq!(command_list_text(&Vec::new()), "");
}

#[test]
fn command_file_names() {
    assert_eq!(command_file_name("my_app", false), "my_app.txt");
    assert_eq!(command_file_name("my_app", true), "my_app_specta.txt");
}

fn cmd(path: &str, specta: bool) -> CollectedCommand {
    CollectedCommand { path: path.to_string(), specta }
}

#[test]
fn member_files_hold_sorted_deduplicated_lists() {
    let cmds = vec![
        cmd("api::zeta", true),
        cmd("alpha", false),
        cmd("api::zeta", true),
        cmd("b::beta", true),
    ];
    let m = member_command_files("my-app", &cmds);
    assert_eq!(m.crate_name, "my_app");
    assert_eq!(m.tauri_commands, strings(&["my_app::alpha", "my_app::b::beta", "my_app::api::zeta"]));
    assert_eq!(m.specta_commands, strings(&["my_app::b::beta", "my_app::api::zeta"]));
}

#[test]
fn member_without_commands_has_both_lists_empty() {
    let m = member_command_files("my-x", &Vec::new());
    assert_eq!(m.crate_name, "my_x");
    assert!(m.tauri_commands.is_empty());
    assert!(m.specta_commands.is_empty());
    let m = member_command_files("x", &vec![cmd("a", false)]);
    assert_eq!(m.tauri_commands, strings(&["x::a"]));
    assert!(m.specta_commands.is_empty());
}

#[test]
fn fingerprint_is_fnv1a_64() {
    assert_eq!(simple_fingerprint(""), 0xcbf29ce484222325);
    assert_eq!(simple_fingerprint("a"), 0xaf63dc4c8601ec8c);
    assert_eq!(simple_fingerprint("foobar"), 0x85944171f73967e8);
}

#[test]
fn fingerprint_hashes_utf8_bytes() {
    let expected = {
        let mut h: u64 = 0xcbf29ce484222325;
        for b in "é".as_bytes() {
            h ^= *b as u64;
            h = h.wrapping_mul(0x100000001b3);
        }
        h
    };
    assert_eq!(simple_fingerprint("é"), expected);
    assert_ne!(simple_fingerprint("é"), simple_fingerprint("e"));
}

#[test]
fn specta_list_is_part_of_the_full_list() {
    let cmds = vec![cmd("a::x", true), cmd("y", false), cmd("b::z", true), cmd("a::x", true)];
    let m = member_command_files("pkg", &cmds);
    for c in &m.specta_commands {
        assert!(m.tauri_commands.contains(c));
    }
    assert_eq!(m.specta_commands.len(), 2);
}

#[test]
fn the_first_entry_that_is_not_a_path_is_found() {
    assert_eq!(first_unparsable_command(&Vec::new()), None);
    assert_eq!(first_unparsable_command(&strings(&["my_app::greet", "my_app::api::sum", "c"])), None);
    assert_eq!(
        first_unparsable_command(&strings(&["my_app::greet", "not a path", "also bad!", "c"])),
        Some(1)
    );
    assert_eq!(first_unparsable_command(&strings(&["", "a"])), Some(0));
    assert_eq!(first_unparsable_command(&strings(&["a::b::", "a"])), Some(0));
}
