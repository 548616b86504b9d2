//! The manifest data and options that command collection works from.
use vstd::prelude::*;

verus! {

/// The `[package]` table of a `Cargo.toml`.
#[derive(Debug, Clone)]
pub struct Package {
    pub name: String,
    pub version: String,
    pub edition: String,
}

/// The `[workspace]` table of a `Cargo.toml`; `members` is empty when the
/// table, or its `members` key, is absent.
#[derive(Debug, Clone)]
pub struct Workspace {
    pub members: Vec<String>,
}

impl Default for Workspace {
    /// A workspace without members.
    fn default() -> (r: Self)
        ensures
            r.members@.len() == 0,
    {
        Workspace { members: Vec::new() }
    }
}

/// A parsed `Cargo.toml`.
#[derive(Debug, Clone)]
pub struct CargoToml {
    pub package: Package,
    pub workspace: Workspace,
}

/// Configuration options for command collection.
///
/// `collect_all` is kept for compatibility: every `#[tauri::command]`
/// function is collected whatever its value. `members` names the workspace
/// members to scan; when `None`, the members listed in the workspace manifest
/// are scanned, and when that list is empty, the current crate (`"."`).
#[derive(Debug, Clone)]
pub struct TauriHelperOptions {
    pub collect_all: bool,
    pub members: Option<Vec<String>>,
}

impl Default for TauriHelperOptions {
    /// `collect_all` false, and the workspace's own member list.
    fn default() -> (r: Self)
        ensures
            !r.collect_all,
            r.members is None,
    {
        TauriHelperOptions { collect_all: false, members: None }
    }
}

impl TauriHelperOptions {
    /// Options with the given values.
    pub fn new(collect_all: bool, members: Option<Vec<String>>) -> (r: Self)
        ensures
            r.collect_all == collect_all,
            r.members == members,
    {
        TauriHelperOptions { collect_all, members }
    }
}

/// A copy of a list of strings.
pub fn copy_strings(v: &Vec<String>) -> (r: Vec<String>)
    ensures
        r.deep_view() == v.deep_view(),
{
    let mut r: Vec<String> = Vec::new();
    let mut i: usize = 0;
    while i < v.len()
        invariant
            i <= v@.len(),
            r@.len() == i,
            r.deep_view() == v.deep_view().take(i as int),
        decreases v@.len() - i,
    {
        let c = v[i].clone();
        let ghost prev = r@;
        r.push(c);
        assert(r@ == prev.push(c));
        assert(r.deep_view()[i as int] == c@);
        i = i + 1;
        assert(r.deep_view() =~= v.deep_view().take(i as int));
    }
    assert(v.deep_view().take(v@.len() as int) =~= v.deep_view());
    r
}

/// The package name of the workspace root manifest `workspace`.
pub fn get_workspace_pkg_name(workspace: &CargoToml) -> (r: String)
    ensures
        r@ == workspace.package.name@,
{
    workspace.package.name.clone()
}

/// The package name of a member's manifest `manifest`.
pub fn get_member_pkg_name(manifest: &CargoToml) -> (r: String)
    ensures
        r@ == manifest.package.name@,
{
    manifest.package.name.clone()
}

/// The members listed in the workspace root manifest `workspace`.
pub fn get_workspace_members(workspace: &CargoToml) -> (r: Vec<String>)
    ensures
        r.deep_view() == workspace.workspace.members.deep_view(),
{
    copy_strings(&workspace.workspace.members)
}

/// The members that command collection scans.
pub open spec fn members_to_scan_spec(
    options: Option<Seq<Seq<char>>>,
    workspace_members: Seq<Seq<char>>,
) -> Seq<Seq<char>> {
    match options {
        Some(m) => m,
        None => if workspace_members.len() == 0 {
            seq![seq!['.']]
        } else {
            workspace_members
        },
    }
}

/// The members to scan: those the options name, else those of the
/// workspace, else the current crate `"."` alone.
pub fn members_to_scan(options: &TauriHelperOptions, workspace_members: &Vec<String>) -> (r: Vec<
    String,
>)
    ensures
        r.deep_view() == members_to_scan_spec(options.members.deep_view(), workspace_members.deep_view()),
{
    match &options.members {
        Some(m) => copy_strings(m),
        None => {
            if workspace_members.len() == 0 {
                let mut r: Vec<String> = Vec::new();
                let dot_chars: Vec<char> = vec!['.'];
                assert(dot_chars@ =~= seq!['.']);
                let dot = crate::text::string_of(&dot_chars);
                r.push(dot);
                assert(r@.len() == 1);
                assert(r.deep_view()[0] == dot@);
                assert(r.deep_view() =~= seq![seq!['.']]);
                r
            } else {
                copy_strings(workspace_members)
            }
        },
    }
}

} // verus!
