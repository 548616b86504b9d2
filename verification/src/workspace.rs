//! Locating the workspace and the directory of the generated command lists.
use vstd::prelude::*;
use crate::path::{copy_components, path_model, ComponentModel, PathComponent};
use crate::text::{chars_of, contains, contains_text};

verus! {

/// A directory is the workspace root when its `Cargo.toml` could be read
/// and mentions a `[workspace]` table.
pub open spec fn declares_workspace_spec(manifest: Option<Seq<char>>) -> bool {
    match manifest {
        Some(m) => contains_text(m, "[workspace]"@),
        None => false,
    }
}

/// Whether the text of a directory's `Cargo.toml` (`None` when there is
/// none, or it could not be read) makes it the workspace root. The search
/// for the root asks this of each directory from the crate's upwards.
pub fn declares_workspace(manifest: &Option<String>) -> (r: bool)
    ensures
        r == declares_workspace_spec(manifest.deep_view()),
{
    match manifest {
        Some(m) => contains(&chars_of(m.as_str()), &chars_of("[workspace]")),
        None => false,
    }
}

/// The directory of the generated command lists: `tauri_commands_list` in
/// the target directory, which is `target_dir` when given (from
/// `CARGO_TARGET_DIR`) and `target` under the workspace root otherwise.
pub open spec fn commands_list_dir_spec(
    target_dir: Option<Seq<ComponentModel>>,
    workspace_root: Seq<ComponentModel>,
) -> Seq<ComponentModel> {
    let target = match target_dir {
        Some(t) => t,
        None => workspace_root.push(ComponentModel::Normal("target"@)),
    };
    target.push(ComponentModel::Normal("tauri_commands_list"@))
}

/// The directory that holds the generated command lists.
pub fn commands_list_dir(target_dir: &Option<Vec<PathComponent>>, workspace_root: &Vec<PathComponent>) -> (r:
    Vec<PathComponent>)
    ensures
        path_model(r@) == commands_list_dir_spec(
            match target_dir {
                Some(t) => Some(path_model(t@)),
                None => None,
            },
            path_model(workspace_root@),
        ),
{
    let mut dir = match target_dir {
        Some(t) => {
            let d = copy_components(t, 0, t.len());
            assert(path_model(t@).subrange(0, t@.len() as int) =~= path_model(t@));
            d
        },
        None => {
            let mut d = copy_components(workspace_root, 0, workspace_root.len());
            assert(path_model(workspace_root@).subrange(0, workspace_root@.len() as int)
                =~= path_model(workspace_root@));
            let c = PathComponent::Normal(String::from_str("target"));
            proof {
                crate::path::lemma_path_model_push(d@, c);
            }
            d.push(c);
            d
        },
    };
    let c = PathComponent::Normal(String::from_str("tauri_commands_list"));
    proof {
        crate::path::lemma_path_model_push(dir@, c);
    }
    dir.push(c);
    dir
}

} // verus!
