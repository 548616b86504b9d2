//! What the scanning, writing and reading operations do, stated over their
//! inputs and results with the characters written out.
use vstd::prelude::*;
use crate::commands::full_command_path_spec;
use crate::listing::{is_command_char, is_command_path};
use crate::path::{strip_prefix_of, ComponentModel};
use crate::rust_source::{rust_file_functions, AttributeModel, ItemModel};
use crate::scan::{
    any_marks_command, any_marks_specta, component_texts, is_specta_spec, is_tauri_command_spec, item_commands, module_path_spec,
    qualified, source_commands_spec, CommandModel, SourceFileModel,
};
use crate::text::{contains_text, has_suffix, join_with, occurs_at, replace_char_spec};
use crate::workspace::declares_workspace_spec;

verus! {

/// The text `[workspace]`, brackets included.
pub open spec fn workspace_table_header() -> Seq<char> {
    seq!['[', 'w', 'o', 'r', 'k', 's', 'p', 'a', 'c', 'e', ']']
}

/// `pat` occurs in `s` at some position.
pub open spec fn occurs_in(s: Seq<char>, pat: Seq<char>) -> bool {
    exists|i: int| 0 <= i && i + pat.len() <= s.len() && #[trigger] s.subrange(i, i + pat.len()) == pat
}

/// Law (the workspace root): a directory is the workspace root exactly when
/// its `Cargo.toml` could be read and holds the text `[workspace]`, brackets
/// included; a manifest that only says `workspace = true` of a dependency
/// is no root, and neither is a directory without a readable manifest.
pub proof fn law_workspace_root(manifest: Seq<char>)
    ensures
        declares_workspace_spec(Some(manifest)) <==> occurs_in(manifest, workspace_table_header()),
        !declares_workspace_spec(None),
{
    reveal_strlit("[workspace]");
    let h = workspace_table_header();
    assert("[workspace]"@ =~= h);
    if declares_workspace_spec(Some(manifest)) {
        let i = choose|i: int| occurs_at(manifest, h, i);
        assert(manifest.subrange(i, i + h.len()) == h);
    }
    if occurs_in(manifest, h) {
        let i = choose|i: int|
            0 <= i && i + h.len() <= manifest.len() && #[trigger] manifest.subrange(i, i + h.len())
                == h;
        assert(occurs_at(manifest, h, i));
    }
}

/// Law (characters of a command path): a character is allowed in a command
/// path exactly when it is an ASCII letter, an ASCII digit, `_` or `:`.
pub proof fn law_command_chars(c: char)
    ensures
        is_command_char(c) <==> ('0' <= c && c <= '9') || ('A' <= c && c <= 'Z') || ('a' <= c
            && c <= 'z') || c == '_' || c == ':',
{
}

/// Law (command paths): a text is a valid command path exactly when each of
/// its characters is an ASCII letter, an ASCII digit, `_` or `:`.
pub proof fn law_command_paths(s: Seq<char>)
    ensures
        is_command_path(s) <==> forall|i: int|
            0 <= i < s.len() ==> ('0' <= #[trigger] s[i] && s[i] <= '9') || ('A' <= s[i] && s[i]
                <= 'Z') || ('a' <= s[i] && s[i] <= 'z') || s[i] == '_' || s[i] == ':',
{
    assert forall|i: int| 0 <= i < s.len() implies (is_command_char(s[i]) <==> (('0' <= #[trigger] s[i]
        && s[i] <= '9') || ('A' <= s[i] && s[i] <= 'Z') || ('a' <= s[i] && s[i] <= 'z') || s[i]
        == '_' || s[i] == ':')) by {
        law_command_chars(s[i]);
    }
}

/// Law (replacing a character): the result has the length of `s`, holds
/// `to` wherever `s` holds `from` and the character of `s` everywhere else;
/// so when `from != to` no `from` is left.
pub proof fn law_replace_char(s: Seq<char>, from: char, to: char)
    ensures
        replace_char_spec(s, from, to).len() == s.len(),
        forall|i: int|
            0 <= i < s.len() ==> #[trigger] replace_char_spec(s, from, to)[i] == (if s[i] == from {
                to
            } else {
                s[i]
            }),
        from != to ==> !replace_char_spec(s, from, to).contains(from),
{
}

/// Law (crate names in command paths): the full path written for a command
/// of package `package` holds `-` only where the command path itself does:
/// every `-` of the package name is written as `_`.
pub proof fn law_full_path_dashes(package: Seq<char>, command: Seq<char>)
    ensures
        full_command_path_spec(package, command).contains('-') <==> command.contains('-'),
        forall|i: int|
            0 <= i < package.len() ==> #[trigger] full_command_path_spec(package, command)[i] == (
            if package[i] == '-' {
                '_'
            } else {
                package[i]
            }),
{
    reveal_strlit("::");
    let name = replace_char_spec(package, '-', '_');
    let full = full_command_path_spec(package, command);
    assert("::"@ =~= seq![':', ':']);
    assert(full =~= name + seq![':', ':'] + command);
    law_replace_char(package, '-', '_');
    if full.contains('-') {
        let k = choose|k: int| 0 <= k < full.len() && full[k] == '-';
        assert(k >= name.len() + 2);
        assert(command[k - name.len() - 2] == '-');
    }
    if command.contains('-') {
        let k = choose|k: int| 0 <= k < command.len() && command[k] == '-';
        assert(full[k + name.len() + 2] == '-');
    }
}

/// The text `tauri::command`.
pub open spec fn command_marker() -> Seq<char> {
    seq!['t', 'a', 'u', 'r', 'i', ':', ':', 'c', 'o', 'm', 'm', 'a', 'n', 'd']
}

/// Law (which source texts are scanned): a file that could not be read, or
/// whose text does not hold `tauri::command`, gives no command; one whose
/// text holds it gives the commands among its parsed items, whatever
/// follows the marker (`#[tauri::command]`, `#[tauri::command(..)]`), and
/// none when the text does not parse.
pub proof fn law_scanned_texts(file: SourceFileModel, content: Option<Seq<char>>)
    ensures
        content is None ==> source_commands_spec(file, content) == Seq::<CommandModel>::empty(),
        content is Some && !occurs_in(content->Some_0, command_marker()) ==> source_commands_spec(
            file,
            content,
        ) == Seq::<CommandModel>::empty(),
        content is Some && occurs_in(content->Some_0, command_marker()) ==> source_commands_spec(
            file,
            content,
        ) == match rust_file_functions(content->Some_0) {
            Some(items) => item_commands(file.module, items),
            None => Seq::<CommandModel>::empty(),
        },
{
    reveal_strlit("tauri::command");
    let m = command_marker();
    assert("tauri::command"@ =~= m);
    if let Some(c) = content {
        if contains_text(c, m) {
            let i = choose|i: int| occurs_at(c, m, i);
            assert(c.subrange(i, i + m.len()) == m);
        }
        if occurs_in(c, m) {
            let i = choose|i: int|
                0 <= i && i + m.len() <= c.len() && #[trigger] c.subrange(i, i + m.len()) == m;
            assert(occurs_at(c, m, i));
        }
    }
}

/// The attribute path `tauri::command`.
pub open spec fn command_attribute_path() -> Seq<Seq<char>> {
    seq![seq!['t', 'a', 'u', 'r', 'i'], seq!['c', 'o', 'm', 'm', 'a', 'n', 'd']]
}

/// The attribute path `specta::specta`.
pub open spec fn specta_attribute_path() -> Seq<Seq<char>> {
    seq![seq!['s', 'p', 'e', 'c', 't', 'a'], seq!['s', 'p', 'e', 'c', 't', 'a']]
}

/// `name` inside the module `module`: `module::name`, or `name` alone at the
/// crate root.
pub open spec fn in_module(module: Seq<char>, name: Seq<char>) -> Seq<char> {
    if module.len() == 0 {
        name
    } else {
        module + seq![':', ':'] + name
    }
}

/// The command that `item`, a top-level item of a file of module `module`,
/// is: a function with an attribute whose path is `tauri::command` (with or
/// without a leading `::`, whatever its arguments), under its name inside
/// the module, marked specta when an attribute's path is `specta::specta`.
pub open spec fn command_of(module: Seq<char>, item: ItemModel) -> Option<CommandModel> {
    match item {
        ItemModel::Function { name, attributes } => if exists|a: int|
            0 <= a < attributes.len() && #[trigger] attributes[a].path == command_attribute_path() {
            Some(
                CommandModel {
                    path: in_module(module, name),
                    specta: exists|b: int|
                        0 <= b < attributes.len() && #[trigger] attributes[b].path
                            == specta_attribute_path(),
                },
            )
        } else {
            None
        },
        _ => None,
    }
}

proof fn lemma_marks(attributes: Seq<AttributeModel>)
    ensures
        any_marks_command(attributes) <==> exists|a: int|
            0 <= a < attributes.len() && #[trigger] attributes[a].path == command_attribute_path(),
        any_marks_specta(attributes) <==> exists|b: int|
            0 <= b < attributes.len() && #[trigger] attributes[b].path == specta_attribute_path(),
{
    reveal_strlit("tauri");
    reveal_strlit("command");
    reveal_strlit("specta");
    assert("tauri"@ =~= seq!['t', 'a', 'u', 'r', 'i']);
    assert("command"@ =~= seq!['c', 'o', 'm', 'm', 'a', 'n', 'd']);
    assert("specta"@ =~= seq!['s', 'p', 'e', 'c', 't', 'a']);
    assert(seq!["tauri"@, "command"@] =~= command_attribute_path());
    assert(seq!["specta"@, "specta"@] =~= specta_attribute_path());
    if any_marks_command(attributes) {
        let i = choose|i: int|
            0 <= i < attributes.len() && #[trigger] is_tauri_command_spec(attributes[i]);
        assert(attributes[i].path == command_attribute_path());
    }
    if exists|a: int|
        0 <= a < attributes.len() && #[trigger] attributes[a].path == command_attribute_path() {
        let a = choose|a: int|
            0 <= a < attributes.len() && #[trigger] attributes[a].path == command_attribute_path();
        assert(is_tauri_command_spec(attributes[a]));
    }
    if any_marks_specta(attributes) {
        let i = choose|i: int| 0 <= i < attributes.len() && #[trigger] is_specta_spec(attributes[i]);
        assert(attributes[i].path == specta_attribute_path());
    }
    if exists|b: int|
        0 <= b < attributes.len() && #[trigger] attributes[b].path == specta_attribute_path() {
        let b = choose|b: int|
            0 <= b < attributes.len() && #[trigger] attributes[b].path == specta_attribute_path();
        assert(is_specta_spec(attributes[b]));
    }
}

proof fn lemma_qualified(module: Seq<char>, name: Seq<char>)
    ensures
        qualified(module, name) == in_module(module, name),
{
    reveal_strlit("::");
    assert("::"@ =~= seq![':', ':']);
}

/// Law (the commands of a file): every top-level function of the parsed
/// items that carries `#[tauri::command]` is collected, under its name
/// inside the module and marked as it carries `#[specta::specta]`, and
/// every collected command is such a function, in file order.
pub proof fn law_item_commands(module: Seq<char>, items: Seq<ItemModel>)
    ensures
        forall|j: int|
            0 <= j < items.len() && #[trigger] command_of(module, items[j]) is Some
                ==> item_commands(module, items).contains(command_of(module, items[j])->Some_0),
        forall|k: int|
            0 <= k < item_commands(module, items).len() ==> exists|j: int|
                0 <= j < items.len() && #[trigger] command_of(module, items[j]) == Some(
                    #[trigger] item_commands(module, items)[k],
                ),
        item_commands(module, items).len() <= items.len(),
    decreases items.len(),
{
    if items.len() > 0 {
        let init = items.drop_last();
        law_item_commands(module, init);
        let prev = item_commands(module, init);
        let now = item_commands(module, items);
        let last = items.last();
        assert(items[items.len() - 1] == last);
        match last {
            ItemModel::Function { name, attributes } => {
                lemma_marks(attributes);
                lemma_qualified(module, name);
            },
            _ => {},
        }
        if command_of(module, last) is Some {
            assert(now == prev.push(command_of(module, last)->Some_0));
        } else {
            assert(now == prev);
        }
        assert forall|j: int|
            0 <= j < items.len() && #[trigger] command_of(module, items[j]) is Some implies now.contains(
            command_of(module, items[j])->Some_0,
        ) by {
            if j < init.len() {
                assert(init[j] == items[j]);
                assert(command_of(module, init[j]) is Some);
                let c = command_of(module, items[j])->Some_0;
                assert(prev.contains(c));
                let m = choose|m: int| 0 <= m < prev.len() && prev[m] == c;
                assert(now[m] == c);
            } else {
                assert(now[now.len() - 1] == command_of(module, last)->Some_0);
            }
        }
        assert forall|k: int| 0 <= k < now.len() implies exists|j: int|
            0 <= j < items.len() && #[trigger] command_of(module, items[j]) == Some(#[trigger] now[k]) by {
            if k < prev.len() {
                assert(now[k] == prev[k]);
                let j = choose|j: int|
                    0 <= j < init.len() && #[trigger] command_of(module, init[j]) == Some(prev[k]);
                assert(items[j] == init[j]);
            } else {
                assert(command_of(module, items[items.len() - 1]) == Some(now[k]));
            }
        }
    }
}

/// The text `.rs`.
pub open spec fn rs_suffix() -> Seq<char> {
    seq!['.', 'r', 's']
}

/// Law (a file in the source directory): a file `f` directly under `dir`
/// other than `main.rs` and `lib.rs` defines the module named by its stem
/// when its name ends in `.rs` (a `mod.rs` there defines the crate root
/// module, the empty path), and no module otherwise; `main.rs` and `lib.rs`
/// define the crate root.
pub proof fn law_module_path_of_file(dir: Seq<ComponentModel>, f: Seq<char>)
    ensures
        f == seq!['m', 'a', 'i', 'n'] + rs_suffix() || f == seq!['l', 'i', 'b'] + rs_suffix()
            ==> module_path_spec(dir, dir.push(ComponentModel::Normal(f))) == Some(
            Seq::<char>::empty(),
        ),
        f != seq!['m', 'a', 'i', 'n'] + rs_suffix() && f != seq!['l', 'i', 'b'] + rs_suffix()
            ==> module_path_spec(dir, dir.push(ComponentModel::Normal(f))) == if !has_suffix(
            f,
            rs_suffix(),
        ) {
            None
        } else if f == seq!['m', 'o', 'd'] + rs_suffix() {
            Some(Seq::<char>::empty())
        } else {
            Some(f.take(f.len() - 3))
        },
{
    reveal_strlit("main.rs");
    reveal_strlit("lib.rs");
    reveal_strlit(".rs");
    reveal_strlit("mod");
    reveal_strlit("::");
    let p = dir.push(ComponentModel::Normal(f));
    assert(p.take(dir.len() as int) =~= dir);
    let rel = seq![ComponentModel::Normal(f)];
    assert(p.skip(dir.len() as int) =~= rel);
    assert(strip_prefix_of(p, dir) == Some(rel));
    assert(".rs"@ =~= rs_suffix());
    assert("main.rs"@ =~= seq!['m', 'a', 'i', 'n'] + rs_suffix());
    assert("lib.rs"@ =~= seq!['l', 'i', 'b'] + rs_suffix());
    assert("mod"@ =~= seq!['m', 'o', 'd']);
    let parts = component_texts(rel);
    assert(parts =~= seq![f]);
    assert(parts.drop_last() =~= Seq::<Seq<char>>::empty());
    assert(rel.len() == 1);
    assert(parts.last() == f);
    assert(".rs"@.len() == 3);
    if rel == seq![ComponentModel::Normal("main.rs"@)] {
        assert(rel[0] == ComponentModel::Normal(f));
        assert(f == "main.rs"@);
    }
    if rel == seq![ComponentModel::Normal("lib.rs"@)] {
        assert(rel[0] == ComponentModel::Normal(f));
        assert(f == "lib.rs"@);
    }
    if f == "main.rs"@ {
        assert(rel =~= seq![ComponentModel::Normal("main.rs"@)]);
    }
    if f == "lib.rs"@ {
        assert(rel =~= seq![ComponentModel::Normal("lib.rs"@)]);
    }
    if has_suffix(f, rs_suffix()) {
        let stem = f.take(f.len() - 3);
        assert(parts.drop_last().push(stem) =~= seq![stem]);
        assert(join_with(seq![stem], "::"@) == stem);
        assert(join_with(Seq::<Seq<char>>::empty(), "::"@) == Seq::<char>::empty());
        assert(f =~= stem + f.skip(f.len() - 3));
        if f == seq!['m', 'o', 'd'] + rs_suffix() {
            assert(stem =~= seq!['m', 'o', 'd']);
        } else {
            if stem == seq!['m', 'o', 'd'] {
                assert(f =~= seq!['m', 'o', 'd'] + rs_suffix());
            }
        }
    }
}

/// Joining a first part in front of non-empty parts puts the separator
/// between them.
proof fn lemma_join_front(a: Seq<char>, parts: Seq<Seq<char>>, sep: Seq<char>)
    requires
        parts.len() > 0,
    ensures
        join_with(seq![a] + parts, sep) == a + sep + join_with(parts, sep),
    decreases parts.len(),
{
    let whole = seq![a] + parts;
    assert(whole.len() >= 2);
    if parts.len() == 1 {
        assert(whole.drop_last() =~= seq![a]);
        assert(join_with(seq![a], sep) == a);
        assert(whole.last() == parts[0]);
        assert(join_with(parts, sep) == parts[0]);
    } else {
        lemma_join_front(a, parts.drop_last(), sep);
        assert(whole.drop_last() =~= seq![a] + parts.drop_last());
        assert(whole.last() == parts.last());
        assert(join_with(whole, sep) == join_with(whole.drop_last(), sep) + sep + whole.last());
        assert(join_with(parts, sep) == join_with(parts.drop_last(), sep) + sep + parts.last());
        assert(join_with(whole, sep) =~= a + sep + join_with(parts, sep));
    }
}

/// Law (nested directories): a source file below the directory `d` of `dir`
/// defines, in the crate whose sources lie under `dir`, the module `d`
/// followed by `::` and the module it would define were `dir/d` the source
/// directory; every directory on the way is kept. (When that inner module
/// path is empty, as for `d/mod.rs`, the file defines `d` itself.) The
/// file itself is below `dir/d`, and is neither `dir/d/main.rs` nor
/// `dir/d/lib.rs`, which would be crate roots were `dir/d` the source
/// directory.
pub proof fn law_module_path_nesting(
    dir: Seq<ComponentModel>,
    d: Seq<char>,
    rest: Seq<ComponentModel>,
)
    requires
        rest.len() > 0,
        rest != seq![ComponentModel::Normal(seq!['m', 'a', 'i', 'n'] + rs_suffix())],
        rest != seq![ComponentModel::Normal(seq!['l', 'i', 'b'] + rs_suffix())],
    ensures
        ({
            let sub = dir.push(ComponentModel::Normal(d));
            let inner = module_path_spec(sub, sub + rest);
            let outer = module_path_spec(dir, sub + rest);
            &&& (inner is None ==> outer is None)
            &&& (inner is Some && inner->Some_0.len() > 0 ==> outer == Some(d + seq![':', ':'] + inner->Some_0))
            &&& (rest == seq![ComponentModel::Normal(seq!['m', 'o', 'd'] + rs_suffix())] ==> outer
                == Some(d))
        }),
{
    reveal_strlit("main.rs");
    reveal_strlit("lib.rs");
    reveal_strlit(".rs");
    reveal_strlit("mod");
    reveal_strlit("::");
    assert("::"@ =~= seq![':', ':']);
    assert(".rs"@ =~= rs_suffix());
    assert("main.rs"@ =~= seq!['m', 'a', 'i', 'n'] + rs_suffix());
    assert("lib.rs"@ =~= seq!['l', 'i', 'b'] + rs_suffix());
    assert("mod"@ =~= seq!['m', 'o', 'd']);
    let sub = dir.push(ComponentModel::Normal(d));
    let p = sub + rest;
    assert(p.take(sub.len() as int) =~= sub);
    assert(p.skip(sub.len() as int) =~= rest);
    assert(p.take(dir.len() as int) =~= dir);
    let rel = seq![ComponentModel::Normal(d)] + rest;
    assert(p.skip(dir.len() as int) =~= rel);
    assert(strip_prefix_of(p, sub) == Some(rest));
    assert(strip_prefix_of(p, dir) == Some(rel));
    assert(rel.len() >= 2);
    assert(rel != seq![ComponentModel::Normal("main.rs"@)]);
    assert(rel != seq![ComponentModel::Normal("lib.rs"@)]);
    assert(rest != seq![ComponentModel::Normal("main.rs"@)]);
    assert(rest != seq![ComponentModel::Normal("lib.rs"@)]);
    let pi = component_texts(rest);
    let po = component_texts(rel);
    assert(po =~= seq![d] + pi);
    assert(po.last() == pi.last());
    assert(po.drop_last() =~= seq![d] + pi.drop_last());
    let last = pi.last();
    let inner = module_path_spec(sub, p);
    let outer = module_path_spec(dir, p);
    if has_suffix(last, ".rs"@) {
        let stem = last.take(last.len() - ".rs"@.len());
        let ki = if stem == "mod"@ {
            pi.drop_last()
        } else {
            pi.drop_last().push(stem)
        };
        let ko = if stem == "mod"@ {
            po.drop_last()
        } else {
            po.drop_last().push(stem)
        };
        assert(ko =~= seq![d] + ki);
        assert(inner == Some(join_with(ki, "::"@)));
        assert(outer == Some(join_with(ko, "::"@)));
        if ki.len() > 0 {
            lemma_join_front(d, ki, "::"@);
        } else {
            assert(ko =~= seq![d]);
            assert(join_with(ko, "::"@) == d);
        }
        if rest == seq![ComponentModel::Normal(seq!['m', 'o', 'd'] + rs_suffix())] {
            assert(pi =~= seq![seq!['m', 'o', 'd'] + rs_suffix()]);
            assert(last == seq!['m', 'o', 'd'] + rs_suffix());
            assert(stem =~= seq!['m', 'o', 'd']);
            assert(ki =~= Seq::<Seq<char>>::empty());
            assert(join_with(ki, "::"@) == Seq::<char>::empty());
        }
    } else {
        assert(inner is None);
        assert(outer is None);
        if rest == seq![ComponentModel::Normal(seq!['m', 'o', 'd'] + rs_suffix())] {
            assert(last == seq!['m', 'o', 'd'] + rs_suffix());
            assert(last.skip(last.len() - 3) =~= rs_suffix());
        }
    }
}

} // verus!
