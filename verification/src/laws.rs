//! Properties of the library as a whole, each proved from the contracts'
//! own definitions.
use vstd::prelude::*;
use crate::commands::{
    by_fn_name, by_text, command_file_name_spec, command_files_spec, command_list_spec,
    full_command_path_spec, full_paths, list_text, specta_full_paths,
};
use crate::listing::{
    collect_commands_spec, crate_prefix, first_invalid, is_command_char, is_command_path,
    is_listing_for, is_specta_command_file_spec, line_entries, listing_entries, tagged,
    ListedFileModel,
};
use crate::order::{
    insert_sorted, insertion_sort, lemma_dedup_contains, lemma_dedup_no_adjacent,
    lemma_dedup_sorted, lemma_insertion_sort_multiset, lemma_insertion_sort_sorted,
    lemma_sorted_set_props, sorted_by, sorted_set, strict_total_order, strict_weak_order,
};
use crate::path::{
    file_stem_of, has_extension, last_dot, lemma_path_lt_asymmetric, lemma_path_lt_total,
    lemma_path_lt_transitive, path_lt, ComponentModel,
};
use crate::scan::{by_path, first_of_each_path, CommandModel, SourceFileModel};
use crate::text::{
    chars_lt, fn_name_of, has_prefix, has_suffix, is_whitespace, lemma_chars_lt_asymmetric,
    lemma_chars_lt_irreflexive, lemma_chars_lt_total, lemma_chars_lt_transitive, split_at_char,
    replace_char_spec, trim_start, trimmed, without_prefix,
};

verus! {

/// Ordering by function name is a strict weak order.
pub proof fn lemma_by_fn_name_order()
    ensures
        strict_weak_order(by_fn_name()),
{
    let lt = by_fn_name();
    assert forall|a: Seq<char>, b: Seq<char>| #[trigger] lt(a, b) implies !lt(b, a) by {
        lemma_chars_lt_asymmetric(fn_name_of(a), fn_name_of(b));
    }
    assert forall|a: Seq<char>, b: Seq<char>, c: Seq<char>|
        #![trigger lt(a, b), lt(b, c)]
        #![trigger lt(a, c), lt(a, b)]
        #![trigger lt(a, c), lt(b, c)]
        !lt(a, b) && !lt(b, c) implies !lt(a, c) by {
        let ka = fn_name_of(a);
        let kb = fn_name_of(b);
        let kc = fn_name_of(c);
        lemma_chars_lt_total(ka, kb);
        lemma_chars_lt_total(kb, kc);
        if chars_lt(ka, kc) {
            lemma_chars_lt_asymmetric(ka, kc);
            if ka != kb && kb != kc {
                lemma_chars_lt_transitive(kc, kb, ka);
            }
        }
    }
}

/// Text order is a strict total order.
pub proof fn lemma_by_text_order()
    ensures
        strict_total_order(by_text()),
{
    let lt = by_text();
    assert forall|a: Seq<char>| !#[trigger] lt(a, a) by {
        lemma_chars_lt_irreflexive(a);
    }
    assert forall|a: Seq<char>, b: Seq<char>, c: Seq<char>|
        #![trigger lt(a, b), lt(b, c)]
        lt(a, b) && lt(b, c) implies lt(a, c) by {
        lemma_chars_lt_transitive(a, b, c);
    }
    assert forall|a: Seq<char>, b: Seq<char>| a != b implies #[trigger] lt(a, b) || lt(b, a) by {
        lemma_chars_lt_total(a, b);
    }
}

/// Law: sorting commands by function name keeps each command exactly as
/// often as before and leaves them in function-name order.
pub proof fn law_sort_by_fn_name(commands: Seq<Seq<char>>)
    ensures
        insertion_sort(commands, by_fn_name()).to_multiset() == commands.to_multiset(),
        sorted_by(insertion_sort(commands, by_fn_name()), by_fn_name()),
{
    lemma_by_fn_name_order();
    lemma_insertion_sort_multiset(commands, by_fn_name());
    lemma_insertion_sort_sorted(commands, by_fn_name());
}

/// Law: a command list file holds exactly the full paths it was given, in
/// function-name order, with no entry equal to the one before it.
pub proof fn law_command_list(paths: Seq<Seq<char>>)
    ensures
        forall|x: Seq<char>| #[trigger] command_list_spec(paths).contains(x) <==> paths.contains(x),
        sorted_by(command_list_spec(paths), by_fn_name()),
        forall|i: int|
            0 <= i < command_list_spec(paths).len() - 1 ==> #[trigger] command_list_spec(paths)[i]
                != command_list_spec(paths)[i + 1],
{
    broadcast use vstd::seq_lib::group_to_multiset_ensures;

    let sorted = insertion_sort(paths, by_fn_name());
    law_sort_by_fn_name(paths);
    lemma_dedup_sorted(sorted, by_fn_name());
    lemma_dedup_no_adjacent(sorted);
    assert forall|x: Seq<char>| #[trigger] command_list_spec(paths).contains(x) <==> paths.contains(x) by {
        lemma_dedup_contains(sorted, x);
        assert(sorted.to_multiset().count(x) == paths.to_multiset().count(x));
    }
}

/// The specta commands are among all the commands.
proof fn lemma_specta_paths_within(package: Seq<char>, cmds: Seq<CommandModel>, x: Seq<char>)
    ensures
        specta_full_paths(package, cmds).contains(x) ==> full_paths(package, cmds).contains(x),
    decreases cmds.len(),
{
    if cmds.len() > 0 {
        lemma_specta_paths_within(package, cmds.drop_last(), x);
        let prev_s = specta_full_paths(package, cmds.drop_last());
        let prev_f = full_paths(package, cmds.drop_last());
        let last = full_command_path_spec(package, cmds.last().path);
        if specta_full_paths(package, cmds).contains(x) {
            if x == last {
                assert(full_paths(package, cmds)[prev_f.len() as int] == x);
            } else {
                let k = choose|k: int|
                    0 <= k < specta_full_paths(package, cmds).len() && specta_full_paths(
                        package,
                        cmds,
                    )[k] == x;
                if cmds.last().specta {
                    assert(k < prev_s.len());
                    assert(prev_s[k] == x);
                } else {
                    assert(prev_s[k] == x);
                }
                let m = choose|m: int| 0 <= m < prev_f.len() && prev_f[m] == x;
                assert(full_paths(package, cmds)[m] == x);
            }
        }
    }
}

/// Law: every command in a crate's specta list is also in its list of all
/// commands.
pub proof fn law_specta_within_tauri(package: Seq<char>, cmds: Seq<CommandModel>)
    ensures
        forall|x: Seq<char>|
            #[trigger] command_list_spec(specta_full_paths(package, cmds)).contains(x)
                ==> command_list_spec(full_paths(package, cmds)).contains(x),
{
    law_command_list(specta_full_paths(package, cmds));
    law_command_list(full_paths(package, cmds));
    assert forall|x: Seq<char>|
        #[trigger] command_list_spec(specta_full_paths(package, cmds)).contains(x)
            implies command_list_spec(full_paths(package, cmds)).contains(x) by {
        lemma_specta_paths_within(package, cmds, x);
    }
}

/// Law: the calling crate's own commands are read back relative to it: the
/// full path written for package `package` loses exactly `{crate}::`.
pub proof fn law_own_commands_relative(package: Seq<char>, path: Seq<char>)
    ensures
        without_prefix(full_command_path_spec(package, path), crate_prefix(package)) == path,
{
    let full = full_command_path_spec(package, path);
    let pre = crate_prefix(package);
    assert(full =~= pre + path);
    assert(full.take(pre.len() as int) =~= pre);
    assert(full.skip(pre.len() as int) =~= path);
}

/// The full paths written for the commands `cmds` of package `package`:
/// those carrying `#[specta::specta]` when `specta_only`, all otherwise.
pub open spec fn kind_paths(package: Seq<char>, cmds: Seq<CommandModel>, specta_only: bool) -> Seq<
    Seq<char>,
> {
    if specta_only {
        specta_full_paths(package, cmds)
    } else {
        full_paths(package, cmds)
    }
}

/// The full paths of a kind are those of the commands of that kind.
proof fn lemma_kind_paths_contain(
    package: Seq<char>,
    cmds: Seq<CommandModel>,
    specta_only: bool,
    y: Seq<char>,
)
    ensures
        kind_paths(package, cmds, specta_only).contains(y) <==> exists|j: int|
            0 <= j < cmds.len() && (specta_only ==> cmds[j].specta) && y == full_command_path_spec(
                package,
                #[trigger] cmds[j].path,
            ),
    decreases cmds.len(),
{
    if cmds.len() > 0 {
        let init = cmds.drop_last();
        let last = cmds.last();
        lemma_kind_paths_contain(package, init, specta_only, y);
        let prev = kind_paths(package, init, specta_only);
        let now = kind_paths(package, cmds, specta_only);
        let f = full_command_path_spec(package, last.path);
        if !specta_only || last.specta {
            assert(now == prev.push(f));
        } else {
            assert(now == prev);
        }
        if now.contains(y) {
            let m = choose|m: int| 0 <= m < now.len() && now[m] == y;
            if m < prev.len() {
                assert(prev[m] == y);
                let j = choose|j: int|
                    0 <= j < init.len() && (specta_only ==> init[j].specta) && y
                        == full_command_path_spec(package, #[trigger] init[j].path);
                assert(cmds[j] == init[j]);
            } else {
                assert(cmds[cmds.len() - 1] == last);
            }
        }
        if exists|j: int|
            0 <= j < cmds.len() && (specta_only ==> cmds[j].specta) && y == full_command_path_spec(
                package,
                #[trigger] cmds[j].path,
            ) {
            let j = choose|j: int|
                0 <= j < cmds.len() && (specta_only ==> cmds[j].specta) && y
                    == full_command_path_spec(package, #[trigger] cmds[j].path);
            if j < init.len() {
                assert(init[j] == cmds[j]);
                assert(prev.contains(y));
                let m = choose|m: int| 0 <= m < prev.len() && prev[m] == y;
                assert(now[m] == y);
            } else {
                assert(now[now.len() - 1] == y);
            }
        }
    }
}

/// A full command path of a crate with a valid name and a valid command
/// path is a valid, non-empty command path.
proof fn lemma_full_path_valid(package: Seq<char>, path: Seq<char>)
    requires
        is_command_path(replace_char_spec(package, '-', '_')),
        is_command_path(path),
    ensures
        full_command_path_spec(package, path).len() > 0,
        is_command_path(full_command_path_spec(package, path)),
{
    reveal_strlit("::");
    let cn = replace_char_spec(package, '-', '_');
    let full = full_command_path_spec(package, path);
    assert("::"@ =~= seq![':', ':']);
    assert(full =~= cn + seq![':', ':'] + path);
    assert forall|i: int| 0 <= i < full.len() implies #[trigger] is_command_char(full[i]) by {
        if i < cn.len() {
            assert(full[i] == cn[i]);
        } else if i < cn.len() + 2 {
            assert(full[i] == ':');
        } else {
            assert(full[i] == path[i - cn.len() - 2]);
        }
    }
}

/// Law (the written lists can be read back): when the crate name of
/// package `package` and the path of each of its commands `cmds` are made
/// of ASCII letters, digits, `_` and `:`, each entry of both of its lists is
/// a non-empty valid command path.
pub proof fn law_member_lists_valid(package: Seq<char>, cmds: Seq<CommandModel>)
    requires
        is_command_path(replace_char_spec(package, '-', '_')),
        forall|j: int| 0 <= j < cmds.len() ==> is_command_path(#[trigger] cmds[j].path),
    ensures
        valid_commands(command_list_spec(full_paths(package, cmds))),
        valid_commands(command_list_spec(specta_full_paths(package, cmds))),
{
    assert forall|specta_only: bool| #[trigger]
        valid_commands(command_list_spec(kind_paths(package, cmds, specta_only))) by {
        let paths = kind_paths(package, cmds, specta_only);
        let list = command_list_spec(paths);
        law_command_list(paths);
        assert forall|i: int| 0 <= i < list.len() implies #[trigger] list[i].len() > 0
            && is_command_path(list[i]) by {
            assert(list.contains(list[i]));
            assert(paths.contains(list[i]));
            lemma_kind_paths_contain(package, cmds, specta_only, list[i]);
            let j = choose|j: int|
                0 <= j < cmds.len() && (specta_only ==> cmds[j].specta) && list[i]
                    == full_command_path_spec(package, #[trigger] cmds[j].path);
            lemma_full_path_valid(package, cmds[j].path);
        }
    }
    assert(valid_commands(command_list_spec(kind_paths(package, cmds, false))));
    assert(valid_commands(command_list_spec(kind_paths(package, cmds, true))));
}

/// Splitting a text extended by a piece without separators extends its
/// last piece.
proof fn lemma_split_extend(t: Seq<char>, u: Seq<char>, sep: char)
    requires
        forall|i: int| 0 <= i < u.len() ==> u[i] != sep,
    ensures
        split_at_char(t + u, sep) == split_at_char(t, sep).update(
            split_at_char(t, sep).len() - 1,
            split_at_char(t, sep).last() + u,
        ),
    decreases u.len(),
{
    crate::text::lemma_split_nonempty(t, sep);
    if u.len() == 0 {
        assert(t + u =~= t);
        assert(split_at_char(t, sep).last() + u =~= split_at_char(t, sep).last());
        assert(split_at_char(t, sep).update(
            split_at_char(t, sep).len() - 1,
            split_at_char(t, sep).last(),
        ) =~= split_at_char(t, sep));
    } else {
        let u0 = u.drop_last();
        lemma_split_extend(t, u0, sep);
        assert((t + u).drop_last() =~= t + u0);
        assert((t + u).last() == u.last());
        let prev = split_at_char(t + u0, sep);
        let base = split_at_char(t, sep);
        assert(base.last() + u0 + seq![u.last()] =~= base.last() + u);
        assert(prev.len() == base.len());
        assert(prev.last() == base.last() + u0);
        assert(prev.last().push(u.last()) =~= base.last() + u);
        assert(u.last() != sep) by {
            assert(u[u.len() - 1] != sep);
        }
        assert(prev.update(prev.len() - 1, prev.last().push(u.last())) =~= split_at_char(
            t,
            sep,
        ).update(split_at_char(t, sep).len() - 1, split_at_char(t, sep).last() + u));
    }
}

/// Commands hold no newline.
pub open spec fn valid_commands(commands: Seq<Seq<char>>) -> bool {
    forall|i: int|
        0 <= i < commands.len() ==> #[trigger] commands[i].len() > 0 && is_command_path(
            commands[i],
        )
}

/// The lines of a written list are its commands and a final empty line.
proof fn lemma_list_text_lines(commands: Seq<Seq<char>>)
    requires
        valid_commands(commands),
    ensures
        split_at_char(list_text(commands), '\n') == commands.push(Seq::<char>::empty()),
    decreases commands.len(),
{
    if commands.len() == 0 {
        assert(split_at_char(Seq::<char>::empty(), '\n') =~= seq![Seq::<char>::empty()]);
        assert(commands.push(Seq::<char>::empty()) =~= seq![Seq::<char>::empty()]);
    } else {
        let init = commands.drop_last();
        let x = commands.last();
        assert(valid_commands(init)) by {
            assert forall|i: int| 0 <= i < init.len() implies #[trigger] init[i].len() > 0
                && is_command_path(init[i]) by {
                assert(init[i] == commands[i]);
            }
        }
        lemma_list_text_lines(init);
        assert(x == commands[commands.len() - 1]);
        assert forall|i: int| 0 <= i < x.len() implies x[i] != '\n' by {
            assert(is_command_char(x[i]));
        }
        lemma_split_extend(list_text(init), x, '\n');
        let t = list_text(init) + x;
        assert(list_text(commands) == t + seq!['\n']);
        assert((t + seq!['\n']).drop_last() =~= t);
        assert(init.push(Seq::<char>::empty()).update(init.len() as int, Seq::<char>::empty() + x)
            =~= commands);
    }
}

/// A command path has no surrounding white space.
proof fn lemma_trimmed_command(c: Seq<char>)
    requires
        c.len() > 0,
        is_command_path(c),
    ensures
        trimmed(c) == c,
{
    assert(is_command_char(c[0]));
    assert(!is_whitespace(c[0]));
    assert(trim_start(c) == c);
    assert(is_command_char(c.last()));
    assert(!is_whitespace(c.last()));
}

/// The entries of the lines `commands` followed by an empty line.
proof fn lemma_line_entries_of_commands(commands: Seq<Seq<char>>, prefix: Seq<char>)
    requires
        valid_commands(commands),
    ensures
        line_entries(commands.push(Seq::<char>::empty()), prefix) == commands.map_values(
            |c: Seq<char>| without_prefix(c, prefix),
        ),
    decreases commands.len(),
{
    let lines = commands.push(Seq::<char>::empty());
    assert(lines.drop_last() =~= commands);
    assert(trimmed(Seq::<char>::empty()) =~= Seq::<char>::empty());
    lemma_line_entries_plain(commands, prefix);
}

proof fn lemma_line_entries_plain(commands: Seq<Seq<char>>, prefix: Seq<char>)
    requires
        valid_commands(commands),
    ensures
        line_entries(commands, prefix) == commands.map_values(
            |c: Seq<char>| without_prefix(c, prefix),
        ),
    decreases commands.len(),
{
    if commands.len() == 0 {
        assert(commands.map_values(|c: Seq<char>| without_prefix(c, prefix)) =~= Seq::<
            Seq<char>,
        >::empty());
    } else {
        let init = commands.drop_last();
        assert(valid_commands(init)) by {
            assert forall|i: int| 0 <= i < init.len() implies #[trigger] init[i].len() > 0
                && is_command_path(init[i]) by {
                assert(init[i] == commands[i]);
            }
        }
        lemma_line_entries_plain(init, prefix);
        let x = commands.last();
        assert(x == commands[commands.len() - 1]);
        lemma_trimmed_command(x);
        assert(commands.map_values(|c: Seq<char>| without_prefix(c, prefix)) =~= init.map_values(
            |c: Seq<char>| without_prefix(c, prefix),
        ).push(without_prefix(x, prefix)));
    }
}

/// Law (reading back what was written): the lines of a command list file
/// written for `commands` give back exactly those commands, in order, each
/// without the prefix that the reader removes.
pub proof fn law_command_list_read_back(commands: Seq<Seq<char>>, prefix: Seq<char>)
    requires
        valid_commands(commands),
    ensures
        line_entries(split_at_char(list_text(commands), '\n'), prefix) == commands.map_values(
            |c: Seq<char>| without_prefix(c, prefix),
        ),
{
    lemma_list_text_lines(commands);
    lemma_line_entries_of_commands(commands, prefix);
}

/// Entries that are all valid command paths have no first invalid one.
proof fn lemma_no_invalid(entries: Seq<(Seq<char>, Seq<ComponentModel>)>)
    requires
        forall|i: int| 0 <= i < entries.len() ==> is_command_path(#[trigger] entries[i].0),
    ensures
        first_invalid(entries) is None,
    decreases entries.len(),
{
    if entries.len() > 0 {
        let init = entries.drop_last();
        assert forall|i: int| 0 <= i < init.len() implies is_command_path(#[trigger] init[i].0) by {
            assert(init[i] == entries[i]);
        }
        lemma_no_invalid(init);
        assert(entries.last() == entries[entries.len() - 1]);
    }
}

/// Removing a prefix from a valid command path leaves a valid one.
proof fn lemma_without_prefix_valid(c: Seq<char>, pre: Seq<char>)
    requires
        is_command_path(c),
    ensures
        is_command_path(without_prefix(c, pre)),
{
    if has_prefix(c, pre) {
        assert forall|j: int| 0 <= j < c.skip(pre.len() as int).len() implies is_command_char(
            #[trigger] c.skip(pre.len() as int)[j],
        ) by {
            assert(c.skip(pre.len() as int)[j] == c[j + pre.len()]);
        }
    }
}

/// Law (reading back what was written, whole): reading a directory that
/// holds one command list, written for `commands` and of the kind asked
/// for, gives back those commands without the calling crate's prefix, each
/// once, ordered by function name.
pub proof fn law_written_list_read_back(
    file: ListedFileModel,
    specta_only: bool,
    package: Seq<char>,
    commands: Seq<Seq<char>>,
)
    requires
        is_listing_for(file, specta_only),
        file.content == Some(list_text(commands)),
        valid_commands(commands),
    ensures
        collect_commands_spec(specta_only, package, seq![file]) == Ok::<_, (Seq<char>, Seq<ComponentModel>)>(
            insertion_sort(
                sorted_set(
                    commands.map_values(|c: Seq<char>| without_prefix(c, crate_prefix(package))),
                    by_text(),
                ),
                by_fn_name(),
            ),
        ),
{
    let pre = crate_prefix(package);
    let files = seq![file];
    assert(files.drop_last() =~= Seq::<ListedFileModel>::empty());
    assert(files.last() == file);
    let lt = crate::listing::by_listed_path();
    assert(insertion_sort(files.drop_last(), lt) =~= Seq::<ListedFileModel>::empty());
    assert(crate::order::insert_sorted(Seq::<ListedFileModel>::empty(), file, lt) =~= files);
    assert(insertion_sort(files, lt) =~= files);
    law_command_list_read_back(commands, pre);
    let stripped = commands.map_values(|c: Seq<char>| without_prefix(c, pre));
    let entries = listing_entries(files, specta_only, pre);
    assert(listing_entries(files.drop_last(), specta_only, pre) =~= Seq::<
        (Seq<char>, Seq<ComponentModel>),
    >::empty());
    assert(line_entries(split_at_char(list_text(commands), '\n'), pre) == stripped);
    assert(entries =~= tagged(stripped, file.path));
    assert forall|i: int| 0 <= i < entries.len() implies is_command_path(#[trigger] entries[i].0) by {
        let c = commands[i];
        assert(entries[i].0 == without_prefix(c, pre));
        assert(c.len() > 0 && is_command_path(c));
        lemma_without_prefix_valid(c, pre);
    }
    lemma_no_invalid(entries);
    assert(entries.map_values(|e: (Seq<char>, Seq<ComponentModel>)| e.0) =~= stripped);
}

/// Law (each list reaches its macro): for a crate name that does not itself
/// end in `_specta`, its list of all commands is read when the tauri
/// commands are collected and not for the specta ones, and its specta list
/// the other way round.
pub proof fn law_command_files_routed(dir: Seq<ComponentModel>, crate_name: Seq<char>)
    requires
        crate_name.len() > 0,
        !has_suffix(crate_name, "_specta"@),
    ensures
        has_extension(dir.push(ComponentModel::Normal(command_file_name_spec(crate_name, false))), "txt"@),
        !is_specta_command_file_spec(dir.push(ComponentModel::Normal(command_file_name_spec(crate_name, false)))),
        has_extension(dir.push(ComponentModel::Normal(command_file_name_spec(crate_name, true))), "txt"@),
        is_specta_command_file_spec(dir.push(ComponentModel::Normal(command_file_name_spec(crate_name, true)))),
{
    reveal_strlit(".txt");
    reveal_strlit("_specta.txt");
    reveal_strlit("txt");
    reveal_strlit("_specta");
    let n: int = crate_name.len() as int;
    let tauri = crate_name + ".txt"@;
    let specta = crate_name + "_specta.txt"@;
    assert(".txt"@ =~= seq!['.', 't', 'x', 't']);
    assert("_specta.txt"@ =~= seq!['_', 's', 'p', 'e', 'c', 't', 'a', '.', 't', 'x', 't']);
    assert("txt"@ =~= seq!['t', 'x', 't']);
    assert("_specta"@ =~= seq!['_', 's', 'p', 'e', 'c', 't', 'a']);
    reveal_with_fuel(last_dot, 4);
    assert(tauri.drop_last().drop_last().drop_last() =~= crate_name.push('.'));
    assert(last_dot(tauri) == n);
    assert(tauri != seq!['.', '.']) by {
        assert(tauri.len() >= 5);
    }
    assert(tauri.skip(n + 1) =~= "txt"@);
    assert(tauri.take(n) =~= crate_name);
    assert(file_stem_of(tauri) == crate_name);
    assert(specta.drop_last().drop_last().drop_last() =~= (crate_name + "_specta"@).push('.'));
    assert(last_dot(specta) == n + 7);
    assert(specta != seq!['.', '.']) by {
        assert(specta.len() >= 5);
    }
    assert(specta.skip(n + 8) =~= "txt"@);
    assert(specta.take(n + 7) =~= crate_name + "_specta"@);
    assert((crate_name + "_specta"@).skip(n) =~= "_specta"@);
    let dt = dir.push(ComponentModel::Normal(command_file_name_spec(crate_name, false)));
    let ds = dir.push(ComponentModel::Normal(command_file_name_spec(crate_name, true)));
    assert(dt.last() == ComponentModel::Normal(tauri));
    assert(ds.last() == ComponentModel::Normal(specta));
}

/// Entries with no first invalid one are all valid command paths.
proof fn lemma_all_valid(entries: Seq<(Seq<char>, Seq<ComponentModel>)>)
    requires
        first_invalid(entries) is None,
    ensures
        forall|i: int| 0 <= i < entries.len() ==> is_command_path(#[trigger] entries[i].0),
    decreases entries.len(),
{
    if entries.len() > 0 {
        let init = entries.drop_last();
        lemma_all_valid(init);
        assert forall|i: int| 0 <= i < entries.len() implies is_command_path(#[trigger] entries[i].0) by {
            if i < entries.len() - 1 {
                assert(entries[i] == init[i]);
            }
        }
    }
}

/// Law: the command paths read from the lists are distinct, ordered by
/// function name, valid, and exactly those that the lists name.
pub proof fn law_collected_commands(specta_only: bool, package: Seq<char>, files: Seq<ListedFileModel>)
    ensures
        collect_commands_spec(specta_only, package, files) matches Ok(v) ==> {
            let entries = listing_entries(
                insertion_sort(files, crate::listing::by_listed_path()),
                specta_only,
                crate_prefix(package),
            );
            &&& sorted_by(v, by_fn_name())
            &&& v.no_duplicates()
            &&& forall|i: int| 0 <= i < v.len() ==> is_command_path(#[trigger] v[i])
            &&& forall|x: Seq<char>| #[trigger] v.contains(x) <==> entries.map_values(
                |e: (Seq<char>, Seq<ComponentModel>)| e.0,
            ).contains(x)
        },
{
    broadcast use vstd::seq_lib::group_to_multiset_ensures;

    let entries = listing_entries(
        insertion_sort(files, crate::listing::by_listed_path()),
        specta_only,
        crate_prefix(package),
    );
    if first_invalid(entries) is None {
        let names = entries.map_values(|e: (Seq<char>, Seq<ComponentModel>)| e.0);
        let set = sorted_set(names, by_text());
        let v = insertion_sort(set, by_fn_name());
        lemma_by_text_order();
        lemma_sorted_set_props(names, by_text());
        law_sort_by_fn_name(set);
        assert(set.no_duplicates()) by {
            assert forall|i: int, j: int| 0 <= i < set.len() && 0 <= j < set.len() && i != j implies set[i]
                != set[j] by {
                if i < j {
                    assert((by_text())(set[i], set[j]));
                } else {
                    assert((by_text())(set[j], set[i]));
                }
                if set[i] == set[j] {
                    lemma_chars_lt_irreflexive(set[i]);
                }
            }
        }
        set.lemma_multiset_has_no_duplicates();
        v.lemma_multiset_has_no_duplicates_conv();
        lemma_all_valid(entries);
        assert forall|x: Seq<char>| #[trigger] v.contains(x) <==> names.contains(x) by {
            assert(v.to_multiset().count(x) == set.to_multiset().count(x));
        }
        assert forall|i: int| 0 <= i < v.len() implies is_command_path(#[trigger] v[i]) by {
            assert(v.to_multiset().count(v[i]) > 0);
            assert(set.contains(v[i]));
            assert(names.contains(v[i]));
            let k = choose|k: int| 0 <= k < names.len() && names[k] == v[i];
            assert(names[k] == entries[k].0);
        }
    }
}

/// The commands of a written list as reading it back gives them: each
/// without the prefix of the calling package `package`.
pub open spec fn read_back_commands(commands: Seq<Seq<char>>, package: Seq<char>) -> Seq<
    Seq<char>,
> {
    commands.map_values(|c: Seq<char>| without_prefix(c, crate_prefix(package)))
}

/// The command paths that the lines of the directory entry `f` give.
spec fn file_entries(f: ListedFileModel, pre: Seq<char>) -> Seq<Seq<char>> {
    match f.content {
        Some(c) => line_entries(split_at_char(c, '\n'), pre),
        None => Seq::<Seq<char>>::empty(),
    }
}

/// `f` is a list read for `specta_only` and one of its lines gives `x`.
spec fn lists_command(f: ListedFileModel, specta_only: bool, pre: Seq<char>, x: Seq<char>) -> bool {
    is_listing_for(f, specta_only) && file_entries(f, pre).contains(x)
}

/// When `f` is a list read for `specta_only`, each of its lines gives a
/// valid command path.
spec fn entries_valid(f: ListedFileModel, specta_only: bool, pre: Seq<char>) -> bool {
    is_listing_for(f, specta_only) ==> forall|k: int|
        0 <= k < file_entries(f, pre).len() ==> is_command_path(#[trigger] file_entries(f, pre)[k])
}

/// The command paths read from the lists among `fs`.
spec fn listed_names(fs: Seq<ListedFileModel>, specta_only: bool, pre: Seq<char>) -> Seq<Seq<char>> {
    listing_entries(fs, specta_only, pre).map_values(|e: (Seq<char>, Seq<ComponentModel>)| e.0)
}

/// The entries read from `fs` are those of the lists among them.
proof fn lemma_listing_names(fs: Seq<ListedFileModel>, specta_only: bool, pre: Seq<char>)
    ensures
        forall|x: Seq<char>|
            #[trigger] listed_names(fs, specta_only, pre).contains(x) <==> exists|k: int|
                0 <= k < fs.len() && #[trigger] lists_command(fs[k], specta_only, pre, x),
    decreases fs.len(),
{
    if fs.len() > 0 {
        let init = fs.drop_last();
        let f = fs.last();
        lemma_listing_names(init, specta_only, pre);
        let prev = listing_entries(init, specta_only, pre);
        let pn = listed_names(init, specta_only, pre);
        let names = listed_names(fs, specta_only, pre);
        let le = file_entries(f, pre);
        if is_listing_for(f, specta_only) && f.content is Some {
            assert(names =~= pn + le);
        } else {
            assert(names =~= pn);
        }
        assert forall|x: Seq<char>| #[trigger] names.contains(x) implies exists|k: int|
            0 <= k < fs.len() && #[trigger] lists_command(fs[k], specta_only, pre, x) by {
            let i = choose|i: int| 0 <= i < names.len() && names[i] == x;
            if i < pn.len() {
                assert(pn[i] == x);
                assert(pn.contains(x));
                let k = choose|k: int| 0 <= k < init.len() && #[trigger] lists_command(
                    init[k],
                    specta_only,
                    pre,
                    x,
                );
                assert(fs[k] == init[k]);
            } else {
                assert(le[i - pn.len()] == x);
                assert(lists_command(fs[fs.len() - 1], specta_only, pre, x));
            }
        }
        assert forall|x: Seq<char>|
            exists|k: int| 0 <= k < fs.len() && #[trigger] lists_command(fs[k], specta_only, pre, x)
            implies #[trigger] names.contains(x) by {
            let k = choose|k: int| 0 <= k < fs.len() && #[trigger] lists_command(
                fs[k],
                specta_only,
                pre,
                x,
            );
            if k < init.len() {
                assert(init[k] == fs[k]);
                assert(lists_command(init[k], specta_only, pre, x));
                assert(pn.contains(x));
                let i = choose|i: int| 0 <= i < pn.len() && pn[i] == x;
                assert(names[i] == x);
            } else {
                assert(fs[k] == f);
                let j = choose|j: int| 0 <= j < le.len() && le[j] == x;
                assert(names[pn.len() + j] == x);
            }
        }
    }
}

/// The entries read from `fs` are valid when those of each list are.
proof fn lemma_listing_all_valid(fs: Seq<ListedFileModel>, specta_only: bool, pre: Seq<char>)
    requires
        forall|k: int| 0 <= k < fs.len() ==> #[trigger] entries_valid(fs[k], specta_only, pre),
    ensures
        forall|i: int|
            0 <= i < listing_entries(fs, specta_only, pre).len() ==> is_command_path(
                #[trigger] listing_entries(fs, specta_only, pre)[i].0,
            ),
    decreases fs.len(),
{
    if fs.len() > 0 {
        let init = fs.drop_last();
        let f = fs.last();
        assert forall|k: int| 0 <= k < init.len() implies #[trigger] entries_valid(
            init[k],
            specta_only,
            pre,
        ) by {
            assert(init[k] == fs[k]);
        }
        lemma_listing_all_valid(init, specta_only, pre);
        let prev = listing_entries(init, specta_only, pre);
        let entries = listing_entries(fs, specta_only, pre);
        if is_listing_for(f, specta_only) && f.content is Some {
            let le = file_entries(f, pre);
            assert(entries == prev + tagged(le, f.path));
            assert(entries_valid(fs[fs.len() - 1], specta_only, pre));
            assert forall|i: int| 0 <= i < entries.len() implies is_command_path(
                #[trigger] entries[i].0,
            ) by {
                if i < prev.len() {
                    assert(entries[i] == prev[i]);
                } else {
                    assert(entries[i].0 == le[i - prev.len()]);
                }
            }
        } else {
            assert(entries == prev);
        }
    }
}

/// Law (reading back the written directory): when each list in the command
/// list directory `files` that is read for `specta_only` was written for
/// the commands `lists[i]` (at the same position), reading the directory
/// succeeds and gives each command of those lists, without the calling
/// package's prefix, once, ordered by function name, and nothing else.
pub proof fn law_written_directory_read_back(
    files: Seq<ListedFileModel>,
    lists: Seq<Seq<Seq<char>>>,
    specta_only: bool,
    package: Seq<char>,
)
    requires
        lists.len() == files.len(),
        forall|i: int|
            0 <= i < files.len() && #[trigger] is_listing_for(files[i], specta_only) ==> files[i].content
                == Some(list_text(lists[i])) && valid_commands(lists[i]),
    ensures
        collect_commands_spec(specta_only, package, files) is Ok,
        collect_commands_spec(specta_only, package, files) matches Ok(v) ==> {
            &&& sorted_by(v, by_fn_name())
            &&& v.no_duplicates()
            &&& forall|x: Seq<char>| #[trigger]
                v.contains(x) <==> exists|i: int|
                    0 <= i < files.len() && is_listing_for(files[i], specta_only)
                        && #[trigger] read_back_commands(lists[i], package).contains(x)
        },
{
    broadcast use vstd::seq_lib::group_to_multiset_ensures;

    let pre = crate_prefix(package);
    let lt = crate::listing::by_listed_path();
    let sorted = insertion_sort(files, lt);
    lemma_insertion_sort_multiset(files, lt);
    assert forall|i: int| 0 <= i < files.len() && is_listing_for(files[i], specta_only) implies
        #[trigger] file_entries(files[i], pre) == read_back_commands(lists[i], package) by {
        law_command_list_read_back(lists[i], pre);
    }
    assert forall|i: int| 0 <= i < files.len() implies #[trigger] entries_valid(
        files[i],
        specta_only,
        pre,
    ) by {
        if is_listing_for(files[i], specta_only) {
            let le = file_entries(files[i], pre);
            assert(le == read_back_commands(lists[i], package));
            assert forall|k: int| 0 <= k < le.len() implies is_command_path(#[trigger] le[k]) by {
                assert(lists[i][k].len() > 0 && is_command_path(lists[i][k]));
                lemma_without_prefix_valid(lists[i][k], pre);
            }
        }
    }
    assert forall|k: int| 0 <= k < sorted.len() implies #[trigger] entries_valid(
        sorted[k],
        specta_only,
        pre,
    ) by {
        assert(sorted.to_multiset().count(sorted[k]) > 0);
        assert(files.contains(sorted[k]));
        let i = choose|i: int| 0 <= i < files.len() && files[i] == sorted[k];
        assert(entries_valid(files[i], specta_only, pre));
    }
    let entries = listing_entries(sorted, specta_only, pre);
    lemma_listing_all_valid(sorted, specta_only, pre);
    lemma_no_invalid(entries);
    lemma_listing_names(sorted, specta_only, pre);
    law_collected_commands(specta_only, package, files);
    let v = collect_commands_spec(specta_only, package, files)->Ok_0;
    assert forall|x: Seq<char>| #[trigger] v.contains(x) implies exists|i: int|
        0 <= i < files.len() && is_listing_for(files[i], specta_only)
            && #[trigger] read_back_commands(lists[i], package).contains(x) by {
        let names = entries.map_values(|e: (Seq<char>, Seq<ComponentModel>)| e.0);
        assert(names.contains(x));
        assert(listed_names(sorted, specta_only, pre) == names);
        let k = choose|k: int| 0 <= k < sorted.len() && #[trigger] lists_command(
            sorted[k],
            specta_only,
            pre,
            x,
        );
        assert(sorted.to_multiset().count(sorted[k]) > 0);
        assert(files.contains(sorted[k]));
        let i = choose|i: int| 0 <= i < files.len() && files[i] == sorted[k];
        assert(file_entries(files[i], pre) == read_back_commands(lists[i], package));
    }
    assert forall|x: Seq<char>|
        exists|i: int|
            0 <= i < files.len() && is_listing_for(files[i], specta_only)
                && #[trigger] read_back_commands(lists[i], package).contains(x) implies #[trigger] v.contains(
        x,
    ) by {
        let i = choose|i: int|
            0 <= i < files.len() && is_listing_for(files[i], specta_only)
                && #[trigger] read_back_commands(lists[i], package).contains(x);
        assert(file_entries(files[i], pre) == read_back_commands(lists[i], package));
        assert(lists_command(files[i], specta_only, pre, x));
        assert(files.to_multiset().count(files[i]) > 0);
        assert(sorted.contains(files[i]));
        let k = choose|k: int| 0 <= k < sorted.len() && sorted[k] == files[i];
        assert(lists_command(sorted[k], specta_only, pre, x));
        assert(listed_names(sorted, specta_only, pre).contains(x));
        let names = entries.map_values(|e: (Seq<char>, Seq<ComponentModel>)| e.0);
        assert(listed_names(sorted, specta_only, pre) == names);
        assert(names.contains(x));
    }
}

/// A scanned crate: its package name and the commands found in its sources.
pub type ScannedCrate = (Seq<char>, Seq<CommandModel>);

/// The list file of kind `specta` that writing the lists of `krate` into
/// `dir` leaves: the file that `command_files` names, holding its text.
pub open spec fn written_file(dir: Seq<ComponentModel>, krate: ScannedCrate, specta: bool) -> ListedFileModel {
    let files = command_files_spec(
        replace_char_spec(krate.0, '-', '_'),
        command_list_spec(full_paths(krate.0, krate.1)),
        command_list_spec(specta_full_paths(krate.0, krate.1)),
    );
    let f = if specta {
        files[1]
    } else {
        files[0]
    };
    ListedFileModel {
        path: dir.push(ComponentModel::Normal(f.name)),
        is_file: true,
        content: Some(f.content),
    }
}

/// The command list directory `dir` after the lists of each of `crates`
/// were written there: for each crate, its list of all commands and then
/// its specta list.
pub open spec fn written_directory(dir: Seq<ComponentModel>, crates: Seq<ScannedCrate>) -> Seq<
    ListedFileModel,
> {
    Seq::new(2 * crates.len(), |i: int| written_file(dir, crates[i / 2], i % 2 == 1))
}

/// The crate name of `krate` is a non-empty valid command path that does
/// not end in `_specta`, and each of its command paths is a valid command
/// path (as they are when module and function names are ASCII identifiers).
pub open spec fn well_named(krate: ScannedCrate) -> bool {
    let name = replace_char_spec(krate.0, '-', '_');
    &&& name.len() > 0
    &&& !has_suffix(name, "_specta"@)
    &&& is_command_path(name)
    &&& forall|j: int| 0 <= j < krate.1.len() ==> is_command_path(#[trigger] krate.1[j].path)
}

/// Law (from the scan to the macro): when the lists of the scanned crates
/// `crates` were written into the command list directory and nothing else
/// is there, reading it for `specta_only` from package `package` succeeds
/// and gives, each once and ordered by function name, exactly the full
/// paths of the crates' commands (only those carrying `#[specta::specta]`
/// when `specta_only`), each without the prefix of `package`.
pub proof fn law_scan_to_macro(
    dir: Seq<ComponentModel>,
    crates: Seq<ScannedCrate>,
    specta_only: bool,
    package: Seq<char>,
)
    requires
        forall|k: int| 0 <= k < crates.len() ==> #[trigger] well_named(crates[k]),
    ensures
        collect_commands_spec(specta_only, package, written_directory(dir, crates)) is Ok,
        collect_commands_spec(specta_only, package, written_directory(dir, crates)) matches Ok(v)
            ==> {
            &&& sorted_by(v, by_fn_name())
            &&& v.no_duplicates()
            &&& forall|x: Seq<char>| #[trigger]
                v.contains(x) <==> exists|k: int, j: int|
                    0 <= k < crates.len() && 0 <= j < crates[k].1.len() && (specta_only
                        ==> crates[k].1[j].specta) && x == without_prefix(
                        full_command_path_spec(crates[k].0, #[trigger] crates[k].1[j].path),
                        crate_prefix(package),
                    )
        },
{
    let files = written_directory(dir, crates);
    let n = crates.len();
    let lists = Seq::new(
        2 * n,
        |i: int| command_list_spec(kind_paths(crates[i / 2].0, crates[i / 2].1, i % 2 == 1)),
    );
    let pre = crate_prefix(package);
    assert forall|i: int| 0 <= i < files.len() implies {
        &&& files[i].content == Some(list_text(lists[i]))
        &&& valid_commands(lists[i])
        &&& (#[trigger] is_listing_for(files[i], specta_only) <==> (i % 2 == 1) == specta_only)
    } by {
        let k = i / 2;
        let krate = crates[k];
        assert(well_named(crates[k]));
        let name = replace_char_spec(krate.0, '-', '_');
        law_member_lists_valid(krate.0, krate.1);
        law_command_files_routed(dir, name);
        assert(files[i] == written_file(dir, krate, i % 2 == 1));
    }
    law_written_directory_read_back(files, lists, specta_only, package);
    let v = collect_commands_spec(specta_only, package, files)->Ok_0;
    assert forall|x: Seq<char>| #[trigger] v.contains(x) implies exists|k: int, j: int|
        0 <= k < crates.len() && 0 <= j < crates[k].1.len() && (specta_only
            ==> crates[k].1[j].specta) && x == without_prefix(
            full_command_path_spec(crates[k].0, #[trigger] crates[k].1[j].path),
            pre,
        ) by {
        let i = choose|i: int|
            0 <= i < files.len() && is_listing_for(files[i], specta_only)
                && #[trigger] read_back_commands(lists[i], package).contains(x);
        let k = i / 2;
        assert(i % 2 == 1 <==> specta_only);
        let paths = kind_paths(crates[k].0, crates[k].1, specta_only);
        assert(lists[i] == command_list_spec(paths));
        let rb = read_back_commands(lists[i], package);
        let m = choose|m: int| 0 <= m < rb.len() && rb[m] == x;
        let y = lists[i][m];
        assert(x == without_prefix(y, pre));
        law_command_list(paths);
        assert(lists[i].contains(y));
        assert(paths.contains(y));
        lemma_kind_paths_contain(crates[k].0, crates[k].1, specta_only, y);
        let j = choose|j: int|
            0 <= j < crates[k].1.len() && (specta_only ==> crates[k].1[j].specta) && y
                == full_command_path_spec(crates[k].0, #[trigger] crates[k].1[j].path);
        assert(0 <= k < crates.len());
    }
    assert forall|x: Seq<char>|
        exists|k: int, j: int|
            0 <= k < crates.len() && 0 <= j < crates[k].1.len() && (specta_only
                ==> crates[k].1[j].specta) && x == without_prefix(
                full_command_path_spec(crates[k].0, #[trigger] crates[k].1[j].path),
                pre,
            ) implies #[trigger] v.contains(x) by {
        let (k, j) = choose|k: int, j: int|
            0 <= k < crates.len() && 0 <= j < crates[k].1.len() && (specta_only
                ==> crates[k].1[j].specta) && x == without_prefix(
                full_command_path_spec(crates[k].0, #[trigger] crates[k].1[j].path),
                pre,
            );
        let i = if specta_only {
            2 * k + 1
        } else {
            2 * k
        };
        assert(i / 2 == k && (i % 2 == 1) == specta_only);
        let paths = kind_paths(crates[k].0, crates[k].1, specta_only);
        let y = full_command_path_spec(crates[k].0, crates[k].1[j].path);
        lemma_kind_paths_contain(crates[k].0, crates[k].1, specta_only, y);
        assert(paths.contains(y));
        law_command_list(paths);
        assert(lists[i] == command_list_spec(paths));
        assert(lists[i].contains(y));
        let m = choose|m: int| 0 <= m < lists[i].len() && lists[i][m] == y;
        let rb = read_back_commands(lists[i], package);
        assert(rb[m] == x);
        assert(rb.contains(x));
        assert(is_listing_for(files[i], specta_only));
    }
}

/// Ordering source files by path is a strict weak order.
pub proof fn lemma_by_path_order()
    ensures
        strict_weak_order(by_path()),
{
    let lt = by_path();
    assert forall|a: SourceFileModel, b: SourceFileModel| #[trigger] lt(a, b) implies !lt(b, a) by {
        lemma_path_lt_asymmetric(a.path, b.path);
    }
    assert forall|a: SourceFileModel, b: SourceFileModel, c: SourceFileModel|
        #![trigger lt(a, b), lt(b, c)]
        #![trigger lt(a, c), lt(a, b)]
        #![trigger lt(a, c), lt(b, c)]
        !lt(a, b) && !lt(b, c) implies !lt(a, c) by {
        lemma_path_lt_total(a.path, b.path);
        lemma_path_lt_total(b.path, c.path);
        if path_lt(a.path, c.path) {
            lemma_path_lt_asymmetric(a.path, c.path);
            if a.path != b.path && b.path != c.path {
                lemma_path_lt_transitive(c.path, b.path, a.path);
            }
        }
    }
}

/// No two of the files share a path.
pub open spec fn distinct_paths(s: Seq<SourceFileModel>) -> bool {
    forall|i: int, j: int| 0 <= i < j < s.len() ==> #[trigger] s[i].path != #[trigger] s[j].path
}

/// The files kept are files of `s`, no two share a path, and every path of
/// `s` is kept.
proof fn lemma_first_of_each_path(s: Seq<SourceFileModel>)
    ensures
        distinct_paths(first_of_each_path(s)),
        forall|f: SourceFileModel| #[trigger] first_of_each_path(s).contains(f) ==> s.contains(f),
        forall|i: int|
            0 <= i < s.len() ==> exists|k: int|
                0 <= k < first_of_each_path(s).len() && #[trigger] first_of_each_path(s)[k].path
                    == #[trigger] s[i].path,
    decreases s.len(),
{
    if s.len() > 0 {
        let init = s.drop_last();
        lemma_first_of_each_path(init);
        let prev = first_of_each_path(init);
        let x = s.last();
        let r = first_of_each_path(s);
        let seen = exists|j: int| 0 <= j < s.len() - 1 && #[trigger] s[j].path == s.last().path;
        assert forall|f: SourceFileModel| #[trigger] r.contains(f) implies s.contains(f) by {
            let k = choose|k: int| 0 <= k < r.len() && r[k] == f;
            if k < prev.len() {
                assert(prev[k] == f);
                assert(prev.contains(f));
                let m = choose|m: int| 0 <= m < init.len() && init[m] == f;
                assert(s[m] == f);
            } else {
                assert(s[s.len() - 1] == f);
            }
        }
        if !seen {
            assert forall|i: int, j: int| 0 <= i < j < r.len() implies #[trigger] r[i].path
                != #[trigger] r[j].path by {
                if j == prev.len() {
                    assert(r[i] == prev[i]);
                    assert(prev.contains(prev[i]));
                    let m = choose|m: int| 0 <= m < init.len() && init[m] == prev[i];
                    assert(s[m] == prev[i]);
                } else {
                    assert(r[i] == prev[i] && r[j] == prev[j]);
                }
            }
        }
        assert forall|i: int| 0 <= i < s.len() implies exists|k: int|
            0 <= k < r.len() && #[trigger] r[k].path == #[trigger] s[i].path by {
            if i < s.len() - 1 {
                assert(s[i] == init[i]);
                let k = choose|k: int| 0 <= k < prev.len() && #[trigger] prev[k].path == init[i].path;
                assert(r[k] == prev[k]);
                assert(r[k].path == s[i].path);
            } else if seen {
                let j = choose|j: int| 0 <= j < s.len() - 1 && #[trigger] s[j].path == s.last().path;
                assert(s[j] == init[j]);
                let k = choose|k: int| 0 <= k < prev.len() && #[trigger] prev[k].path == init[j].path;
                assert(r[k] == prev[k]);
                assert(r[k].path == s[i].path);
            } else {
                assert(r[prev.len() as int] == x);
                assert(r[prev.len() as int].path == s[i].path);
            }
        }
    }
}

/// Inserting a file whose path is new keeps the paths distinct.
proof fn lemma_insert_distinct_paths(s: Seq<SourceFileModel>, x: SourceFileModel)
    requires
        distinct_paths(s),
        forall|k: int| 0 <= k < s.len() ==> #[trigger] s[k].path != x.path,
    ensures
        distinct_paths(insert_sorted(s, x, by_path())),
    decreases s.len(),
{
    broadcast use vstd::seq_lib::group_to_multiset_ensures;

    let lt = by_path();
    let r = insert_sorted(s, x, lt);
    if s.len() == 0 {
    } else if lt(x, s[0]) {
        assert forall|i: int, j: int| 0 <= i < j < r.len() implies #[trigger] r[i].path
            != #[trigger] r[j].path by {
            if i == 0 {
                assert(r[j] == s[j - 1]);
            } else {
                assert(r[j] == s[j - 1] && r[i] == s[i - 1]);
            }
        }
    } else {
        let rest = s.drop_first();
        assert(distinct_paths(rest)) by {
            assert forall|i: int, j: int| 0 <= i < j < rest.len() implies #[trigger] rest[i].path
                != #[trigger] rest[j].path by {
                assert(rest[i] == s[i + 1] && rest[j] == s[j + 1]);
            }
        }
        assert forall|k: int| 0 <= k < rest.len() implies #[trigger] rest[k].path != x.path by {
            assert(rest[k] == s[k + 1]);
        }
        lemma_insert_distinct_paths(rest, x);
        let t = insert_sorted(rest, x, lt);
        crate::order::lemma_insert_sorted_multiset(rest, x, lt);
        assert forall|i: int, j: int| 0 <= i < j < r.len() implies #[trigger] r[i].path
            != #[trigger] r[j].path by {
            if i == 0 {
                let e = t[j - 1];
                assert(r[j] == e);
                assert(t.to_multiset().count(e) > 0);
                if e != x {
                    assert(rest.to_multiset().count(e) > 0);
                    assert(rest.contains(e));
                    let k = choose|k: int| 0 <= k < rest.len() && rest[k] == e;
                    assert(s[k + 1] == e);
                }
            } else {
                assert(r[j] == t[j - 1] && r[i] == t[i - 1]);
            }
        }
    }
}

/// Sorting files with distinct paths keeps them distinct.
proof fn lemma_sort_distinct_paths(s: Seq<SourceFileModel>)
    requires
        distinct_paths(s),
    ensures
        distinct_paths(insertion_sort(s, by_path())),
    decreases s.len(),
{
    broadcast use vstd::seq_lib::group_to_multiset_ensures;

    if s.len() > 0 {
        let init = s.drop_last();
        assert(distinct_paths(init)) by {
            assert forall|i: int, j: int| 0 <= i < j < init.len() implies #[trigger] init[i].path
                != #[trigger] init[j].path by {
                assert(init[i] == s[i] && init[j] == s[j]);
            }
        }
        lemma_sort_distinct_paths(init);
        let sorted = insertion_sort(init, by_path());
        crate::order::lemma_insertion_sort_multiset(init, by_path());
        assert forall|k: int| 0 <= k < sorted.len() implies #[trigger] sorted[k].path
            != s.last().path by {
            let e = sorted[k];
            assert(sorted.to_multiset().count(e) > 0);
            assert(init.contains(e));
            let m = choose|m: int| 0 <= m < init.len() && init[m] == e;
            assert(s[m] == e);
            assert(s[s.len() - 1] == s.last());
        }
        lemma_insert_distinct_paths(sorted, s.last());
    }
}

/// Law: the source files scanned for a crate are each scanned once: after
/// repeated paths are dropped and the rest ordered, no two share a path,
/// every path found is still there, nothing else is, and they come in path
/// order.
pub proof fn law_source_files_scanned_once(files: Seq<SourceFileModel>)
    ensures
        distinct_paths(insertion_sort(first_of_each_path(files), by_path())),
        sorted_by(insertion_sort(first_of_each_path(files), by_path()), by_path()),
        forall|i: int|
            0 <= i < files.len() ==> exists|k: int|
                0 <= k < insertion_sort(first_of_each_path(files), by_path()).len()
                    && #[trigger] insertion_sort(first_of_each_path(files), by_path())[k].path
                    == #[trigger] files[i].path,
        forall|f: SourceFileModel|
            #[trigger] insertion_sort(first_of_each_path(files), by_path()).contains(f)
                ==> files.contains(f),
{
    broadcast use vstd::seq_lib::group_to_multiset_ensures;

    let u = first_of_each_path(files);
    let r = insertion_sort(u, by_path());
    lemma_first_of_each_path(files);
    lemma_sort_distinct_paths(u);
    lemma_by_path_order();
    lemma_insertion_sort_sorted(u, by_path());
    crate::order::lemma_insertion_sort_multiset(u, by_path());
    assert forall|i: int| 0 <= i < files.len() implies exists|k: int|
        0 <= k < r.len() && #[trigger] r[k].path == #[trigger] files[i].path by {
        let k = choose|k: int| 0 <= k < u.len() && #[trigger] u[k].path == files[i].path;
        assert(u.to_multiset().count(u[k]) > 0);
        assert(r.to_multiset().count(u[k]) > 0);
        assert(r.contains(u[k]));
        let m = choose|m: int| 0 <= m < r.len() && r[m] == u[k];
        assert(r[m].path == files[i].path);
    }
    assert forall|f: SourceFileModel| #[trigger] r.contains(f) implies files.contains(f) by {
        assert(r.to_multiset().count(f) > 0);
        assert(u.contains(f));
    }
}

} // verus!
