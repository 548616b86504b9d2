//! The command lists written for each crate: full command paths, ordered by
//! function name, without repetition, and their text.
use vstd::prelude::*;
use crate::order::{
    dedup_adjacent, insert_sorted, insert_unique, insertion_sort, lemma_insert_sorted_at,
    lemma_insert_unique_at, lemma_insert_unique_present, sorted_set,
};
use crate::rust_source::{parses_as_rust_path, rust_path_parses};
use crate::scan::{CollectedCommand, CommandModel};
use crate::text::{
    append_chars, chars_less, chars_lt, chars_of, fn_name, fn_name_of, replace_char,
    replace_char_spec, string_of,
};

verus! {

/// Command paths ordered by the name of the function they end in.
pub open spec fn by_fn_name() -> spec_fn(Seq<char>, Seq<char>) -> bool {
    |a: Seq<char>, b: Seq<char>| chars_lt(fn_name_of(a), fn_name_of(b))
}

/// Texts in code point order, the order of `String`.
pub open spec fn by_text() -> spec_fn(Seq<char>, Seq<char>) -> bool {
    |a: Seq<char>, b: Seq<char>| chars_lt(a, b)
}

fn insert_by_fn_name(r: &mut Vec<String>, x: String)
    ensures
        final(r).deep_view() == insert_sorted(old(r).deep_view(), x@, by_fn_name()),
{
    let ghost old_r = r.deep_view();
    let xk = fn_name(&chars_of(x.as_str()));
    let mut p: usize = 0;
    while p < r.len() && !chars_less(&xk, &fn_name(&chars_of(r[p].as_str())))
        invariant
            old_r == r.deep_view(),
            p <= r@.len(),
            xk@ == fn_name_of(x@),
            forall|j: int| 0 <= j < p ==> !(by_fn_name())(x@, #[trigger] old_r[j]),
        decreases r@.len() - p,
    {
        assert(old_r[p as int] == r@[p as int]@);
        p = p + 1;
    }
    proof {
        if p < r@.len() {
            assert(old_r[p as int] == r@[p as int]@);
        }
        lemma_insert_sorted_at(old_r, x@, by_fn_name(), p as int);
    }
    let ghost xv = x@;
    r.insert(p, x);
    assert(r.deep_view() =~= old_r.take(p as int) + seq![xv] + old_r.skip(p as int));
}

/// Orders `commands` by the name of the function each ends in (the text
/// after its last `::`), keeping the relative order of commands whose
/// function names are equal (a stable sort).
pub fn sort_by_fn_name(commands: &mut Vec<String>)
    ensures
        final(commands).deep_view() == insertion_sort(old(commands).deep_view(), by_fn_name()),
{
    let ghost start = commands.deep_view();
    let mut sorted: Vec<String> = Vec::new();
    let mut i: usize = 0;
    while i < commands.len()
        invariant
            start == commands.deep_view(),
            i <= commands@.len(),
            sorted.deep_view() == insertion_sort(start.take(i as int), by_fn_name()),
        decreases commands@.len() - i,
    {
        assert(start.take(i + 1).drop_last() =~= start.take(i as int));
        assert(start.take(i + 1).last() == commands@[i as int]@);
        let x = commands[i].clone();
        insert_by_fn_name(&mut sorted, x);
        i = i + 1;
    }
    assert(start.take(commands@.len() as int) =~= start);
    *commands = sorted;
}

/// Removes from `commands` every entry equal to the one before it.
pub fn dedup_commands(commands: &mut Vec<String>)
    ensures
        final(commands).deep_view() == dedup_adjacent(old(commands).deep_view()),
{
    let ghost start = commands.deep_view();
    let mut kept: Vec<String> = Vec::new();
    let mut i: usize = 0;
    while i < commands.len()
        invariant
            start == commands.deep_view(),
            i <= commands@.len(),
            kept@.len() == kept.deep_view().len(),
            kept.deep_view() == dedup_adjacent(start.take(i as int)),
        decreases commands@.len() - i,
    {
        let ghost t = start.take(i + 1);
        assert(t.drop_last() =~= start.take(i as int));
        assert(t.last() == commands@[i as int]@);
        if i == 0 || commands[i] != commands[i - 1] {
            if i > 0 {
                assert(t[t.len() - 2] == commands@[i - 1]@);
            }
            let ghost before = kept.deep_view();
            kept.push(commands[i].clone());
            assert(kept.deep_view() =~= before.push(commands@[i as int]@));
            if i == 0 {
                assert(t =~= seq![commands@[0]@]);
            }
        } else {
            assert(t[t.len() - 2] == commands@[i - 1]@);
        }
        i = i + 1;
    }
    assert(start.take(commands@.len() as int) =~= start);
    *commands = kept;
}

fn insert_by_text(r: &mut Vec<String>, x: String)
    ensures
        final(r).deep_view() == insert_unique(old(r).deep_view(), x@, by_text()),
{
    let ghost old_r = r.deep_view();
    let xc = chars_of(x.as_str());
    let mut p: usize = 0;
    while p < r.len() && chars_less(&chars_of(r[p].as_str()), &xc)
        invariant
            old_r == r.deep_view(),
            p <= r@.len(),
            xc@ == x@,
            forall|j: int| 0 <= j < p ==> chars_lt(#[trigger] old_r[j], x@),
        decreases r@.len() - p,
    {
        assert(old_r[p as int] == r@[p as int]@);
        p = p + 1;
    }
    proof {
        crate::text::lemma_chars_lt_asymmetric_all(old_r, x@, p as int);
    }
    if p < r.len() && r[p] == x {
        proof {
            assert(old_r[p as int] == r@[p as int]@);
            lemma_insert_unique_present(old_r, x@, by_text(), p as int);
        }
        return;
    }
    proof {
        if p < r@.len() {
            assert(old_r[p as int] == r@[p as int]@);
            crate::text::lemma_chars_lt_total(x@, old_r[p as int]);
        }
        lemma_insert_unique_at(old_r, x@, by_text(), p as int);
    }
    let ghost xv = x@;
    r.insert(p, x);
    assert(r.deep_view() =~= old_r.take(p as int) + seq![xv] + old_r.skip(p as int));
}

/// The distinct entries of `items` in ascending text order, as a
/// `BTreeSet<String>` built from them yields them.
pub fn sorted_unique(items: &Vec<String>) -> (r: Vec<String>)
    ensures
        r.deep_view() == sorted_set(items.deep_view(), by_text()),
{
    let ghost start = items.deep_view();
    let mut set: Vec<String> = Vec::new();
    let mut i: usize = 0;
    while i < items.len()
        invariant
            start == items.deep_view(),
            i <= items@.len(),
            set.deep_view() == sorted_set(start.take(i as int), by_text()),
        decreases items@.len() - i,
    {
        assert(start.take(i + 1).drop_last() =~= start.take(i as int));
        assert(start.take(i + 1).last() == items@[i as int]@);
        insert_by_text(&mut set, items[i].clone());
        i = i + 1;
    }
    assert(start.take(items@.len() as int) =~= start);
    set
}

/// The full path of a command: the package name with `-` read as `_`,
/// `::`, and the command's path within the crate.
pub open spec fn full_command_path_spec(package: Seq<char>, command: Seq<char>) -> Seq<char> {
    replace_char_spec(package, '-', '_') + "::"@ + command
}

/// The full path of the command `command_path` of package `package_name`.
pub fn full_command_path(package_name: &str, command_path: &str) -> (r: String)
    ensures
        r@ == full_command_path_spec(package_name@, command_path@),
{
    let mut out = replace_char(&chars_of(package_name), '-', '_');
    append_chars(&mut out, &chars_of("::"));
    append_chars(&mut out, &chars_of(command_path));
    string_of(&out)
}

/// The text of a command list file: each command followed by a newline.
pub open spec fn list_text(commands: Seq<Seq<char>>) -> Seq<char>
    decreases commands.len(),
{
    if commands.len() == 0 {
        Seq::<char>::empty()
    } else {
        list_text(commands.drop_last()) + commands.last() + seq!['\n']
    }
}

/// The text written to a command list file for `commands`.
pub fn command_list_text(commands: &Vec<String>) -> (r: String)
    ensures
        r@ == list_text(commands.deep_view()),
{
    let ghost start = commands.deep_view();
    let mut out: Vec<char> = Vec::new();
    let mut i: usize = 0;
    while i < commands.len()
        invariant
            start == commands.deep_view(),
            i <= commands@.len(),
            out@ == list_text(start.take(i as int)),
        decreases commands@.len() - i,
    {
        assert(start.take(i + 1).drop_last() =~= start.take(i as int));
        assert(start.take(i + 1).last() == commands@[i as int]@);
        append_chars(&mut out, &chars_of(commands[i].as_str()));
        out.push('\n');
        i = i + 1;
    }
    assert(start.take(commands@.len() as int) =~= start);
    string_of(&out)
}

/// The full paths of `cmds` of package `package`, in order.
pub open spec fn full_paths(package: Seq<char>, cmds: Seq<CommandModel>) -> Seq<Seq<char>>
    decreases cmds.len(),
{
    if cmds.len() == 0 {
        Seq::<Seq<char>>::empty()
    } else {
        full_paths(package, cmds.drop_last()).push(
            full_command_path_spec(package, cmds.last().path),
        )
    }
}

/// The full paths of those of `cmds` that carry `#[specta::specta]`.
pub open spec fn specta_full_paths(package: Seq<char>, cmds: Seq<CommandModel>) -> Seq<Seq<char>>
    decreases cmds.len(),
{
    if cmds.len() == 0 {
        Seq::<Seq<char>>::empty()
    } else {
        let prev = specta_full_paths(package, cmds.drop_last());
        if cmds.last().specta {
            prev.push(full_command_path_spec(package, cmds.last().path))
        } else {
            prev
        }
    }
}

/// A list of command paths as written to a file: ordered by function name,
/// stably, and without an entry equal to the one before it.
pub open spec fn command_list_spec(paths: Seq<Seq<char>>) -> Seq<Seq<char>> {
    dedup_adjacent(insertion_sort(paths, by_fn_name()))
}

/// The command lists of one crate: `tauri_commands` for the invoke handler,
/// `specta_commands` for the TypeScript bindings, both as full paths.
#[derive(Debug, Clone)]
pub struct MemberCommandFiles {
    pub crate_name: String,
    pub tauri_commands: Vec<String>,
    pub specta_commands: Vec<String>,
}

/// The command lists of the package `package_name` whose sources define
/// `commands`. Both lists are given for every crate, empty ones included, so
/// that both of its files are written and a list from an earlier build never
/// stays behind. The crate name is the package name with `-` read as `_`; the
/// specta list holds the commands that carry `#[specta::specta]`.
pub fn member_command_files(package_name: &str, commands: &Vec<CollectedCommand>) -> (r:
    MemberCommandFiles)
    ensures
        r.crate_name@ == replace_char_spec(package_name@, '-', '_'),
        r.tauri_commands.deep_view() == command_list_spec(
            full_paths(package_name@, commands.deep_view()),
        ),
        r.specta_commands.deep_view() == command_list_spec(
            specta_full_paths(package_name@, commands.deep_view()),
        ),
{
    let ghost cm = commands.deep_view();
    let mut tauri: Vec<String> = Vec::new();
    let mut specta: Vec<String> = Vec::new();
    let mut i: usize = 0;
    while i < commands.len()
        invariant
            cm == commands.deep_view(),
            i <= commands@.len(),
            tauri@.len() == tauri.deep_view().len(),
            specta@.len() == specta.deep_view().len(),
            tauri.deep_view() == full_paths(package_name@, cm.take(i as int)),
            specta.deep_view() == specta_full_paths(package_name@, cm.take(i as int)),
        decreases commands@.len() - i,
    {
        assert(cm.take(i + 1).drop_last() =~= cm.take(i as int));
        assert(cm.take(i + 1).last() == commands@[i as int].deep_view());
        let full = full_command_path(package_name, commands[i].path.as_str());
        if commands[i].specta {
            let ghost before = specta.deep_view();
            specta.push(full.clone());
            assert(specta.deep_view() =~= before.push(full@));
        }
        let ghost before = tauri.deep_view();
        tauri.push(full);
        assert(tauri.deep_view() =~= before.push(full@));
        i = i + 1;
    }
    assert(cm.take(commands@.len() as int) =~= cm);
    sort_by_fn_name(&mut tauri);
    dedup_commands(&mut tauri);
    sort_by_fn_name(&mut specta);
    dedup_commands(&mut specta);
    let crate_name = string_of(&replace_char(&chars_of(package_name), '-', '_'));
    MemberCommandFiles { crate_name, tauri_commands: tauri, specta_commands: specta }
}

/// The position of the first of `commands` that is not a Rust path, or
/// `None` when each of them is one. A command list is turned into code only
/// when this is `None`; otherwise the command at that position is reported.
pub fn first_unparsable_command(commands: &Vec<String>) -> (r: Option<usize>)
    ensures
        r is None <==> forall|j: int|
            0 <= j < commands@.len() ==> #[trigger] rust_path_parses(commands@[j]@),
        r matches Some(k) ==> {
            &&& k < commands@.len()
            &&& !rust_path_parses(commands@[k as int]@)
            &&& forall|j: int| 0 <= j < k ==> #[trigger] rust_path_parses(commands@[j]@)
        },
{
    let mut i: usize = 0;
    while i < commands.len()
        invariant
            i <= commands@.len(),
            forall|j: int| 0 <= j < i ==> #[trigger] rust_path_parses(commands@[j]@),
        decreases commands@.len() - i,
    {
        if !parses_as_rust_path(commands[i].as_str()) {
            return Some(i);
        }
        i = i + 1;
    }
    None
}

/// The name of a crate's command list file: `{crate}.txt`, or
/// `{crate}_specta.txt` for the specta list.
pub open spec fn command_file_name_spec(crate_name: Seq<char>, specta: bool) -> Seq<char> {
    if specta {
        crate_name + "_specta.txt"@
    } else {
        crate_name + ".txt"@
    }
}

/// The name of the file that holds the tauri (or, with `specta`, the specta)
/// command list of crate `crate_name`.
pub fn command_file_name(crate_name: &str, specta: bool) -> (r: String)
    ensures
        r@ == command_file_name_spec(crate_name@, specta),
{
    let mut out = chars_of(crate_name);
    if specta {
        append_chars(&mut out, &chars_of("_specta.txt"));
    } else {
        append_chars(&mut out, &chars_of(".txt"));
    }
    string_of(&out)
}

/// A file to write into the command list directory: its name and its text.
#[derive(Debug, Clone)]
pub struct CommandFile {
    pub name: String,
    pub content: String,
}

/// The mathematical value of a `CommandFile`.
pub struct CommandFileModel {
    pub name: Seq<char>,
    pub content: Seq<char>,
}

impl DeepView for CommandFile {
    type V = CommandFileModel;

    open spec fn deep_view(&self) -> CommandFileModel {
        CommandFileModel { name: self.name@, content: self.content@ }
    }
}

/// The files that hold the lists of crate `crate_name`: `{crate}.txt` with
/// the list `tauri` and `{crate}_specta.txt` with the list `specta`.
pub open spec fn command_files_spec(
    crate_name: Seq<char>,
    tauri: Seq<Seq<char>>,
    specta: Seq<Seq<char>>,
) -> Seq<CommandFileModel> {
    seq![
        CommandFileModel { name: command_file_name_spec(crate_name, false), content: list_text(tauri) },
        CommandFileModel { name: command_file_name_spec(crate_name, true), content: list_text(specta) },
    ]
}

/// The files to write for a crate's lists `lists`: both of them, for every
/// crate, an empty list included, so that a list written by an earlier
/// build never stays behind.
pub fn command_files(lists: &MemberCommandFiles) -> (r: Vec<CommandFile>)
    ensures
        r.deep_view() == command_files_spec(
            lists.crate_name@,
            lists.tauri_commands.deep_view(),
            lists.specta_commands.deep_view(),
        ),
{
    let tauri = CommandFile {
        name: command_file_name(lists.crate_name.as_str(), false),
        content: command_list_text(&lists.tauri_commands),
    };
    let specta = CommandFile {
        name: command_file_name(lists.crate_name.as_str(), true),
        content: command_list_text(&lists.specta_commands),
    };
    let r = vec![tauri, specta];
    assert(r.deep_view() =~= command_files_spec(
        lists.crate_name@,
        lists.tauri_commands.deep_view(),
        lists.specta_commands.deep_view(),
    ));
    r
}

/// One FNV-1a 64-bit step.
pub open spec fn fnv1a_step(hash: u64, byte: u8) -> u64 {
    (hash ^ (byte as u64)).wrapping_mul(0x100000001b3u64)
}

/// The FNV-1a 64-bit hash of `bytes`.
pub open spec fn fnv1a(bytes: Seq<u8>) -> u64
    decreases bytes.len(),
{
    if bytes.len() == 0 {
        0xcbf29ce484222325u64
    } else {
        fnv1a_step(fnv1a(bytes.drop_last()), bytes.last())
    }
}

/// The FNV-1a 64-bit hash of the UTF-8 bytes of `input`.
pub fn simple_fingerprint(input: &str) -> (r: u64)
    ensures
        r == fnv1a(vstd::utf8::encode_utf8(input@)),
{
    let bytes = input.as_bytes();
    let mut hash: u64 = 0xcbf29ce484222325u64;
    let mut i: usize = 0;
    while i < bytes.len()
        invariant
            bytes@ == vstd::utf8::encode_utf8(input@),
            i <= bytes@.len(),
            hash == fnv1a(bytes@.take(i as int)),
        decreases bytes@.len() - i,
    {
        assert(bytes@.take(i + 1).drop_last() =~= bytes@.take(i as int));
        hash = hash ^ (bytes[i] as u64);
        hash = hash.wrapping_mul(0x100000001b3u64);
        i = i + 1;
    }
    assert(bytes@.take(bytes@.len() as int) =~= bytes@);
    hash
}

} // verus!
