//! Reading the generated command list files back: which files hold the
//! commands asked for, and the command paths they list.
use vstd::prelude::*;
use crate::commands::{
    by_fn_name, by_text, fnv1a, simple_fingerprint, sort_by_fn_name, sorted_unique,
};
use crate::order::{insert_sorted, insertion_sort, lemma_insert_sorted_at, sorted_set};
use crate::path::{
    copy_components, file_name, file_name_of, file_stem, file_stem_of, has_extension,
    path_has_extension, path_less, path_lt, path_model, ComponentModel, PathComponent,
};
use crate::text::{
    append_chars, chars_of, chars_views, ends_with, has_suffix, replace_char, replace_char_spec,
    split_at_char, split_chars, string_of, strip_prefix_or_keep, trim, trimmed, without_prefix,
};

verus! {

/// An entry of the command list directory: its path, whether it is a
/// regular file, and its text (`None` when it could not be read).
#[derive(Debug, Clone)]
pub struct ListedFile {
    pub path: Vec<PathComponent>,
    pub is_file: bool,
    pub content: Option<String>,
}

/// The mathematical value of a `ListedFile`.
pub struct ListedFileModel {
    pub path: Seq<ComponentModel>,
    pub is_file: bool,
    pub content: Option<Seq<char>>,
}

impl DeepView for ListedFile {
    type V = ListedFileModel;

    open spec fn deep_view(&self) -> ListedFileModel {
        ListedFileModel {
            path: path_model(self.path@),
            is_file: self.is_file,
            content: self.content.deep_view(),
        }
    }
}

/// Directory entries ordered by path.
pub open spec fn by_listed_path() -> spec_fn(ListedFileModel, ListedFileModel) -> bool {
    |a: ListedFileModel, b: ListedFileModel| path_lt(a.path, b.path)
}

fn copy_listed_file(f: &ListedFile) -> (r: ListedFile)
    ensures
        r.deep_view() == f.deep_view(),
{
    let p = copy_components(&f.path, 0, f.path.len());
    assert(path_model(f.path@).subrange(0, f.path@.len() as int) =~= path_model(f.path@));
    let content = match &f.content {
        Some(c) => Some(c.clone()),
        None => None,
    };
    ListedFile { path: p, is_file: f.is_file, content }
}

fn insert_listed(r: &mut Vec<ListedFile>, x: ListedFile)
    ensures
        final(r).deep_view() == insert_sorted(old(r).deep_view(), x.deep_view(), by_listed_path()),
{
    let ghost old_r = r.deep_view();
    let mut p: usize = 0;
    while p < r.len() && !path_less(&x.path, &r[p].path)
        invariant
            old_r == r.deep_view(),
            p <= r@.len(),
            forall|j: int| 0 <= j < p ==> !(by_listed_path())(x.deep_view(), #[trigger] old_r[j]),
        decreases r@.len() - p,
    {
        assert(old_r[p as int] == r@[p as int].deep_view());
        p = p + 1;
    }
    proof {
        if p < r@.len() {
            assert(old_r[p as int] == r@[p as int].deep_view());
        }
        lemma_insert_sorted_at(old_r, x.deep_view(), by_listed_path(), p as int);
    }
    let ghost xv = x.deep_view();
    r.insert(p, x);
    assert(r.deep_view() =~= old_r.take(p as int) + seq![xv] + old_r.skip(p as int));
}

/// The directory entries ordered by path (`paths.sort()`).
pub fn sort_listed_files(files: &Vec<ListedFile>) -> (r: Vec<ListedFile>)
    ensures
        r.deep_view() == insertion_sort(files.deep_view(), by_listed_path()),
{
    let ghost start = files.deep_view();
    let mut sorted: Vec<ListedFile> = Vec::new();
    let mut i: usize = 0;
    while i < files.len()
        invariant
            start == files.deep_view(),
            i <= files@.len(),
            sorted.deep_view() == insertion_sort(start.take(i as int), by_listed_path()),
        decreases files@.len() - i,
    {
        assert(start.take(i + 1).drop_last() =~= start.take(i as int));
        assert(start.take(i + 1).last() == files@[i as int].deep_view());
        insert_listed(&mut sorted, copy_listed_file(&files[i]));
        i = i + 1;
    }
    assert(start.take(files@.len() as int) =~= start);
    sorted
}

/// The file holds specta commands: its stem ends in `_specta`.
pub open spec fn is_specta_command_file_spec(p: Seq<ComponentModel>) -> bool {
    match file_name_of(p) {
        Some(n) => has_suffix(file_stem_of(n), "_specta"@),
        None => false,
    }
}

/// Whether `path` names a specta command list (its stem ends in `_specta`).
pub fn is_specta_command_file(path: &Vec<PathComponent>) -> (r: bool)
    ensures
        r == is_specta_command_file_spec(path_model(path@)),
{
    match file_name(path) {
        Some(n) => ends_with(&file_stem(&n), &chars_of("_specta")),
        None => false,
    }
}

/// The entry is a list to read for the specta commands (`specta_only`) or
/// for all commands: a regular `.txt` file of the matching kind.
pub open spec fn is_listing_for(f: ListedFileModel, specta_only: bool) -> bool {
    &&& f.is_file
    &&& has_extension(f.path, "txt"@)
    &&& specta_only == is_specta_command_file_spec(f.path)
}

/// Whether the directory entry at `path` (a regular file when `is_file`) is
/// a list to read for the specta commands (`specta_only`) or for all
/// commands; only such entries need their text read.
pub fn is_listing_entry(path: &Vec<PathComponent>, is_file: bool, specta_only: bool) -> (r: bool)
    ensures
        r == is_listing_for(
            ListedFileModel { path: path_model(path@), is_file, content: None },
            specta_only,
        ),
{
    if !is_file {
        return false;
    }
    let txt = chars_of("txt");
    if !path_has_extension(path, &txt) {
        return false;
    }
    specta_only == is_specta_command_file(path)
}

/// A character allowed in a command path.
pub open spec fn is_command_char(c: char) -> bool {
    let v = c as u32;
    ||| 0x30 <= v <= 0x39
    ||| 0x41 <= v <= 0x5a
    ||| 0x61 <= v <= 0x7a
    ||| c == '_'
    ||| c == ':'
}

/// `s` is made of ASCII letters, digits, `_` and `:` only.
pub open spec fn is_command_path(s: Seq<char>) -> bool {
    forall|i: int| 0 <= i < s.len() ==> #[trigger] is_command_char(s[i])
}

fn command_path_ok(s: &Vec<char>) -> (r: bool)
    ensures
        r == is_command_path(s@),
{
    let mut i: usize = 0;
    while i < s.len()
        invariant
            i <= s@.len(),
            forall|j: int| 0 <= j < i ==> #[trigger] is_command_char(s@[j]),
        decreases s@.len() - i,
    {
        let c = s[i];
        let v = c as u32;
        if !((0x30 <= v && v <= 0x39) || (0x41 <= v && v <= 0x5a) || (0x61 <= v && v <= 0x7a)
            || c == '_' || c == ':') {
            assert(!is_command_char(s@[i as int]));
            return false;
        }
        i = i + 1;
    }
    true
}

/// The command paths that the lines `lines` of a list give: each line
/// trimmed, empty ones skipped, the calling crate's `prefix` removed.
pub open spec fn line_entries(lines: Seq<Seq<char>>, prefix: Seq<char>) -> Seq<Seq<char>>
    decreases lines.len(),
{
    if lines.len() == 0 {
        Seq::<Seq<char>>::empty()
    } else {
        let prev = line_entries(lines.drop_last(), prefix);
        let t = trimmed(lines.last());
        if t.len() == 0 {
            prev
        } else {
            prev.push(without_prefix(t, prefix))
        }
    }
}

/// Each entry paired with the file it was read from.
pub open spec fn tagged(entries: Seq<Seq<char>>, file: Seq<ComponentModel>) -> Seq<
    (Seq<char>, Seq<ComponentModel>),
> {
    entries.map_values(|e: Seq<char>| (e, file))
}

/// The command paths listed in the lists among `files` (in that order) that
/// are read for `specta_only`, each with its file.
pub open spec fn listing_entries(
    files: Seq<ListedFileModel>,
    specta_only: bool,
    prefix: Seq<char>,
) -> Seq<(Seq<char>, Seq<ComponentModel>)>
    decreases files.len(),
{
    if files.len() == 0 {
        Seq::<(Seq<char>, Seq<ComponentModel>)>::empty()
    } else {
        let prev = listing_entries(files.drop_last(), specta_only, prefix);
        let f = files.last();
        if is_listing_for(f, specta_only) {
            match f.content {
                Some(c) => prev + tagged(line_entries(split_at_char(c, '\n'), prefix), f.path),
                None => prev,
            }
        } else {
            prev
        }
    }
}

/// The first entry that is not a valid command path, if any.
pub open spec fn first_invalid(entries: Seq<(Seq<char>, Seq<ComponentModel>)>) -> Option<
    (Seq<char>, Seq<ComponentModel>),
>
    decreases entries.len(),
{
    if entries.len() == 0 {
        None
    } else {
        match first_invalid(entries.drop_last()) {
            Some(e) => Some(e),
            None => if is_command_path(entries.last().0) {
                None
            } else {
                Some(entries.last())
            },
        }
    }
}

/// Entries added after an invalid one do not change which is first.
pub proof fn lemma_first_invalid_extend(
    a: Seq<(Seq<char>, Seq<ComponentModel>)>,
    b: Seq<(Seq<char>, Seq<ComponentModel>)>,
)
    requires
        first_invalid(a) is Some,
    ensures
        first_invalid(a + b) == first_invalid(a),
    decreases b.len(),
{
    if b.len() == 0 {
        assert(a + b =~= a);
    } else {
        lemma_first_invalid_extend(a, b.drop_last());
        assert((a + b).drop_last() =~= a + b.drop_last());
    }
}

/// The entries of the first lines come first.
pub proof fn lemma_line_entries_prefix(lines: Seq<Seq<char>>, prefix: Seq<char>, m: int) -> (rest:
    Seq<Seq<char>>)
    requires
        0 <= m <= lines.len(),
    ensures
        line_entries(lines, prefix) == line_entries(lines.take(m), prefix) + rest,
    decreases lines.len() - m,
{
    if m == lines.len() {
        assert(lines.take(m) =~= lines);
        assert(line_entries(lines, prefix) + Seq::<Seq<char>>::empty() =~= line_entries(
            lines,
            prefix,
        ));
        Seq::<Seq<char>>::empty()
    } else {
        let later = lemma_line_entries_prefix(lines, prefix, m + 1);
        assert(lines.take(m + 1).drop_last() =~= lines.take(m));
        let t = trimmed(lines[m]);
        if t.len() == 0 {
            later
        } else {
            let rest = seq![without_prefix(t, prefix)] + later;
            assert(line_entries(lines, prefix) =~= line_entries(lines.take(m), prefix) + rest);
            rest
        }
    }
}

/// The entries of the first files come first.
pub proof fn lemma_listing_entries_prefix(
    files: Seq<ListedFileModel>,
    specta_only: bool,
    prefix: Seq<char>,
    m: int,
) -> (rest: Seq<(Seq<char>, Seq<ComponentModel>)>)
    requires
        0 <= m <= files.len(),
    ensures
        listing_entries(files, specta_only, prefix) == listing_entries(
            files.take(m),
            specta_only,
            prefix,
        ) + rest,
    decreases files.len() - m,
{
    let empty = Seq::<(Seq<char>, Seq<ComponentModel>)>::empty();
    if m == files.len() {
        assert(files.take(m) =~= files);
        assert(listing_entries(files, specta_only, prefix) + empty =~= listing_entries(
            files,
            specta_only,
            prefix,
        ));
        empty
    } else {
        let later = lemma_listing_entries_prefix(files, specta_only, prefix, m + 1);
        assert(files.take(m + 1).drop_last() =~= files.take(m));
        let f = files[m];
        let before = listing_entries(files.take(m), specta_only, prefix);
        if is_listing_for(f, specta_only) {
            match f.content {
                Some(c) => {
                    let mine = tagged(line_entries(split_at_char(c, '\n'), prefix), f.path);
                    assert(listing_entries(files, specta_only, prefix) =~= before + (mine
                        + later));
                    mine + later
                },
                None => later,
            }
        } else {
            later
        }
    }
}

/// A command path in a list that holds a character other than an ASCII
/// letter, digit, `_` or `:`, with the list it was read from.
#[derive(Debug, Clone)]
pub struct InvalidCommandPath {
    pub command: String,
    pub file: Vec<PathComponent>,
}

/// The prefix that the calling crate's own commands carry in the lists.
pub open spec fn crate_prefix(package: Seq<char>) -> Seq<char> {
    replace_char_spec(package, '-', '_') + "::"@
}

/// What reading the command lists gives: the first invalid entry, or the
/// distinct command paths ordered by function name (ties in text order).
pub open spec fn collect_commands_spec(
    specta_only: bool,
    package: Seq<char>,
    files: Seq<ListedFileModel>,
) -> Result<Seq<Seq<char>>, (Seq<char>, Seq<ComponentModel>)> {
    let entries = listing_entries(
        insertion_sort(files, by_listed_path()),
        specta_only,
        crate_prefix(package),
    );
    match first_invalid(entries) {
        Some(e) => Err(e),
        None => Ok(
            insertion_sort(
                sorted_set(entries.map_values(|e: (Seq<char>, Seq<ComponentModel>)| e.0), by_text()),
                by_fn_name(),
            ),
        ),
    }
}

/// The command paths listed in the command list directory whose entries are
/// `files`: the specta lists (`*_specta.txt`) when `specta_only`, the other
/// `.txt` lists otherwise, read in path order; each non-empty trimmed line is
/// a command, with the prefix `{crate}::` of the calling package
/// `calling_package` removed. The result holds each command once, ordered by
/// function name; a command with a character other than an ASCII letter,
/// digit, `_` or `:` is refused with the first such one.
pub fn collect_commands(specta_only: bool, calling_package: &str, files: &Vec<ListedFile>) -> (r:
    Result<Vec<String>, InvalidCommandPath>)
    ensures
        match collect_commands_spec(specta_only, calling_package@, files.deep_view()) {
            Ok(cmds) => r matches Ok(v) && v.deep_view() == cmds,
            Err(e) => r matches Err(err) && err.command@ == e.0 && path_model(err.file@) == e.1,
        },
{
    let sorted = sort_listed_files(files);
    let ghost sv = sorted.deep_view();
    let mut prefix = replace_char(&chars_of(calling_package), '-', '_');
    append_chars(&mut prefix, &chars_of("::"));
    let ghost pre = prefix@;
    assert(pre == crate_prefix(calling_package@));
    let ghost mut acc: Seq<(Seq<char>, Seq<ComponentModel>)> = Seq::empty();
    let mut found: Vec<String> = Vec::new();
    let txt = chars_of("txt");
    let mut i: usize = 0;
    while i < sorted.len()
        invariant
            sv == sorted.deep_view(),
            sv == insertion_sort(files.deep_view(), by_listed_path()),
            pre == crate_prefix(calling_package@),
            pre == prefix@,
            txt@ == "txt"@,
            i <= sorted@.len(),
            acc == listing_entries(sv.take(i as int), specta_only, pre),
            first_invalid(acc) is None,
            found@.len() == found.deep_view().len(),
            found.deep_view() == acc.map_values(|e: (Seq<char>, Seq<ComponentModel>)| e.0),
        decreases sorted@.len() - i,
    {
        let f = &sorted[i];
        assert(sv.take(i + 1).drop_last() =~= sv.take(i as int));
        assert(sv.take(i + 1).last() == f.deep_view());
        let relevant = f.is_file && path_has_extension(&f.path, &txt) && specta_only
            == is_specta_command_file(&f.path);
        if relevant {
            match &f.content {
                Some(content) => {
                    let lines = split_chars(&chars_of(content.as_str()), '\n');
                    let ghost base = acc;
                    let ghost lv = chars_views(lines@);
                    let mut k: usize = 0;
                    while k < lines.len()
                        invariant
                            lv == chars_views(lines@),
                            lv == split_at_char(content@, '\n'),
                            sv == sorted.deep_view(),
                            sv == insertion_sort(files.deep_view(), by_listed_path()),
                            pre == crate_prefix(calling_package@),
                            i < sorted@.len(),
                            sv[i as int] == f.deep_view(),
                            is_listing_for(sv[i as int], specta_only),
                            sv[i as int].content == Some(content@),
                            base == listing_entries(sv.take(i as int), specta_only, pre),
                            pre == prefix@,
                            k <= lines@.len(),
                            acc == base + tagged(line_entries(lv.take(k as int), pre), path_model(f.path@)),
                            first_invalid(acc) is None,
                            found@.len() == found.deep_view().len(),
                            found.deep_view() == acc.map_values(
                                |e: (Seq<char>, Seq<ComponentModel>)| e.0,
                            ),
                        decreases lines@.len() - k,
                    {
                        assert(lv.take(k + 1).drop_last() =~= lv.take(k as int));
                        assert(lv.take(k + 1).last() == lines@[k as int]@);
                        let t = trim(&lines[k]);
                        if t.len() > 0 {
                            let c = strip_prefix_or_keep(&t, &prefix);
                            let ghost e = (c@, path_model(f.path@));
                            let ghost before = acc;
                            proof {
                                acc = acc.push(e);
                                assert(acc =~= base + tagged(
                                    line_entries(lv.take(k + 1), pre),
                                    path_model(f.path@),
                                ));
                            }
                            if !command_path_ok(&c) {
                                assert(first_invalid(acc) == Some(e)) by {
                                    assert(acc.drop_last() =~= before);
                                }
                                let file = copy_components(&f.path, 0, f.path.len());
                                assert(path_model(f.path@).subrange(0, f.path@.len() as int)
                                    =~= path_model(f.path@));
                                proof {
                                    let fp = path_model(f.path@);
                                    let r2 = lemma_line_entries_prefix(lv, pre, k + 1);
                                    let r1 = lemma_listing_entries_prefix(
                                        sv,
                                        specta_only,
                                        pre,
                                        i + 1,
                                    );
                                    assert(sv.take(i + 1).drop_last() =~= sv.take(i as int));
                                    assert(listing_entries(sv.take(i + 1), specta_only, pre)
                                        == base + tagged(line_entries(lv, pre), fp));
                                    assert(tagged(line_entries(lv, pre), fp) =~= tagged(
                                        line_entries(lv.take(k + 1), pre),
                                        fp,
                                    ) + tagged(r2, fp));
                                    let full = listing_entries(sv, specta_only, pre);
                                    assert(full =~= acc + (tagged(r2, fp) + r1));
                                    lemma_first_invalid_extend(acc, tagged(r2, fp) + r1);
                                    assert(first_invalid(full) == Some(e));
                                    assert(collect_commands_spec(
                                        specta_only,
                                        calling_package@,
                                        files.deep_view(),
                                    ) == Err::<Seq<Seq<char>>, _>(e));
                                }
                                return Err(InvalidCommandPath { command: string_of(&c), file });
                            }
                            assert(acc.drop_last() =~= before);
                            let s = string_of(&c);
                            let ghost fb = found.deep_view();
                            found.push(s);
                            assert(found.deep_view() =~= fb.push(s@));
                            assert(acc.map_values(|e: (Seq<char>, Seq<ComponentModel>)| e.0)
                                =~= before.map_values(|e: (Seq<char>, Seq<ComponentModel>)| e.0).push(c@));
                        } else {
                            assert(acc =~= base + tagged(
                                line_entries(lv.take(k + 1), pre),
                                path_model(f.path@),
                            ));
                        }
                        k = k + 1;
                    }
                    assert(lv.take(lines@.len() as int) =~= lv);
                },
                None => {},
            }
        }
        i = i + 1;
    }
    assert(sv.take(sorted@.len() as int) =~= sv);
    let mut set = sorted_unique(&found);
    sort_by_fn_name(&mut set);
    Ok(set)
}

/// The name of the file `p` names, or the empty text.
pub open spec fn file_name_or_empty(p: Seq<ComponentModel>) -> Seq<char> {
    match file_name_of(p) {
        Some(n) => n,
        None => Seq::<char>::empty(),
    }
}

/// The text that the fingerprint of the command lists covers: for each
/// `.txt` entry that could be read, in the given order, its file name, a
/// newline, its text and a newline.
pub open spec fn fingerprint_entries(files: Seq<ListedFileModel>) -> Seq<char>
    decreases files.len(),
{
    if files.len() == 0 {
        Seq::<char>::empty()
    } else {
        let prev = fingerprint_entries(files.drop_last());
        let f = files.last();
        if has_extension(f.path, "txt"@) {
            match f.content {
                Some(c) => prev + file_name_or_empty(f.path) + seq!['\n'] + c + seq!['\n'],
                None => prev,
            }
        } else {
            prev
        }
    }
}

/// The fingerprint text of the command list directory whose entries are
/// `files`, taken in path order.
pub open spec fn fingerprint_text_spec(files: Seq<ListedFileModel>) -> Seq<char> {
    fingerprint_entries(insertion_sort(files, by_listed_path()))
}

/// The text that the fingerprint of the command lists covers.
pub fn fingerprint_text(files: &Vec<ListedFile>) -> (r: String)
    ensures
        r@ == fingerprint_text_spec(files.deep_view()),
{
    let sorted = sort_listed_files(files);
    let ghost sv = sorted.deep_view();
    let txt = chars_of("txt");
    let mut out: Vec<char> = Vec::new();
    let mut i: usize = 0;
    while i < sorted.len()
        invariant
            sv == sorted.deep_view(),
            txt@ == "txt"@,
            i <= sorted@.len(),
            out@ == fingerprint_entries(sv.take(i as int)),
        decreases sorted@.len() - i,
    {
        let f = &sorted[i];
        assert(sv.take(i + 1).drop_last() =~= sv.take(i as int));
        assert(sv.take(i + 1).last() == f.deep_view());
        if path_has_extension(&f.path, &txt) {
            match &f.content {
                Some(content) => {
                    let name = match file_name(&f.path) {
                        Some(n) => n,
                        None => Vec::new(),
                    };
                    append_chars(&mut out, &name);
                    out.push('\n');
                    append_chars(&mut out, &chars_of(content.as_str()));
                    out.push('\n');
                },
                None => {},
            }
        }
        i = i + 1;
    }
    assert(sv.take(sorted@.len() as int) =~= sv);
    string_of(&out)
}

/// The fingerprint of the command lists: the FNV-1a hash of the UTF-8
/// bytes of their fingerprint text.
pub fn commands_fingerprint(files: &Vec<ListedFile>) -> (r: u64)
    ensures
        r == fnv1a(vstd::utf8::encode_utf8(fingerprint_text_spec(files.deep_view()))),
{
    let text = fingerprint_text(files);
    simple_fingerprint(text.as_str())
}

} // verus!
