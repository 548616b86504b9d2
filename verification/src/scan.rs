//! Scanning a crate's sources for Tauri commands: which files belong to the
//! crate and under which module path, and which functions are commands.
use vstd::prelude::*;
use crate::order::{insert_sorted, insertion_sort, lemma_insert_sorted_at};
use crate::path::{
    path_equal, path_less, path_lt, component_text, component_text_of, join_text, join_text_of, has_extension, parent, parent_of,
    path_has_extension, path_model, strip_prefix, strip_prefix_of, copy_components,
    ComponentModel, PathComponent,
};
use crate::rust_source::{
    parse_rust_functions, parse_rust_modules, rust_file_functions, rust_file_modules,
    AttributeModel, ItemModel, ModuleAttribute, ModuleAttributeModel, RustAttribute, RustItem,
};
use crate::text::{
    append_chars, chars_equal, chars_of, chars_until, chars_views, contains, contains_text,
    ends_with, has_suffix, join_chars, join_with, string_of,
};

verus! {

/// A Rust source file of a crate and the module path it defines
/// (empty for the crate root).
#[derive(Debug, Clone)]
pub struct SourceFile {
    pub path: Vec<PathComponent>,
    pub module: String,
}

/// The mathematical value of a `SourceFile`.
pub struct SourceFileModel {
    pub path: Seq<ComponentModel>,
    pub module: Seq<char>,
}

impl DeepView for SourceFile {
    type V = SourceFileModel;

    open spec fn deep_view(&self) -> SourceFileModel {
        SourceFileModel { path: path_model(self.path@), module: self.module@ }
    }
}

/// A command found in a source file: its path within the crate and whether
/// it also carries `#[specta::specta]`.
#[derive(Debug, Clone)]
pub struct CollectedCommand {
    pub path: String,
    pub specta: bool,
}

/// The mathematical value of a `CollectedCommand`.
pub struct CommandModel {
    pub path: Seq<char>,
    pub specta: bool,
}

impl DeepView for CollectedCommand {
    type V = CommandModel;

    open spec fn deep_view(&self) -> CommandModel {
        CommandModel { path: self.path@, specta: self.specta }
    }
}

/// The texts of the components of a relative path.
pub open spec fn component_texts(rel: Seq<ComponentModel>) -> Seq<Seq<char>> {
    rel.map_values(|c: ComponentModel| component_text_of(c))
}

/// The module path that the file `path` defines in a crate whose sources lie
/// under `dir`: empty for `main.rs` and `lib.rs` at the top, the directories
/// and the file stem joined by `::` for any other `.rs` file, where a
/// `mod.rs` stands for its directory; `None` for a file outside `dir` or one
/// whose name does not end in `.rs`.
pub open spec fn module_path_spec(dir: Seq<ComponentModel>, path: Seq<ComponentModel>) -> Option<
    Seq<char>,
> {
    match strip_prefix_of(path, dir) {
        None => None,
        Some(rel) => if rel == seq![ComponentModel::Normal("main.rs"@)] || rel == seq![
            ComponentModel::Normal("lib.rs"@),
        ] {
            Some(Seq::<char>::empty())
        } else if rel.len() == 0 {
            None
        } else {
            let parts = component_texts(rel);
            let last = parts.last();
            if !has_suffix(last, ".rs"@) {
                None
            } else {
                let stem = last.take(last.len() - ".rs"@.len());
                let kept = if stem == "mod"@ {
                    parts.drop_last()
                } else {
                    parts.drop_last().push(stem)
                };
                Some(join_with(kept, "::"@))
            }
        },
    }
}

fn is_named(rel: &Vec<PathComponent>, name: &str) -> (r: bool)
    ensures
        r == (path_model(rel@) == seq![ComponentModel::Normal(name@)]),
{
    if rel.len() != 1 {
        proof {
            if path_model(rel@) == seq![ComponentModel::Normal(name@)] {
                assert(path_model(rel@).len() == 1);
            }
        }
        return false;
    }
    match &rel[0] {
        PathComponent::Normal(n) => {
            let a = chars_of(n.as_str());
            let b = chars_of(name);
            let r = chars_equal(&a, &b);
            proof {
                if r {
                    assert(path_model(rel@) =~= seq![ComponentModel::Normal(name@)]);
                }
                if path_model(rel@) == seq![ComponentModel::Normal(name@)] {
                    assert(path_model(rel@)[0] == ComponentModel::Normal(n@));
                }
            }
            r
        },
        _ => {
            proof {
                if path_model(rel@) == seq![ComponentModel::Normal(name@)] {
                    assert(path_model(rel@)[0] == rel@[0].deep_view());
                }
            }
            false
        },
    }
}

/// The module path that the source file `source_path` defines in a crate
/// whose sources lie under `source_dir`.
pub fn module_path_for_source(source_dir: &Vec<PathComponent>, source_path: &Vec<PathComponent>) -> (r:
    Option<String>)
    ensures
        r.deep_view() == module_path_spec(path_model(source_dir@), path_model(source_path@)),
{
    let rel = match strip_prefix(source_path, source_dir) {
        Some(rel) => rel,
        None => return None,
    };
    if is_named(&rel, "main.rs") || is_named(&rel, "lib.rs") {
        return Some(String::new());
    }
    if rel.len() == 0 {
        return None;
    }
    let ghost relm = path_model(rel@);
    let mut parts: Vec<Vec<char>> = Vec::new();
    let mut i: usize = 0;
    while i < rel.len()
        invariant
            relm == path_model(rel@),
            i <= rel@.len(),
            chars_views(parts@) == component_texts(relm.take(i as int)),
        decreases rel@.len() - i,
    {
        let t = component_text(&rel[i]);
        assert(relm[i as int] == rel@[i as int].deep_view());
        let ghost before = parts@;
        parts.push(t);
        assert(chars_views(parts@) =~= chars_views(before).push(t@));
        assert(relm.take(i + 1) =~= relm.take(i as int).push(relm[i as int]));
        i = i + 1;
        assert(chars_views(parts@) =~= component_texts(relm.take(i as int)));
    }
    assert(relm.take(rel@.len() as int) == relm);
    let last = parts.pop().unwrap();
    assert(chars_views(parts@) =~= component_texts(relm).drop_last());
    let suffix = chars_of(".rs");
    if !ends_with(&last, &suffix) {
        return None;
    }
    let stem = chars_until(&last, last.len() - suffix.len());
    let module_marker = chars_of("mod");
    if !chars_equal(&stem, &module_marker) {
        let ghost before = parts@;
        parts.push(stem);
        assert(chars_views(parts@) =~= chars_views(before).push(stem@));
    }
    let sep = chars_of("::");
    let joined = join_chars(&parts, &sep);
    Some(string_of(&joined))
}

/// The source file that `path`, met while walking the crate's sources under
/// `dir`, stands for: a file with extension `rs` that defines a module.
pub open spec fn rs_source_file_spec(dir: Seq<ComponentModel>, path: Seq<ComponentModel>) -> Option<
    SourceFileModel,
> {
    if has_extension(path, "rs"@) {
        match module_path_spec(dir, path) {
            Some(m) => Some(SourceFileModel { path, module: m }),
            None => None,
        }
    } else {
        None
    }
}

/// The source file that `path`, found while walking `source_dir`, stands
/// for, if any.
pub fn rs_source_file(source_dir: &Vec<PathComponent>, path: &Vec<PathComponent>) -> (r: Option<
    SourceFile,
>)
    ensures
        r.deep_view() == rs_source_file_spec(path_model(source_dir@), path_model(path@)),
{
    let ext = chars_of("rs");
    if !path_has_extension(path, &ext) {
        return None;
    }
    match module_path_for_source(source_dir, path) {
        Some(module) => {
            let p = copy_components(path, 0, path.len());
            assert(path_model(path@).subrange(0, path@.len() as int) =~= path_model(path@));
            Some(SourceFile { path: p, module })
        },
        None => None,
    }
}

/// The attribute is `#[tauri::command]` (any leading `::` aside).
pub open spec fn is_tauri_command_spec(a: AttributeModel) -> bool {
    a.path == seq!["tauri"@, "command"@]
}

/// The attribute is `#[specta::specta]` (any leading `::` aside).
pub open spec fn is_specta_spec(a: AttributeModel) -> bool {
    a.path == seq!["specta"@, "specta"@]
}

fn path_is(a: &RustAttribute, first: &str, second: &str) -> (r: bool)
    ensures
        r == (a.deep_view().path == seq![first@, second@]),
{
    if a.path.len() != 2 {
        proof {
            if a.deep_view().path == seq![first@, second@] {
                assert(a.deep_view().path.len() == 2);
            }
        }
        return false;
    }
    let f0 = chars_of(a.path[0].as_str());
    let f1 = chars_of(a.path[1].as_str());
    let e0 = chars_of(first);
    let e1 = chars_of(second);
    let r = chars_equal(&f0, &e0) && chars_equal(&f1, &e1);
    proof {
        let p = a.deep_view().path;
        assert(p[0] == a.path@[0]@);
        assert(p[1] == a.path@[1]@);
        if r {
            assert(p =~= seq![first@, second@]);
        }
    }
    r
}

/// Whether the attribute is `#[tauri::command]`.
pub fn is_tauri_command_attr(a: &RustAttribute) -> (r: bool)
    ensures
        r == is_tauri_command_spec(a.deep_view()),
{
    path_is(a, "tauri", "command")
}

/// Whether the attribute is `#[specta::specta]`.
pub fn is_specta_attr(a: &RustAttribute) -> (r: bool)
    ensures
        r == is_specta_spec(a.deep_view()),
{
    path_is(a, "specta", "specta")
}

/// `name` qualified by the module path `module` (`module::name`, or `name`
/// alone at the crate root).
pub open spec fn qualified(module: Seq<char>, name: Seq<char>) -> Seq<char> {
    if module.len() == 0 {
        name
    } else {
        module + "::"@ + name
    }
}

/// `name` qualified by the module path `module`.
pub fn qualify(module: &String, name: &String) -> (r: String)
    ensures
        r@ == qualified(module@, name@),
{
    let n = chars_of(name.as_str());
    let mut r = chars_of(module.as_str());
    if r.len() == 0 {
        return string_of(&n);
    }
    let sep = chars_of("::");
    append_chars(&mut r, &sep);
    append_chars(&mut r, &n);
    string_of(&r)
}

/// Some attribute among `attrs` is `#[tauri::command]`.
pub open spec fn any_marks_command(attrs: Seq<AttributeModel>) -> bool {
    exists|i: int| 0 <= i < attrs.len() && #[trigger] is_tauri_command_spec(attrs[i])
}

/// Some attribute among `attrs` is `#[specta::specta]`.
pub open spec fn any_marks_specta(attrs: Seq<AttributeModel>) -> bool {
    exists|i: int| 0 <= i < attrs.len() && #[trigger] is_specta_spec(attrs[i])
}

/// The commands among the top-level `items` of a file defining `module`:
/// each function carrying `#[tauri::command]`, in file order, under its
/// qualified name, marked specta when it also carries `#[specta::specta]`.
pub open spec fn item_commands(module: Seq<char>, items: Seq<ItemModel>) -> Seq<CommandModel>
    decreases items.len(),
{
    if items.len() == 0 {
        Seq::<CommandModel>::empty()
    } else {
        let prev = item_commands(module, items.drop_last());
        match items.last() {
            ItemModel::Function { name, attributes } => if any_marks_command(attributes) {
                prev.push(
                    CommandModel {
                        path: qualified(module, name),
                        specta: any_marks_specta(attributes),
                    },
                )
            } else {
                prev
            },
            _ => prev,
        }
    }
}

/// The commands of a source file whose text is `content` (`None` when it
/// could not be read): none unless the text mentions `tauri::command` and
/// parses as Rust.
pub open spec fn source_commands_spec(file: SourceFileModel, content: Option<Seq<char>>) -> Seq<
    CommandModel,
> {
    match content {
        None => Seq::<CommandModel>::empty(),
        Some(c) => if !contains_text(c, "tauri::command"@) {
            Seq::<CommandModel>::empty()
        } else {
            match rust_file_functions(c) {
                None => Seq::<CommandModel>::empty(),
                Some(items) => item_commands(file.module, items),
            }
        },
    }
}

/// Whether the attributes `attrs` include `#[tauri::command]`, and whether
/// they include `#[specta::specta]`.
fn command_marks(attrs: &Vec<RustAttribute>) -> (r: (bool, bool))
    ensures
        r.0 == any_marks_command(attrs.deep_view()),
        r.1 == any_marks_specta(attrs.deep_view()),
{
    let ghost models = attrs.deep_view();
    let mut command = false;
    let mut specta = false;
    let mut i: usize = 0;
    while i < attrs.len()
        invariant
            models == attrs.deep_view(),
            i <= attrs@.len(),
            command == exists|j: int| 0 <= j < i && #[trigger] is_tauri_command_spec(models[j]),
            specta == exists|j: int| 0 <= j < i && #[trigger] is_specta_spec(models[j]),
        decreases attrs@.len() - i,
    {
        assert(models[i as int] == attrs@[i as int].deep_view());
        let c = is_tauri_command_attr(&attrs[i]);
        let t = is_specta_attr(&attrs[i]);
        command = command || c;
        specta = specta || t;
        i = i + 1;
    }
    (command, specta)
}

/// The commands among the parsed top-level `items` of a file that defines
/// module `module`: the functions carrying `#[tauri::command]`, in order,
/// each under its qualified path.
pub fn item_commands_of(module: &String, items: &Vec<RustItem>) -> (r: Vec<CollectedCommand>)
    ensures
        r.deep_view() == item_commands(module@, items.deep_view()),
{
    let ghost im = items.deep_view();
    let mut commands: Vec<CollectedCommand> = Vec::new();
    let mut i: usize = 0;
    while i < items.len()
        invariant
            im == items.deep_view(),
            i <= items@.len(),
            commands@.len() == commands.deep_view().len(),
            commands.deep_view() == item_commands(module@, im.take(i as int)),
        decreases items@.len() - i,
    {
        assert(im.take(i + 1).drop_last() =~= im.take(i as int));
        assert(im.take(i + 1).last() == items@[i as int].deep_view());
        match &items[i] {
            RustItem::Function { name, attributes } => {
                let (command, specta) = command_marks(attributes);
                if command {
                    let c = CollectedCommand { path: qualify(module, name), specta };
                    let ghost before = commands.deep_view();
                    commands.push(c);
                    assert(commands.deep_view() =~= before.push(c.deep_view()));
                }
            },
            _ => {},
        }
        i = i + 1;
    }
    assert(im.take(items@.len() as int) =~= im);
    commands
}

/// The commands that the source file `source_file` defines, given its text
/// (`None` when it could not be read): its top-level functions carrying
/// `#[tauri::command]`, in file order, each under its qualified path.
pub fn collect_commands_from_source(source_file: &SourceFile, content: &Option<String>) -> (r: Vec<
    CollectedCommand,
>)
    ensures
        r.deep_view() == source_commands_spec(source_file.deep_view(), content.deep_view()),
{
    let text = match content {
        Some(t) => t,
        None => return Vec::new(),
    };
    let chars = chars_of(text.as_str());
    let marker = chars_of("tauri::command");
    if !contains(&chars, &marker) {
        return Vec::new();
    }
    match parse_rust_functions(text.as_str()) {
        Some(items) => item_commands_of(&source_file.module, &items),
        None => Vec::new(),
    }
}

/// The file that the module attribute `a` points a module at: the string
/// literal of `#[path = "..."]` (or `#[path("...")]`).
pub open spec fn path_attribute_value(a: ModuleAttributeModel) -> Option<Seq<char>> {
    if a.ident == Some("path"@) {
        a.string_argument
    } else {
        None
    }
}

/// The source files that the `#[path]` attributes `attrs` of the module
/// declaration `name` in `file` point at: each literal taken relative to the
/// file's directory, kept when it names a `.rs` file, defining the module
/// `name` inside the file's module.
pub open spec fn attribute_module_files(
    file: SourceFileModel,
    name: Seq<char>,
    attrs: Seq<ModuleAttributeModel>,
) -> Seq<SourceFileModel>
    decreases attrs.len(),
{
    if attrs.len() == 0 {
        Seq::<SourceFileModel>::empty()
    } else {
        let prev = attribute_module_files(file, name, attrs.drop_last());
        match path_attribute_value(attrs.last()) {
            None => prev,
            Some(lit) => match parent_of(file.path) {
                None => prev,
                Some(dir) => {
                    let p = join_text_of(dir, lit);
                    if has_extension(p, "rs"@) {
                        prev.push(SourceFileModel { path: p, module: qualified(file.module, name) })
                    } else {
                        prev
                    }
                },
            },
        }
    }
}

/// The source files that the module declarations among `items` of `file`
/// point at with `#[path]`, declarations with an inline body aside.
pub open spec fn item_module_files(file: SourceFileModel, items: Seq<ItemModel>) -> Seq<
    SourceFileModel,
>
    decreases items.len(),
{
    if items.len() == 0 {
        Seq::<SourceFileModel>::empty()
    } else {
        let prev = item_module_files(file, items.drop_last());
        match items.last() {
            ItemModel::Module { name, inline, attributes } => if inline {
                prev
            } else {
                prev + attribute_module_files(file, name, attributes)
            },
            _ => prev,
        }
    }
}

/// The source files that `file`, with text `content`, points at with
/// `#[path]` module declarations.
pub open spec fn path_module_files_spec(file: SourceFileModel, content: Option<Seq<char>>) -> Seq<
    SourceFileModel,
> {
    match content {
        None => Seq::<SourceFileModel>::empty(),
        Some(c) => match rust_file_modules(c) {
            None => Seq::<SourceFileModel>::empty(),
            Some(items) => item_module_files(file, items),
        },
    }
}

/// The source files that each of `files`, with texts `contents`, points at
/// with `#[path]` module declarations, in order.
pub open spec fn all_path_module_files(
    files: Seq<SourceFileModel>,
    contents: Seq<Option<Seq<char>>>,
) -> Seq<SourceFileModel>
    decreases files.len(),
{
    if files.len() == 0 {
        Seq::<SourceFileModel>::empty()
    } else {
        all_path_module_files(files.drop_last(), contents.drop_last()) + path_module_files_spec(
            files.last(),
            contents[files.len() - 1],
        )
    }
}

fn path_literal(a: &ModuleAttribute) -> (r: Option<String>)
    ensures
        r.deep_view() == path_attribute_value(a.deep_view()),
{
    let ident = match &a.ident {
        Some(i) => i,
        None => return None,
    };
    let first = chars_of(ident.as_str());
    let expected = chars_of("path");
    if !chars_equal(&first, &expected) {
        return None;
    }
    match &a.string_argument {
        Some(v) => Some(v.clone()),
        None => None,
    }
}

/// The files that the `#[path]` attributes `attrs` of module `name` in
/// `file` point at.
fn attribute_files(file: &SourceFile, name: &String, attrs: &Vec<ModuleAttribute>) -> (r: Vec<SourceFile>)
    ensures
        r.deep_view() == attribute_module_files(file.deep_view(), name@, attrs.deep_view()),
{
    let ghost models = attrs.deep_view();
    let mut r: Vec<SourceFile> = Vec::new();
    let mut i: usize = 0;
    while i < attrs.len()
        invariant
            models == attrs.deep_view(),
            i <= attrs@.len(),
            r@.len() == r.deep_view().len(),
            r.deep_view() == attribute_module_files(file.deep_view(), name@, models.take(i as int)),
        decreases attrs@.len() - i,
    {
        assert(models.take(i + 1).drop_last() =~= models.take(i as int));
        assert(models.take(i + 1).last() == attrs@[i as int].deep_view());
        match path_literal(&attrs[i]) {
            Some(lit) => match parent(&file.path) {
                Some(dir) => {
                    let lit_chars = chars_of(lit.as_str());
                    let p = join_text(&dir, &lit_chars);
                    let ext = chars_of("rs");
                    if path_has_extension(&p, &ext) {
                        let f = SourceFile { path: p, module: qualify(&file.module, name) };
                        let ghost before = r.deep_view();
                        r.push(f);
                        assert(r.deep_view() =~= before.push(f.deep_view()));
                    }
                },
                None => {},
            },
            None => {},
        }
        i = i + 1;
    }
    assert(models.take(attrs@.len() as int) =~= models);
    r
}

/// The source files that the parsed top-level `items` of `file` point at
/// with `#[path]` module declarations, in order; declarations with an inline
/// body are passed over.
pub fn item_module_files_of(file: &SourceFile, items: &Vec<RustItem>) -> (r: Vec<SourceFile>)
    ensures
        r.deep_view() == item_module_files(file.deep_view(), items.deep_view()),
{
    let ghost im = items.deep_view();
    let mut r: Vec<SourceFile> = Vec::new();
    let mut i: usize = 0;
    while i < items.len()
        invariant
            im == items.deep_view(),
            i <= items@.len(),
            r@.len() == r.deep_view().len(),
            r.deep_view() == item_module_files(file.deep_view(), im.take(i as int)),
        decreases items@.len() - i,
    {
        assert(im.take(i + 1).drop_last() =~= im.take(i as int));
        assert(im.take(i + 1).last() == items@[i as int].deep_view());
        match &items[i] {
            RustItem::Module { name, inline, attributes } => {
                if !*inline {
                    let found = attribute_files(file, name, attributes);
                    let ghost before = r.deep_view();
                    let mut k: usize = 0;
                    while k < found.len()
                        invariant
                            k <= found@.len(),
                            r@.len() == r.deep_view().len(),
                            r.deep_view() == before + found.deep_view().take(k as int),
                        decreases found@.len() - k,
                    {
                        let f = SourceFile {
                            path: copy_components(&found[k].path, 0, found[k].path.len()),
                            module: found[k].module.clone(),
                        };
                        assert(path_model(found@[k as int].path@).subrange(
                            0,
                            found@[k as int].path@.len() as int,
                        ) =~= path_model(found@[k as int].path@));
                        let ghost prev = r.deep_view();
                        r.push(f);
                        assert(r.deep_view() =~= prev.push(f.deep_view()));
                        k = k + 1;
                        assert(found.deep_view().take(k as int) =~= found.deep_view().take(
                            k - 1,
                        ).push(found.deep_view()[k - 1]));
                    }
                    assert(found.deep_view().take(found@.len() as int) =~= found.deep_view());
                }
            },
            _ => {},
        }
        i = i + 1;
    }
    assert(im.take(items@.len() as int) =~= im);
    r
}

/// The source files that `file`, with text `content`, points at with
/// `#[path]` module declarations.
pub fn path_module_files(file: &SourceFile, content: &Option<String>) -> (r: Vec<SourceFile>)
    ensures
        r.deep_view() == path_module_files_spec(file.deep_view(), content.deep_view()),
{
    let text = match content {
        Some(t) => t,
        None => return Vec::new(),
    };
    match parse_rust_modules(text.as_str()) {
        Some(items) => item_module_files_of(file, &items),
        None => Vec::new(),
    }
}

/// Adds to `files` the source files that each of them (with texts
/// `contents`, in the same order) points at with `#[path]` module
/// declarations; the files added are not scanned for further ones.
pub fn collect_path_module_files(files: &mut Vec<SourceFile>, contents: &Vec<Option<String>>)
    requires
        old(files)@.len() == contents@.len(),
    ensures
        final(files).deep_view() == old(files).deep_view() + all_path_module_files(
            old(files).deep_view(),
            contents.deep_view(),
        ),
{
    let n = files.len();
    let ghost start = files.deep_view();
    let ghost cs = contents.deep_view();
    let mut i: usize = 0;
    while i < n
        invariant
            n == start.len(),
            n == contents@.len(),
            cs == contents.deep_view(),
            i <= n,
            files@.len() == files.deep_view().len(),
            files.deep_view() == start + all_path_module_files(start.take(i as int), cs.take(
                i as int,
            )),
        decreases n - i,
    {
        assert(files.deep_view()[i as int] == start[i as int]);
        let found = path_module_files(&files[i], &contents[i]);
        assert(start.take(i + 1).drop_last() =~= start.take(i as int));
        assert(cs.take(i + 1).drop_last() =~= cs.take(i as int));
        assert(cs.take(i + 1)[i as int] == contents@[i as int].deep_view());
        let ghost before = files.deep_view();
        let mut k: usize = 0;
        while k < found.len()
            invariant
                k <= found@.len(),
                files@.len() == files.deep_view().len(),
                files.deep_view() == before + found.deep_view().take(k as int),
            decreases found@.len() - k,
        {
            let f = SourceFile {
                path: copy_components(&found[k].path, 0, found[k].path.len()),
                module: found[k].module.clone(),
            };
            assert(path_model(found@[k as int].path@).subrange(
                0,
                found@[k as int].path@.len() as int,
            ) =~= path_model(found@[k as int].path@));
            let ghost prev = files.deep_view();
            files.push(f);
            assert(files.deep_view() =~= prev.push(f.deep_view()));
            k = k + 1;
            assert(found.deep_view().take(k as int) =~= found.deep_view().take(k - 1).push(
                found.deep_view()[k - 1],
            ));
        }
        assert(found.deep_view().take(found@.len() as int) =~= found.deep_view());
        i = i + 1;
    }
    assert(start.take(n as int) =~= start);
    assert(cs.take(n as int) =~= cs);
}

/// Each path kept once: a file whose path an earlier file has is dropped.
pub open spec fn first_of_each_path(s: Seq<SourceFileModel>) -> Seq<SourceFileModel>
    decreases s.len(),
{
    if s.len() == 0 {
        s
    } else {
        let prev = first_of_each_path(s.drop_last());
        if exists|j: int| 0 <= j < s.len() - 1 && #[trigger] s[j].path == s.last().path {
            prev
        } else {
            prev.push(s.last())
        }
    }
}

/// Source files ordered by path, as `Path` orders them.
pub open spec fn by_path() -> spec_fn(SourceFileModel, SourceFileModel) -> bool {
    |a: SourceFileModel, b: SourceFileModel| path_lt(a.path, b.path)
}

fn copy_source_file(f: &SourceFile) -> (r: SourceFile)
    ensures
        r.deep_view() == f.deep_view(),
{
    let p = copy_components(&f.path, 0, f.path.len());
    assert(path_model(f.path@).subrange(0, f.path@.len() as int) =~= path_model(f.path@));
    SourceFile { path: p, module: f.module.clone() }
}

fn insert_by_path(r: &mut Vec<SourceFile>, x: SourceFile)
    ensures
        final(r).deep_view() == insert_sorted(old(r).deep_view(), x.deep_view(), by_path()),
{
    let ghost old_r = r.deep_view();
    let mut p: usize = 0;
    while p < r.len() && !path_less(&x.path, &r[p].path)
        invariant
            old_r == r.deep_view(),
            p <= r@.len(),
            forall|j: int| 0 <= j < p ==> !(by_path())(x.deep_view(), #[trigger] old_r[j]),
        decreases r@.len() - p,
    {
        assert(old_r[p as int] == r@[p as int].deep_view());
        p = p + 1;
    }
    proof {
        if p < r@.len() {
            assert(old_r[p as int] == r@[p as int].deep_view());
        }
        lemma_insert_sorted_at(old_r, x.deep_view(), by_path(), p as int);
    }
    let ghost xv = x.deep_view();
    r.insert(p, x);
    assert(r.deep_view() =~= old_r.take(p as int) + seq![xv] + old_r.skip(p as int));
}

/// The source files with repeated paths dropped (the first one kept) and
/// the rest ordered by path.
pub fn dedup_and_sort_source_files(files: &Vec<SourceFile>) -> (r: Vec<SourceFile>)
    ensures
        r.deep_view() == insertion_sort(first_of_each_path(files.deep_view()), by_path()),
{
    let ghost start = files.deep_view();
    let mut unique: Vec<SourceFile> = Vec::new();
    let mut i: usize = 0;
    while i < files.len()
        invariant
            start == files.deep_view(),
            i <= files@.len(),
            unique@.len() == unique.deep_view().len(),
            unique.deep_view() == first_of_each_path(start.take(i as int)),
        decreases files@.len() - i,
    {
        let ghost t = start.take(i + 1);
        assert(t.drop_last() =~= start.take(i as int));
        assert(t.last() == files@[i as int].deep_view());
        let mut seen = false;
        let mut j: usize = 0;
        while j < i
            invariant
                start == files.deep_view(),
                i < files@.len(),
                j <= i,
                t == start.take(i + 1),
                t.last() == files@[i as int].deep_view(),
                seen == exists|k: int| 0 <= k < j && #[trigger] t[k].path == t.last().path,
            decreases i - j,
        {
            assert(t[j as int] == files@[j as int].deep_view());
            let e = path_equal(&files[j].path, &files[i].path);
            assert(e == (t[j as int].path == t.last().path));
            seen = seen || e;
            j = j + 1;
        }
        if !seen {
            let f = copy_source_file(&files[i]);
            let ghost before = unique.deep_view();
            unique.push(f);
            assert(unique.deep_view() =~= before.push(f.deep_view()));
        }
        i = i + 1;
    }
    assert(start.take(files@.len() as int) =~= start);
    let ghost uv = unique.deep_view();
    let mut sorted: Vec<SourceFile> = Vec::new();
    let mut k: usize = 0;
    while k < unique.len()
        invariant
            uv == unique.deep_view(),
            k <= unique@.len(),
            sorted.deep_view() == insertion_sort(uv.take(k as int), by_path()),
        decreases unique@.len() - k,
    {
        assert(uv.take(k + 1).drop_last() =~= uv.take(k as int));
        assert(uv.take(k + 1).last() == unique@[k as int].deep_view());
        insert_by_path(&mut sorted, copy_source_file(&unique[k]));
        k = k + 1;
    }
    assert(uv.take(unique@.len() as int) =~= uv);
    sorted
}

/// The commands that `files`, with texts `contents`, define, file by file.
pub open spec fn sources_commands_spec(
    files: Seq<SourceFileModel>,
    contents: Seq<Option<Seq<char>>>,
) -> Seq<CommandModel>
    decreases files.len(),
{
    if files.len() == 0 {
        Seq::<CommandModel>::empty()
    } else {
        sources_commands_spec(files.drop_last(), contents.drop_last()) + source_commands_spec(
            files.last(),
            contents[files.len() - 1],
        )
    }
}

/// The commands that `files` define, given their texts `contents` (in the
/// same order), file after file.
pub fn collect_commands_from_sources(files: &Vec<SourceFile>, contents: &Vec<Option<String>>) -> (r:
    Vec<CollectedCommand>)
    requires
        files@.len() == contents@.len(),
    ensures
        r.deep_view() == sources_commands_spec(files.deep_view(), contents.deep_view()),
{
    let ghost fv = files.deep_view();
    let ghost cv = contents.deep_view();
    let mut all: Vec<CollectedCommand> = Vec::new();
    let mut i: usize = 0;
    while i < files.len()
        invariant
            fv == files.deep_view(),
            cv == contents.deep_view(),
            files@.len() == contents@.len(),
            i <= files@.len(),
            all@.len() == all.deep_view().len(),
            all.deep_view() == sources_commands_spec(fv.take(i as int), cv.take(i as int)),
        decreases files@.len() - i,
    {
        assert(fv.take(i + 1).drop_last() =~= fv.take(i as int));
        assert(cv.take(i + 1).drop_last() =~= cv.take(i as int));
        assert(fv.take(i + 1).last() == files@[i as int].deep_view());
        assert(cv.take(i + 1)[i as int] == contents@[i as int].deep_view());
        let found = collect_commands_from_source(&files[i], &contents[i]);
        let ghost before = all.deep_view();
        let mut k: usize = 0;
        while k < found.len()
            invariant
                k <= found@.len(),
                all@.len() == all.deep_view().len(),
                all.deep_view() == before + found.deep_view().take(k as int),
            decreases found@.len() - k,
        {
            let c = CollectedCommand { path: found[k].path.clone(), specta: found[k].specta };
            let ghost prev = all.deep_view();
            all.push(c);
            assert(all.deep_view() =~= prev.push(c.deep_view()));
            k = k + 1;
            assert(found.deep_view().take(k as int) =~= found.deep_view().take(k - 1).push(
                found.deep_view()[k - 1],
            ));
        }
        assert(found.deep_view().take(found@.len() as int) =~= found.deep_view());
        i = i + 1;
    }
    assert(fv.take(files@.len() as int) =~= fv);
    assert(cv.take(files@.len() as int) =~= cv);
    all
}

} // verus!
