//! What the command scanner reads of Rust source text, as plain values, and
//! the calls into `syn` that read it.
use vstd::prelude::*;
use syn::Item::Mod;
use syn::Lit::Str;
use syn::Meta::{List, NameValue};
use syn::{Expr, ExprLit, Item, LitStr, MetaNameValue};
use crate::rust_source::RustItem::{Module, Other};

verus! {

/// The path of an attribute as written on an item (`tauri::command` is
/// `["tauri", "command"]`; `global` when written with a leading `::`).
#[derive(Debug, Clone)]
pub struct RustAttribute {
    pub global: bool,
    pub path: Vec<String>,
}

/// The mathematical value of a `RustAttribute`.
pub struct AttributeModel {
    pub global: bool,
    pub path: Seq<Seq<char>>,
}

impl DeepView for RustAttribute {
    type V = AttributeModel;

    open spec fn deep_view(&self) -> AttributeModel {
        AttributeModel { global: self.global, path: self.path.deep_view() }
    }
}

/// An attribute of a module declaration: its path when that is a single
/// identifier written without a leading `::` (`#[path = "x.rs"]` gives
/// `path`), and, when its argument is a single string literal
/// (`#[a = "..."]` or `#[a("...")]`), the value of that literal.
#[derive(Debug, Clone)]
pub struct ModuleAttribute {
    pub ident: Option<String>,
    pub string_argument: Option<String>,
}

/// The mathematical value of a `ModuleAttribute`.
pub struct ModuleAttributeModel {
    pub ident: Option<Seq<char>>,
    pub string_argument: Option<Seq<char>>,
}

impl DeepView for ModuleAttribute {
    type V = ModuleAttributeModel;

    open spec fn deep_view(&self) -> ModuleAttributeModel {
        ModuleAttributeModel {
            ident: self.ident.deep_view(),
            string_argument: self.string_argument.deep_view(),
        }
    }
}

/// A top-level item of a Rust source file as one reading of it gives it: a
/// free function with the paths of its attributes, a module declaration
/// (`inline` when its body is written in place) with its attributes, or
/// any other item.
#[derive(Debug, Clone)]
pub enum RustItem {
    Function { name: String, attributes: Vec<RustAttribute> },
    Module { name: String, inline: bool, attributes: Vec<ModuleAttribute> },
    Other,
}

/// The mathematical value of a `RustItem`.
pub enum ItemModel {
    Function { name: Seq<char>, attributes: Seq<AttributeModel> },
    Module { name: Seq<char>, inline: bool, attributes: Seq<ModuleAttributeModel> },
    Other,
}

impl DeepView for RustItem {
    type V = ItemModel;

    open spec fn deep_view(&self) -> ItemModel {
        match self {
            RustItem::Function { name, attributes } => ItemModel::Function {
                name: name@,
                attributes: attributes.deep_view(),
            },
            RustItem::Module { name, inline, attributes } => ItemModel::Module {
                name: name@,
                inline: *inline,
                attributes: attributes.deep_view(),
            },
            RustItem::Other => ItemModel::Other,
        }
    }
}

/// The top-level items of the Rust file whose text is `content`, with each
/// function as `Function` and every other item as `Other`, or `None` when
/// `syn` does not accept the text as a Rust file.
pub uninterp spec fn rust_file_functions(content: Seq<char>) -> Option<Seq<ItemModel>>;

/// The top-level items of the Rust file whose text is `content`, with each
/// module declaration as `Module` and every other item as `Other`, or
/// `None` when `syn` does not accept the text as a Rust file.
pub uninterp spec fn rust_file_modules(content: Seq<char>) -> Option<Seq<ItemModel>>;

/// Whether `text` is a Rust path, such as `my_app::commands::greet`, as
/// `syn` reads one.
pub uninterp spec fn rust_path_parses(text: Seq<char>) -> bool;

/// Wraps `syn::parse_str::<syn::Path>`: whether the whole of `text` parses as
/// a Rust path. Claimed: the answer depends on the text alone.
#[verifier::external_body]
pub(crate) fn parses_as_rust_path(text: &str) -> (ok: bool)
    ensures
        ok == rust_path_parses(text@),
{
    syn::parse_str::<syn::Path>(text).is_ok()
}

/// Wraps `syn::parse_file`, read for the functions: lists the top-level
/// items, each function with its identifier and, for each of its
/// attributes, the identifiers of the attribute's path and whether the path
/// has a leading `::`; every other item as `Other`. Claimed: the result
/// depends on the text alone.
#[verifier::external_body]
pub(crate) fn parse_rust_functions(content: &str) -> (items: Option<Vec<RustItem>>)
    ensures
        items.deep_view() == rust_file_functions(content@),
{
    let file = syn::parse_file(content).ok()?;
    Some(file.items.iter().map(|item| match item {
        Item::Fn(f) => RustItem::Function { name: f.sig.ident.to_string(), attributes: f.attrs.iter().map(|a| RustAttribute {
            global: a.path().leading_colon.is_some(), path: a.path().segments.iter().map(|s| s.ident.to_string()).collect() }).collect() },
        _ => Other,
    }).collect())
}

/// Wraps `syn::parse_file`, read for the module declarations: lists the
/// top-level items, each module declaration with its identifier, whether
/// its body is in place, and for each of its attributes its path when that
/// is a single identifier (`syn::Path::get_ident`) and the value of its
/// argument when that is one string literal (`= "..."`, or `("...")` as
/// `Attribute::parse_args` reads it); every other item as `Other`.
/// Claimed: the result depends on the text alone.
#[verifier::external_body]
pub(crate) fn parse_rust_modules(content: &str) -> (items: Option<Vec<RustItem>>)
    ensures
        items.deep_view() == rust_file_modules(content@),
{
    syn::parse_file(content).ok().map(|file| file.items.iter().map(|item| match item {
        Mod(m) => Module { name: m.ident.to_string(), inline: m.content.is_some(), attributes: m.attrs.iter().map(|a| ModuleAttribute {
            ident: a.path().get_ident().map(ToString::to_string),
            string_argument: match &a.meta {
                NameValue(MetaNameValue { value: Expr::Lit(ExprLit { lit: Str(s), .. }), .. }) => Some(s.value()),
                List(_) => a.parse_args::<LitStr>().ok().map(|s| s.value()),
                _ => None
            } }).collect() },
        _ => Other
    }).collect())
}

} // verus!
