//! The `From` conversions that the `WithLogging` derive writes for the
//! variants of an error enum.
use vstd::prelude::*;
use crate::rust_source::{AttributeModel, RustAttribute};
use crate::text::chars_of;

verus! {

/// The type of a variant field: the segments of its path when it is
/// written as a path (`std::string::String` is `["std", "string", "String"]`),
/// `None` for any other type.
#[derive(Debug, Clone)]
pub struct FieldType {
    pub path: Option<Vec<String>>,
}

/// The field type is `String`: a path whose last segment is `String`.
pub open spec fn is_string_type_spec(path: Option<Seq<Seq<char>>>) -> bool {
    match path {
        Some(segs) => segs.len() > 0 && segs.last() == "String"@,
        None => false,
    }
}

/// Whether the field type is `String` (by its last path segment).
pub fn is_string_type(ty: &FieldType) -> (r: bool)
    ensures
        r == is_string_type_spec(ty.path.deep_view()),
{
    match &ty.path {
        Some(segs) => {
            if segs.len() == 0 {
                return false;
            }
            let last = chars_of(segs[segs.len() - 1].as_str());
            let expected = chars_of("String");
            let r = crate::text::chars_equal(&last, &expected);
            proof {
                assert(segs.deep_view().last() == segs@[segs@.len() - 1]@);
            }
            r
        },
        None => false,
    }
}

/// The fields of an enum variant.
#[derive(Debug, Clone)]
pub enum VariantFields {
    Unit,
    Unnamed(Vec<FieldType>),
    Named(Vec<FieldType>),
}

/// An enum variant as the derive sees it: its attributes and its fields.
#[derive(Debug, Clone)]
pub struct VariantShape {
    pub attributes: Vec<RustAttribute>,
    pub fields: VariantFields,
}

/// The conversion that the derive writes for a variant: from the type named
/// in `#[logging_from(T)]` into a single-field variant (through `to_string`
/// when the field is a `String`, through `into` otherwise), or from the tuple
/// of the fields of a tuple-like or struct-like variant.
#[derive(PartialEq, Eq, Structural, Clone, Copy, Debug)]
pub enum FromImplKind {
    Converted { via_to_string: bool },
    FromTuple,
    FromFields,
}

/// The attribute is `#[logging_from(...)]`.
pub open spec fn is_logging_from(a: AttributeModel) -> bool {
    !a.global && a.path == seq!["logging_from"@]
}

/// Some attribute is `#[logging_from(...)]`.
pub open spec fn has_logging_from(attrs: Seq<AttributeModel>) -> bool {
    exists|i: int| 0 <= i < attrs.len() && #[trigger] is_logging_from(attrs[i])
}

/// The conversion written for a variant with `attributes` and `fields`:
/// a single unnamed field converts from the `#[logging_from]` type when that
/// attribute is present (and nothing is written without it); other unnamed
/// fields convert from their tuple; named fields from the tuple of their
/// values; a unit variant gets nothing.
pub open spec fn from_impl_spec(
    attributes: Seq<AttributeModel>,
    fields: VariantFields,
) -> Option<FromImplKind> {
    match fields {
        VariantFields::Unit => None,
        VariantFields::Unnamed(types) => if types@.len() == 1 {
            if has_logging_from(attributes) {
                Some(
                    FromImplKind::Converted {
                        via_to_string: is_string_type_spec(types@[0].path.deep_view()),
                    },
                )
            } else {
                None
            }
        } else {
            Some(FromImplKind::FromTuple)
        },
        VariantFields::Named(_) => Some(FromImplKind::FromFields),
    }
}

fn logging_from_present(attrs: &Vec<RustAttribute>) -> (r: bool)
    ensures
        r == has_logging_from(attrs.deep_view()),
{
    let ghost av = attrs.deep_view();
    let mut i: usize = 0;
    while i < attrs.len()
        invariant
            av == attrs.deep_view(),
            i <= attrs@.len(),
            forall|j: int| 0 <= j < i ==> !#[trigger] is_logging_from(av[j]),
        decreases attrs@.len() - i,
    {
        let a = &attrs[i];
        assert(av[i as int] == a.deep_view());
        if !a.global && a.path.len() == 1 {
            let first = chars_of(a.path[0].as_str());
            let expected = chars_of("logging_from");
            if crate::text::chars_equal(&first, &expected) {
                assert(a.deep_view().path =~= seq!["logging_from"@]);
                assert(is_logging_from(av[i as int]));
                return true;
            }
            assert(a.deep_view().path[0] == a.path@[0]@);
        }
        proof {
            if is_logging_from(av[i as int]) {
                assert(av[i as int].path.len() == 1);
            }
        }
        i = i + 1;
    }
    false
}

/// The conversion that the derive writes for the variant `v`, if any.
pub fn from_impl_for_variant(v: &VariantShape) -> (r: Option<FromImplKind>)
    ensures
        r == from_impl_spec(v.attributes.deep_view(), v.fields),
{
    match &v.fields {
        VariantFields::Unit => None,
        VariantFields::Unnamed(types) => {
            if types.len() == 1 {
                if logging_from_present(&v.attributes) {
                    Some(FromImplKind::Converted { via_to_string: is_string_type(&types[0]) })
                } else {
                    None
                }
            } else {
                Some(FromImplKind::FromTuple)
            }
        },
        VariantFields::Named(_) => Some(FromImplKind::FromFields),
    }
}

} // verus!
