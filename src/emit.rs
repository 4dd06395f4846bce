//! Emitting the `impl` block of the capability trait for one field.
use vstd::prelude::*;
use crate::model::FieldDecl;

verus! {

/// The name is made of ASCII letters, digits and underscores only.
pub open spec fn is_plain_name(name: Seq<char>) -> bool {
    forall|i: int|
        0 <= i < name.len() ==> {
            let c = #[trigger] name[i];
            ('a' <= c <= 'z') || ('A' <= c <= 'Z') || ('0' <= c <= '9') || c == '_'
        }
}

/// `lit` renders `name` as a string literal: for a plain name it is the
/// name between double quotes. Other names may be escaped.
pub open spec fn renders_name(name: Seq<char>, lit: Seq<char>) -> bool {
    is_plain_name(name) ==> lit == seq!['"'] + name + seq!['"']
}

/// Relies on `proc_macro2::Literal::string` and its `Display` impl: the
/// source text of a string literal with the value `s`. Whether the compiler
/// or proc_macro2's own code renders it, a plain name is only put between
/// double quotes; how other characters are escaped is left open.
#[verifier::external_body]
fn string_literal(s: &str) -> (r: String)
    ensures
        renders_name(s@, r@),
{
    proc_macro2::Literal::string(s).to_string()
}

/// The `impl` block that implements `trait_path<field_ty, name_lit>` for the
/// type `ty_name`, giving access to its field `field_name`: by shared
/// reference, by mutable reference, and by value, consuming the receiver.
pub open spec fn impl_text(
    trait_path: Seq<char>,
    ty_name: Seq<char>,
    field_ty: Seq<char>,
    field_name: Seq<char>,
    name_lit: Seq<char>,
) -> Seq<char> {
    "impl "@ + trait_path + "<"@ + field_ty + ", "@ + name_lit + "> for "@ + ty_name
        + " { fn get_field<'a>(&'a self) -> &'a "@ + field_ty + " { &self."@ + field_name
        + " } fn get_field_mut<'a>(&'a mut self) -> &'a mut "@ + field_ty + " { &mut self."@
        + field_name + " } fn into_field(self) -> "@ + field_ty + " { self."@ + field_name
        + " } }"@
}

/// `b` is an `impl` block emitted for the named field `f` of the type
/// `ty_name`, with some rendering of the field's name as a literal.
pub open spec fn is_block_for(trait_path: Seq<char>, ty_name: Seq<char>, f: FieldDecl, b: Seq<char>) -> bool {
    exists|lit: Seq<char>|
        renders_name(f.name->0@, lit) && b == #[trigger] impl_text(trait_path, ty_name, f.ty@, f.name->0@, lit)
}

/// Writes the `impl` block of `trait_path<field_ty, name_lit>` for
/// `ty_name`, where `name_lit` is the string literal that names the field
/// `field_name`.
pub fn impl_block(
    trait_path: &str,
    ty_name: &str,
    field_ty: &str,
    field_name: &str,
    name_lit: &str,
) -> (r: String)
    ensures
        r@ == impl_text(trait_path@, ty_name@, field_ty@, field_name@, name_lit@),
{
    let mut out = String::from_str("impl ");
    out.append(trait_path);
    out.append("<");
    out.append(field_ty);
    out.append(", ");
    out.append(name_lit);
    out.append("> for ");
    out.append(ty_name);
    out.append(" { fn get_field<'a>(&'a self) -> &'a ");
    out.append(field_ty);
    out.append(" { &self.");
    out.append(field_name);
    out.append(" } fn get_field_mut<'a>(&'a mut self) -> &'a mut ");
    out.append(field_ty);
    out.append(" { &mut self.");
    out.append(field_name);
    out.append(" } fn into_field(self) -> ");
    out.append(field_ty);
    out.append(" { self.");
    out.append(field_name);
    out.append(" } }");
    out
}

/// Emits the `impl` block for the named field `field` of the type `ty_name`.
pub fn field_impl(trait_path: &str, ty_name: &str, field: &FieldDecl) -> (r: String)
    requires
        field.name is Some,
    ensures
        is_block_for(trait_path@, ty_name@, *field, r@),
{
    let name = field.name.as_ref().unwrap();
    let lit = string_literal(name.as_str());
    let r = impl_block(trait_path, ty_name, field.ty.as_str(), name.as_str(), lit.as_str());
    assert(renders_name(name@, lit@) && r@ == impl_text(trait_path@, ty_name@, field.ty@, name@, lit@));
    r
}

} // verus!
