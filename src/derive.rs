//! The derivation driver: shape check, then each field in order.
use vstd::prelude::*;
use crate::attr::{field_ignored, malformed_error, read_field_attribute};
use crate::emit::{field_impl, is_block_for};
use crate::model::{CodeFragment, Declaration, DerivationError, ErrorKind, FieldDecl, Location, Shape};

verus! {

/// The message of an error on a positional field.
pub const UNNAMED_MESSAGE: &'static str = "`HasField` can only be derived for fields with a name";

/// The error for a positional field at `index`.
pub open spec fn unnamed_error(index: usize) -> (ErrorKind, Location, Seq<char>) {
    (ErrorKind::UnnamedField, Location::Field(index), UNNAMED_MESSAGE@)
}

/// The message of an error on a declaration that is not a record.
pub open spec fn shape_message(d: Declaration) -> Seq<char> {
    "`HasField` can only be derived for structs; `"@ + d.ident@ + (if d.shape == Shape::Sum {
        "` is an enum"@
    } else {
        "` is a union"@
    })
}

/// The error for a declaration that is not a record.
pub open spec fn shape_error(d: Declaration) -> (ErrorKind, Location, Seq<char>) {
    (ErrorKind::UnsupportedShape, Location::TypeName, shape_message(d))
}

/// The outcome of deriving over `fields`: the fields that get a block, in
/// order, or the first error. It is the outcome for all fields but the last,
/// followed by the last field's own.
pub open spec fn derive_fields(fields: Seq<FieldDecl>) -> Result<Seq<FieldDecl>, (ErrorKind, Location, Seq<char>)>
    decreases fields.len(),
{
    if fields.len() == 0 {
        Ok(Seq::empty())
    } else {
        let i = fields.len() - 1;
        let f = fields[i];
        match derive_fields(fields.drop_last()) {
            Err(e) => Err(e),
            Ok(kept) => if f.name is None {
                Err(unnamed_error(i as usize))
            } else {
                match field_ignored(f) {
                    None => Err(malformed_error(i as usize)),
                    Some(true) => Ok(kept),
                    Some(false) => Ok(kept.push(f)),
                }
            },
        }
    }
}

/// The outcome of deriving for `d`: the fields that get a block, or the error.
pub open spec fn derivation(d: Declaration) -> Result<Seq<FieldDecl>, (ErrorKind, Location, Seq<char>)> {
    if d.shape != Shape::Record {
        Err(shape_error(d))
    } else {
        derive_fields(d.fields@)
    }
}

/// `blocks` is a successful derivation of the capability trait at
/// `trait_path` for `d`: one block for each field that gets one, in order.
pub open spec fn derives_to(trait_path: Seq<char>, d: Declaration, blocks: Seq<Seq<char>>) -> bool {
    &&& derivation(d) is Ok
    &&& blocks.len() == derivation(d)->Ok_0.len()
    &&& forall|j: int| 0 <= j < blocks.len() ==> is_block_for(trait_path, d.ident@, derivation(d)->Ok_0[j], #[trigger] blocks[j])
}

/// An error on a prefix of the fields is the error on all of them.
pub(crate) proof fn lemma_prefix_error(fields: Seq<FieldDecl>, m: int)
    requires
        0 <= m <= fields.len(),
        derive_fields(fields.take(m)) is Err,
    ensures
        derive_fields(fields) == derive_fields(fields.take(m)),
    decreases fields.len() - m,
{
    if m == fields.len() {
        assert(fields.take(m) =~= fields);
    } else {
        assert(fields.take(m + 1).drop_last() =~= fields.take(m));
        lemma_prefix_error(fields, m + 1);
    }
}

/// Checks that `decl` is a record.
pub fn validate_shape(decl: &Declaration) -> (r: Result<(), DerivationError>)
    ensures
        r is Ok <==> decl.shape == Shape::Record,
        r matches Err(e) ==> e@ == shape_error(*decl),
{
    match decl.shape {
        Shape::Record => Ok(()),
        _ => {
            let mut message = String::from_str("`HasField` can only be derived for structs; `");
            message.append(decl.ident.as_str());
            if decl.shape == Shape::Sum {
                message.append("` is an enum");
            } else {
                message.append("` is a union");
            }
            Err(DerivationError { kind: ErrorKind::UnsupportedShape, location: Location::TypeName, message })
        },
    }
}

/// Derives the capability trait at `trait_path` for `decl`: one `impl` block
/// for each field that is not ignored, in field order, or the first error.
pub fn has_field_derive_impl(trait_path: &str, decl: &Declaration) -> (r: Result<CodeFragment, DerivationError>)
    ensures
        match r {
            Ok(frag) => derives_to(trait_path@, *decl, frag@),
            Err(e) => derivation(*decl) == Err::<Seq<FieldDecl>, _>(e@),
        },
{
    match validate_shape(decl) {
        Ok(()) => {},
        Err(e) => {
            return Err(e);
        },
    }
    let ghost fields = decl.fields@;
    let ghost ty_name = decl.ident@;
    let ghost mut kept: Seq<FieldDecl> = Seq::empty();
    let n = decl.fields.len();
    let mut blocks: Vec<String> = Vec::new();
    let mut i: usize = 0;
    assert(fields.take(0) =~= Seq::<FieldDecl>::empty());
    while i < n
        invariant
            n == fields.len(),
            fields == decl.fields@,
            ty_name == decl.ident@,
            decl.shape == Shape::Record,
            i <= n,
            derive_fields(fields.take(i as int)) == Ok::<_, (ErrorKind, Location, Seq<char>)>(kept),
            blocks@.len() == kept.len(),
            forall|j: int| 0 <= j < kept.len() ==> is_block_for(trait_path@, ty_name, kept[j], #[trigger] blocks@[j]@),
        decreases n - i,
    {
        assert(fields.take(i as int + 1).drop_last() =~= fields.take(i as int));
        assert(fields.take(i as int + 1)[i as int] == fields[i as int]);
        let field = &decl.fields[i];
        if field.name.is_none() {
            proof {
                lemma_prefix_error(fields, i as int + 1);
            }
            return Err(DerivationError {
                kind: ErrorKind::UnnamedField,
                location: Location::Field(i),
                message: String::from_str(UNNAMED_MESSAGE),
            });
        }
        match read_field_attribute(field, i) {
            Err(e) => {
                proof {
                    lemma_prefix_error(fields, i as int + 1);
                }
                return Err(e);
            },
            Ok(attr) => {
                if !attr.ignore() {
                    let block = field_impl(trait_path, decl.ident.as_str(), field);
                    blocks.push(block);
                    proof {
                        kept = kept.push(*field);
                    }
                }
            },
        }
        i = i + 1;
    }
    assert(fields.take(n as int) =~= fields);
    let frag = CodeFragment { blocks };
    assert forall|j: int| 0 <= j < frag@.len() implies is_block_for(trait_path@, ty_name, kept[j], #[trigger] frag@[j]) by {
        assert(frag@[j] == frag.blocks@[j]@);
    }
    Ok(frag)
}

} // verus!
