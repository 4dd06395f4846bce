//! Properties of the derivation as a whole.
use vstd::prelude::*;
use crate::attr::{entries_value, entry_at, field_ignored, is_ident, is_punct, marker_blocks, markers_value};
use crate::derive::{derivation, derive_fields, derives_to, lemma_prefix_error, shape_error};
use crate::emit::{impl_text, is_block_for, is_plain_name, renders_name};
use crate::model::{Declaration, ErrorKind, FieldDecl, Location, MarkerToken, Shape};

verus! {

/// The fields that are derived: those whose markers read as not ignored.
pub open spec fn kept_fields(fields: Seq<FieldDecl>) -> Seq<FieldDecl> {
    fields.filter(|f: FieldDecl| field_ignored(f) == Some(false))
}

/// The fields that are marked ignored.
pub open spec fn ignored_fields(fields: Seq<FieldDecl>) -> Seq<FieldDecl> {
    fields.filter(|f: FieldDecl| field_ignored(f) == Some(true))
}

proof fn lemma_fields_ok(fields: Seq<FieldDecl>)
    requires
        derive_fields(fields) is Ok,
    ensures
        derive_fields(fields)->Ok_0 == kept_fields(fields),
        fields.len() == kept_fields(fields).len() + ignored_fields(fields).len(),
    decreases fields.len(),
{
    if fields.len() > 0 {
        let p = fields.drop_last();
        lemma_fields_ok(p);
        reveal_with_fuel(Seq::filter, 1);
    }
}

/// A successful derivation gives a block to each field that is not
/// ignored, in declaration order: as many as there are fields, less the
/// ignored ones. (How each block reads is in `derives_to`.)
pub proof fn lemma_one_block_per_kept_field(trait_path: Seq<char>, d: Declaration, blocks: Seq<Seq<char>>)
    requires
        derives_to(trait_path, d, blocks),
    ensures
        derivation(d)->Ok_0 == kept_fields(d.fields@),
        blocks.len() == d.fields@.len() - ignored_fields(d.fields@).len(),
        forall|j: int| 0 <= j < blocks.len() ==> is_block_for(trait_path, d.ident@, kept_fields(d.fields@)[j], #[trigger] blocks[j]),
{
    lemma_fields_ok(d.fields@);
}

proof fn lemma_all_ignored(fields: Seq<FieldDecl>)
    requires
        forall|i: int| 0 <= i < fields.len() ==> (#[trigger] fields[i]).name is Some && field_ignored(fields[i]) == Some(true),
    ensures
        derive_fields(fields) == Ok::<_, (ErrorKind, Location, Seq<char>)>(Seq::<FieldDecl>::empty()),
    decreases fields.len(),
{
    if fields.len() > 0 {
        let p = fields.drop_last();
        assert forall|i: int| 0 <= i < p.len() implies (#[trigger] p[i]).name is Some && field_ignored(p[i]) == Some(true) by {
            assert(p[i] == fields[i]);
        }
        lemma_all_ignored(p);
        assert(fields[fields.len() - 1] == fields.last());
    }
}

/// A record with no fields, or whose fields are all named and ignored,
/// derives successfully to an empty fragment.
pub proof fn lemma_nothing_kept_is_empty(trait_path: Seq<char>, d: Declaration)
    requires
        d.shape == Shape::Record,
        forall|i: int| 0 <= i < d.fields@.len() ==> (#[trigger] d.fields@[i]).name is Some && field_ignored(d.fields@[i]) == Some(true),
    ensures
        derivation(d) == Ok::<_, (ErrorKind, Location, Seq<char>)>(Seq::<FieldDecl>::empty()),
        derives_to(trait_path, d, Seq::empty()),
{
    lemma_all_ignored(d.fields@);
}

/// A declaration that is not a record always fails, with an unsupported
/// shape error at its type name.
pub proof fn lemma_non_record_fails(d: Declaration)
    requires
        d.shape != Shape::Record,
    ensures
        derivation(d) == Err::<Seq<FieldDecl>, _>(shape_error(d)),
        shape_error(d).0 == ErrorKind::UnsupportedShape,
        shape_error(d).1 == Location::TypeName,
{
}

/// Somewhere a key stands (at the start, or after a comma), the tokens hold
/// an identifier other than `ignore`.
pub open spec fn has_unknown_key(toks: Seq<MarkerToken>) -> bool {
    exists|p: int|
        0 <= p < toks.len() && (p == 0 || is_punct(toks[p - 1], ',')) && (#[trigger] toks[p] is Ident)
            && !is_ident(toks[p], "ignore"@)
}

proof fn lemma_keys_of_valid_list(toks: Seq<MarkerToken>, i: int, acc: bool, p: int)
    requires
        entries_value(toks, i, acc) is Some,
        0 <= i <= p < toks.len(),
        p == i || is_punct(toks[p - 1], ','),
    ensures
        is_ident(toks[p], "ignore"@),
    decreases toks.len() - i,
{
    if p != i {
        let (k, v) = entry_at(toks, i)->Some_0;
        lemma_keys_of_valid_list(toks, i + k + 1, v, p);
    }
}

proof fn lemma_unknown_key_block(toks: Seq<MarkerToken>, acc: bool)
    requires
        has_unknown_key(toks),
    ensures
        entries_value(toks, 0, acc) is None,
{
    let p = choose|p: int|
        0 <= p < toks.len() && (p == 0 || is_punct(toks[p - 1], ',')) && (#[trigger] toks[p] is Ident)
            && !is_ident(toks[p], "ignore"@);
    if entries_value(toks, 0, acc) is Some {
        lemma_keys_of_valid_list(toks, 0, acc, p);
    }
}

proof fn lemma_unknown_key_markers(blocks: Seq<Seq<MarkerToken>>, acc: bool, j: int)
    requires
        0 <= j < blocks.len(),
        has_unknown_key(blocks[j]),
    ensures
        markers_value(blocks, acc) is None,
    decreases j,
{
    if j == 0 {
        lemma_unknown_key_block(blocks[0], acc);
    } else if let Some(v) = entries_value(blocks[0], 0, acc) {
        assert(blocks.drop_first()[j - 1] == blocks[j]);
        lemma_unknown_key_markers(blocks.drop_first(), v, j - 1);
    }
}

proof fn lemma_named_fields_fail_malformed(fields: Seq<FieldDecl>)
    requires
        forall|i: int| 0 <= i < fields.len() ==> (#[trigger] fields[i]).name is Some,
    ensures
        derive_fields(fields) matches Err(e) ==> e.0 == ErrorKind::MalformedFieldAttribute,
    decreases fields.len(),
{
    if fields.len() > 0 {
        let p = fields.drop_last();
        assert forall|i: int| 0 <= i < p.len() implies (#[trigger] p[i]).name is Some by {
            assert(p[i] == fields[i]);
        }
        lemma_named_fields_fail_malformed(p);
        assert(fields[fields.len() - 1] == fields.last());
    }
}

/// A field whose marker attribute holds an unknown key makes the whole
/// derivation fail with a malformed attribute error, so that no block is
/// emitted for any field, provided no field up to it is positional (that
/// error comes first).
pub proof fn lemma_unknown_key_fails(d: Declaration, i: int, j: int)
    requires
        d.shape == Shape::Record,
        0 <= i < d.fields@.len(),
        forall|k: int| 0 <= k <= i ==> (#[trigger] d.fields@[k]).name is Some,
        0 <= j < d.fields@[i].markers@.len(),
        has_unknown_key(d.fields@[i].markers@[j]@),
    ensures
        derivation(d) is Err,
        derivation(d)->Err_0.0 == ErrorKind::MalformedFieldAttribute,
{
    let fields = d.fields@;
    let f = fields[i];
    assert(marker_blocks(f)[j] == f.markers@[j]@);
    lemma_unknown_key_markers(marker_blocks(f), false, j);
    let prefix = fields.take(i + 1);
    assert(prefix.drop_last() =~= fields.take(i));
    assert(prefix.last() == f);
    assert forall|k: int| 0 <= k < prefix.len() implies (#[trigger] prefix[k]).name is Some by {
        assert(prefix[k] == fields[k]);
    }
    lemma_named_fields_fail_malformed(prefix);
    lemma_prefix_error(fields, i + 1);
}

/// The two tokens are the same: same kind, same text.
pub open spec fn same_token(a: MarkerToken, b: MarkerToken) -> bool {
    match (a, b) {
        (MarkerToken::Ident(x), MarkerToken::Ident(y)) => x@ == y@,
        (MarkerToken::Punct(x), MarkerToken::Punct(y)) => x == y,
        (MarkerToken::Literal(x), MarkerToken::Literal(y)) => x@ == y@,
        (MarkerToken::Group(x), MarkerToken::Group(y)) => x@ == y@,
        _ => false,
    }
}

/// The two token lists are the same, token for token.
pub open spec fn same_tokens(a: Seq<MarkerToken>, b: Seq<MarkerToken>) -> bool {
    &&& a.len() == b.len()
    &&& forall|i: int| 0 <= i < a.len() ==> same_token(#[trigger] a[i], b[i])
}

/// The two fields have the same name, type text and marker tokens.
pub open spec fn same_field(a: FieldDecl, b: FieldDecl) -> bool {
    &&& (a.name is Some) == (b.name is Some)
    &&& a.name is Some ==> a.name->0@ == b.name->0@
    &&& a.ty@ == b.ty@
    &&& a.markers@.len() == b.markers@.len()
    &&& forall|j: int| 0 <= j < a.markers@.len() ==> same_tokens(#[trigger] a.markers@[j]@, b.markers@[j]@)
}

/// The two declarations are structurally identical.
pub open spec fn same_declaration(a: Declaration, b: Declaration) -> bool {
    &&& a.ident@ == b.ident@
    &&& a.shape == b.shape
    &&& a.fields@.len() == b.fields@.len()
    &&& forall|i: int| 0 <= i < a.fields@.len() ==> same_field(#[trigger] a.fields@[i], b.fields@[i])
}

proof fn lemma_same_entries(a: Seq<MarkerToken>, b: Seq<MarkerToken>, i: int, acc: bool)
    requires
        same_tokens(a, b),
        0 <= i,
    ensures
        entries_value(a, i, acc) == entries_value(b, i, acc),
    decreases a.len() - i,
{
    if i < a.len() {
        assert(same_token(a[i], b[i]));
        if i + 1 < a.len() {
            assert(same_token(a[i + 1], b[i + 1]));
        }
        if i + 2 < a.len() {
            assert(same_token(a[i + 2], b[i + 2]));
        }
        assert(entry_at(a, i) == entry_at(b, i));
        if let Some((k, v)) = entry_at(a, i) {
            if i + k < a.len() {
                assert(same_token(a[i + k], b[i + k]));
                lemma_same_entries(a, b, i + k + 1, v);
            }
        }
    }
}

proof fn lemma_same_markers(a: Seq<Seq<MarkerToken>>, b: Seq<Seq<MarkerToken>>, acc: bool)
    requires
        a.len() == b.len(),
        forall|j: int| 0 <= j < a.len() ==> same_tokens(#[trigger] a[j], b[j]),
    ensures
        markers_value(a, acc) == markers_value(b, acc),
    decreases a.len(),
{
    if a.len() > 0 {
        assert(same_tokens(a[0], b[0]));
        lemma_same_entries(a[0], b[0], 0, acc);
        if let Some(v) = entries_value(a[0], 0, acc) {
            assert forall|j: int| 0 <= j < a.drop_first().len() implies same_tokens(
                #[trigger] a.drop_first()[j],
                b.drop_first()[j],
            ) by {
                assert(same_tokens(a[j + 1], b[j + 1]));
            }
            lemma_same_markers(a.drop_first(), b.drop_first(), v);
        }
    }
}

/// The two field lists are the same, field for field.
pub open spec fn same_fields(a: Seq<FieldDecl>, b: Seq<FieldDecl>) -> bool {
    &&& a.len() == b.len()
    &&& forall|i: int| 0 <= i < a.len() ==> same_field(#[trigger] a[i], b[i])
}

proof fn lemma_same_fields(a: Seq<FieldDecl>, b: Seq<FieldDecl>)
    requires
        same_fields(a, b),
    ensures
        derive_fields(a) is Ok <==> derive_fields(b) is Ok,
        derive_fields(a) is Err ==> derive_fields(a) == derive_fields(b),
        derive_fields(a) is Ok ==> same_fields(derive_fields(a)->Ok_0, derive_fields(b)->Ok_0),
    decreases a.len(),
{
    if a.len() > 0 {
        let n = a.len() - 1;
        assert forall|i: int| 0 <= i < n implies same_field(#[trigger] a.drop_last()[i], b.drop_last()[i]) by {
            assert(same_field(a[i], b[i]));
        }
        lemma_same_fields(a.drop_last(), b.drop_last());
        let fa = a[n];
        let fb = b[n];
        assert(same_field(fa, fb));
        assert forall|j: int| 0 <= j < marker_blocks(fa).len() implies same_tokens(
            #[trigger] marker_blocks(fa)[j],
            marker_blocks(fb)[j],
        ) by {
            assert(same_tokens(fa.markers@[j]@, fb.markers@[j]@));
        }
        lemma_same_markers(marker_blocks(fa), marker_blocks(fb), false);
        assert(a.last() == fa && b.last() == fb);
        if derive_fields(a) is Ok {
            let ka = derive_fields(a.drop_last())->Ok_0;
            let kb = derive_fields(b.drop_last())->Ok_0;
            if field_ignored(fa) == Some(false) {
                assert forall|i: int| 0 <= i < ka.len() + 1 implies same_field(
                    #[trigger] ka.push(fa)[i],
                    kb.push(fb)[i],
                ) by {
                    if i < ka.len() {
                        assert(same_field(ka[i], kb[i]));
                    }
                }
            }
        }
    }
}

proof fn lemma_kept_names_plain(fields: Seq<FieldDecl>)
    requires
        forall|i: int| 0 <= i < fields.len() && (#[trigger] fields[i]).name is Some ==> is_plain_name(fields[i].name->0@),
        derive_fields(fields) is Ok,
    ensures
        forall|j: int| 0 <= j < derive_fields(fields)->Ok_0.len() ==> {
            let f = #[trigger] derive_fields(fields)->Ok_0[j];
            f.name is Some && is_plain_name(f.name->0@)
        },
    decreases fields.len(),
{
    if fields.len() > 0 {
        let p = fields.drop_last();
        assert forall|i: int| 0 <= i < p.len() && (#[trigger] p[i]).name is Some implies is_plain_name(p[i].name->0@) by {
            assert(p[i] == fields[i]);
        }
        lemma_kept_names_plain(p);
        assert(fields[fields.len() - 1] == fields.last());
    }
}

/// Deriving from structurally identical declarations has the same outcome:
/// the same error, or success on both with the same fields kept.
pub proof fn lemma_same_outcome(a: Declaration, b: Declaration)
    requires
        same_declaration(a, b),
    ensures
        derivation(a) is Ok <==> derivation(b) is Ok,
        derivation(a) is Err ==> derivation(a) == derivation(b),
        derivation(a) is Ok ==> same_fields(derivation(a)->Ok_0, derivation(b)->Ok_0),
{
    lemma_same_fields(a.fields@, b.fields@);
}

/// Deriving twice from structurally identical declarations whose field
/// names are made of ASCII letters, digits and underscores gives the same
/// blocks, character for character.
pub proof fn lemma_derivation_deterministic(
    trait_path: Seq<char>,
    a: Declaration,
    b: Declaration,
    x: Seq<Seq<char>>,
    y: Seq<Seq<char>>,
)
    requires
        same_declaration(a, b),
        forall|i: int| 0 <= i < a.fields@.len() && (#[trigger] a.fields@[i]).name is Some ==> is_plain_name(a.fields@[i].name->0@),
        derives_to(trait_path, a, x),
        derives_to(trait_path, b, y),
    ensures
        x == y,
{
    lemma_same_outcome(a, b);
    lemma_kept_names_plain(a.fields@);
    let ka = derivation(a)->Ok_0;
    let kb = derivation(b)->Ok_0;
    assert forall|j: int| 0 <= j < x.len() implies x[j] == y[j] by {
        assert(same_field(ka[j], kb[j]));
        assert(is_block_for(trait_path, a.ident@, ka[j], x[j]));
        assert(is_block_for(trait_path, b.ident@, kb[j], y[j]));
        let fa = ka[j];
        let fb = kb[j];
        let la = choose|lit: Seq<char>| renders_name(fa.name->0@, lit) && x[j] == impl_text(trait_path, a.ident@, fa.ty@, fa.name->0@, lit);
        let lb = choose|lit: Seq<char>| renders_name(fb.name->0@, lit) && y[j] == impl_text(trait_path, b.ident@, fb.ty@, fb.name->0@, lit);
        assert(la == lb);
    }
    assert(x =~= y);
}

} // verus!
