//! Reading a field's marker attributes, `#[preflect(...)]`.
//!
//! The argument list of a marker attribute is a comma-separated list of
//! entries, with an optional trailing comma. The one key is `ignore`, written
//! alone (meaning `true`) or as `ignore = true` / `ignore = false`. Where a
//! field carries several marker attributes, or one key several times, the
//! last entry wins. Anything else is an error.
use vstd::prelude::*;
use crate::model::{DerivationError, ErrorKind, FieldAttribute, FieldDecl, Location, MarkerToken};

verus! {

/// The token is the identifier `text`.
pub open spec fn is_ident(t: MarkerToken, text: Seq<char>) -> bool {
    match t {
        MarkerToken::Ident(s) => s@ == text,
        _ => false,
    }
}

/// The token is the punctuation character `c`.
pub open spec fn is_punct(t: MarkerToken, c: char) -> bool {
    match t {
        MarkerToken::Punct(p) => p == c,
        _ => false,
    }
}

/// The `ignore` entry that starts at `i`, if one does: the number of tokens
/// it spans and the value it sets.
pub open spec fn entry_at(toks: Seq<MarkerToken>, i: int) -> Option<(int, bool)> {
    if !(0 <= i < toks.len()) || !is_ident(toks[i], "ignore"@) {
        None
    } else if i + 1 == toks.len() || is_punct(toks[i + 1], ',') {
        Some((1, true))
    } else if is_punct(toks[i + 1], '=') && i + 2 < toks.len() && is_ident(toks[i + 2], "true"@) {
        Some((3, true))
    } else if is_punct(toks[i + 1], '=') && i + 2 < toks.len() && is_ident(toks[i + 2], "false"@) {
        Some((3, false))
    } else {
        None
    }
}

/// The value of `ignore` after reading the entries from `i` on, starting
/// from `acc`; `None` where the tokens from `i` on are not a valid list.
pub open spec fn entries_value(toks: Seq<MarkerToken>, i: int, acc: bool) -> Option<bool>
    decreases toks.len() - i,
{
    if i >= toks.len() {
        Some(acc)
    } else {
        match entry_at(toks, i) {
            None => None,
            Some((k, v)) => if i + k == toks.len() {
                Some(v)
            } else if is_punct(toks[i + k], ',') {
                entries_value(toks, i + k + 1, v)
            } else {
                None
            },
        }
    }
}

/// The value of `ignore` after reading the marker blocks in order, starting
/// from `acc`; `None` where one of them is not a valid list.
pub open spec fn markers_value(blocks: Seq<Seq<MarkerToken>>, acc: bool) -> Option<bool>
    decreases blocks.len(),
{
    if blocks.len() == 0 {
        Some(acc)
    } else {
        match entries_value(blocks[0], 0, acc) {
            None => None,
            Some(v) => markers_value(blocks.drop_first(), v),
        }
    }
}

/// The argument tokens of each of the field's marker attributes.
pub open spec fn marker_blocks(f: FieldDecl) -> Seq<Seq<MarkerToken>> {
    f.markers@.map_values(|b: Vec<MarkerToken>| b@)
}

/// Whether the field is ignored, or `None` where its markers are malformed.
pub open spec fn field_ignored(f: FieldDecl) -> Option<bool> {
    markers_value(marker_blocks(f), false)
}

fn ident_is(t: &MarkerToken, text: &str) -> (r: bool)
    ensures
        r == is_ident(*t, text@),
{
    match t {
        MarkerToken::Ident(s) => *s == String::from_str(text),
        _ => false,
    }
}

fn punct_is(t: &MarkerToken, c: char) -> (r: bool)
    ensures
        r == is_punct(*t, c),
{
    match t {
        MarkerToken::Punct(p) => *p == c,
        _ => false,
    }
}

/// Reads the argument tokens of one marker attribute, starting from the
/// value `acc` that earlier attributes left.
pub fn read_marker_tokens(toks: &Vec<MarkerToken>, acc: bool) -> (r: Option<bool>)
    ensures
        r == entries_value(toks@, 0, acc),
{
    let n = toks.len();
    let mut i: usize = 0;
    let mut cur = acc;
    while i < n
        invariant
            n == toks@.len(),
            i <= n,
            entries_value(toks@, i as int, cur) == entries_value(toks@, 0, acc),
        decreases n - i,
    {
        if !ident_is(&toks[i], "ignore") {
            return None;
        }
        let k: usize;
        let v: bool;
        if i + 1 == n || punct_is(&toks[i + 1], ',') {
            k = 1;
            v = true;
        } else if punct_is(&toks[i + 1], '=') && i + 2 < n && ident_is(&toks[i + 2], "true") {
            k = 3;
            v = true;
        } else if punct_is(&toks[i + 1], '=') && i + 2 < n && ident_is(&toks[i + 2], "false") {
            k = 3;
            v = false;
        } else {
            return None;
        }
        assert(entry_at(toks@, i as int) == Some((k as int, v)));
        if i + k == n {
            return Some(v);
        }
        if !punct_is(&toks[i + k], ',') {
            return None;
        }
        cur = v;
        i = i + k + 1;
    }
    Some(cur)
}

/// Reads the marker attributes of the field at `index`.
pub fn read_field_attribute(field: &FieldDecl, index: usize) -> (r: Result<FieldAttribute, DerivationError>)
    ensures
        match r {
            Ok(a) => field_ignored(*field) == Some(a.ignore),
            Err(e) => field_ignored(*field) is None && e@ == malformed_error(index),
        },
{
    let n = field.markers.len();
    let mut j: usize = 0;
    let mut cur = false;
    assert(marker_blocks(*field).skip(0) =~= marker_blocks(*field));
    while j < n
        invariant
            n == field.markers@.len(),
            j <= n,
            markers_value(marker_blocks(*field).skip(j as int), cur) == field_ignored(*field),
        decreases n - j,
    {
        let ghost blocks = marker_blocks(*field);
        assert(blocks.skip(j as int).drop_first() =~= blocks.skip(j as int + 1));
        match read_marker_tokens(&field.markers[j], cur) {
            Some(v) => {
                cur = v;
            },
            None => {
                return Err(DerivationError {
                    kind: ErrorKind::MalformedFieldAttribute,
                    location: Location::Field(index),
                    message: String::from_str(MALFORMED_MESSAGE),
                });
            },
        }
        j = j + 1;
    }
    assert(marker_blocks(*field).skip(j as int) =~= Seq::<Seq<MarkerToken>>::empty());
    Ok(FieldAttribute { ignore: cur })
}

/// The message of an error on a malformed marker attribute.
pub const MALFORMED_MESSAGE: &'static str = "malformed `preflect` attribute: the only key is `ignore`, written `ignore`, `ignore = true` or `ignore = false`";

/// The error for a malformed marker attribute on the field at `index`.
pub open spec fn malformed_error(index: usize) -> (ErrorKind, Location, Seq<char>) {
    (ErrorKind::MalformedFieldAttribute, Location::Field(index), MALFORMED_MESSAGE@)
}

} // verus!
