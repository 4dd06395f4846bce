use preflect_macros::{
    field_impl, has_field_derive_impl, impl_block, read_field_attribute, read_marker_tokens,
    validate_shape, CodeFragment, Declaration, DerivationError, ErrorKind, FieldDecl, Location,
    MarkerToken, Shape,
};
use syn::ItemImpl;

const PREFLECT: &str = "preflect::fields::HasField";
const PREFLECTION: &str = "preflection::fields::HasField";

fn ident(s: &str) -> MarkerToken {
    MarkerToken::Ident(s.to_string())
}

fn punct(c: char) -> MarkerToken {
    MarkerToken::Punct(c)
}

fn field(name: &str, ty: &str) -> FieldDecl {
    FieldDecl { name: Some(name.to_string()), ty: ty.to_string(), markers: vec![] }
}

fn marked(name: &str, ty: &str, markers: Vec<Vec<MarkerToken>>) -> FieldDecl {
    FieldDecl { name: Some(name.to_string()), ty: ty.to_string(), markers }
}

fn positional(ty: &str) -> FieldDecl {
    FieldDecl { name: None, ty: ty.to_string(), markers: vec![] }
}

fn record(name: &str, fields: Vec<FieldDecl>) -> Declaration {
    Declaration { ident: name.to_string(), shape: Shape::Record, fields }
}

fn make_field() -> FieldDecl {
    field("id", "u32")
}

fn parse_impl(text: &str) -> ItemImpl {
    syn::parse_str::<ItemImpl>(text).expect("generated block parses as an impl")
}

fn derive_ok(decl: &Declaration) -> CodeFragment {
    has_field_derive_impl(PREFLECT, decl).expect("derivation succeeds")
}

fn derive_err(decl: &Declaration) -> DerivationError {
    has_field_derive_impl(PREFLECT, decl).expect_err("derivation fails")
}

fn method_names(block: &ItemImpl) -> Vec<String> {
    block
        .items
        .iter()
        .filter_map(|item| match item {
            syn::ImplItem::Fn(f) => Some(f.sig.ident.to_string()),
            _ => None,
        })
        .collect()
}

#[test]
fn field_impl_test() {
    let ty_name = "User";
    let field = make_field();

    let actual = parse_impl(&field_impl(PREFLECT, ty_name, &field));
    let expected = parse_impl(
        r#"
        impl preflect::fields::HasField<u32, "id"> for User {
            fn get_field<'a>(&'a self) -> &'a u32 {
                &self.id
            }

            fn get_field_mut<'a>(&'a mut self) -> &'a mut u32 {
                &mut self.id
            }

            fn into_field(self) -> u32 {
                self.id
            }
        }
        "#,
    );

    assert_eq!(actual, expected)
}

#[test]
fn has_field_field_impl_test() {
    let ty_name = "User";
    let field = make_field();

    let actual = parse_impl(&field_impl(PREFLECTION, ty_name, &field));
    let expected = parse_impl(
        r#"
        impl preflection::fields::HasField<u32, "id"> for User {
            fn get_field<'a>(&'a self) -> &'a u32 {
                &self.id
            }

            fn get_field_mut<'a>(&'a mut self) -> &'a mut u32 {
                &mut self.id
            }

            fn into_field(self) -> u32 {
                self.id
            }
        }
        "#,
    );

    assert_eq!(actual, expected)
}

#[test]
fn impl_block_exact_text() {
    let text = impl_block("T", "S", "u8", "f", "\"f\"");
    assert_eq!(
        text,
        "impl T<u8, \"f\"> for S { fn get_field<'a>(&'a self) -> &'a u8 { &self.f } \
         fn get_field_mut<'a>(&'a mut self) -> &'a mut u8 { &mut self.f } \
         fn into_field(self) -> u8 { self.f } }"
    );
}

#[test]
fn field_name_is_rendered_as_string_literal() {
    let block = field_impl(PREFLECT, "User", &field("user_id", "Vec<u8>"));
    assert!(block.starts_with("impl preflect::fields::HasField<Vec<u8>, \"user_id\"> for User {"));
    assert!(block.contains("&self.user_id"));
}

#[test]
fn user_record_scenario() {
    let decl = record(
        "User",
        vec![
            field("id", "u32"),
            marked("secret", "String", vec![vec![ident("ignore")]]),
            field("name", "String"),
        ],
    );
    let frag = derive_ok(&decl);
    assert_eq!(frag.len(), 2);
    let id = parse_impl(&frag.blocks[0]);
    let name = parse_impl(&frag.blocks[1]);
    assert_eq!(id, parse_impl(&field_impl(PREFLECT, "User", &field("id", "u32"))));
    assert_eq!(name, parse_impl(&field_impl(PREFLECT, "User", &field("name", "String"))));
    for block in [&id, &name] {
        assert_eq!(method_names(block), vec!["get_field", "get_field_mut", "into_field"]);
    }
    assert!(frag.blocks[1].contains("\"name\""));
    assert!(!frag.to_source().contains("secret"));
}

#[test]
fn enum_status_scenario() {
    let decl = Declaration { ident: "Status".to_string(), shape: Shape::Sum, fields: vec![] };
    let err = derive_err(&decl);
    assert_eq!(err.kind, ErrorKind::UnsupportedShape);
    assert_eq!(err.location, Location::TypeName);
    assert_eq!(err.message, "`HasField` can only be derived for structs; `Status` is an enum");
}

#[test]
fn union_is_unsupported() {
    let decl = Declaration { ident: "Bits".to_string(), shape: Shape::Opaque, fields: vec![] };
    let err = derive_err(&decl);
    assert_eq!(err.kind, ErrorKind::UnsupportedShape);
    assert_eq!(err.location, Location::TypeName);
    assert_eq!(err.message, "`HasField` can only be derived for structs; `Bits` is a union");
}

#[test]
fn validate_shape_accepts_only_records() {
    assert!(validate_shape(&record("A", vec![])).is_ok());
    let sum = Declaration { ident: "E".to_string(), shape: Shape::Sum, fields: vec![] };
    assert_eq!(validate_shape(&sum).unwrap_err().kind, ErrorKind::UnsupportedShape);
}

#[test]
fn empty_record_derives_empty_fragment() {
    let frag = derive_ok(&record("Unit", vec![]));
    assert!(frag.is_empty());
    assert_eq!(frag.to_source(), "");
}

#[test]
fn all_ignored_derives_empty_fragment() {
    let decl = record(
        "Hidden",
        vec![
            marked("a", "u8", vec![vec![ident("ignore")]]),
            marked("b", "u16", vec![vec![ident("ignore"), punct('='), ident("true")]]),
        ],
    );
    let frag = derive_ok(&decl);
    assert!(frag.is_empty());
}

#[test]
fn block_count_is_fields_less_ignored() {
    let decl = record(
        "Wide",
        vec![
            field("a", "u8"),
            marked("b", "u8", vec![vec![ident("ignore")]]),
            field("c", "u8"),
            marked("d", "u8", vec![vec![ident("ignore"), punct('='), ident("false")]]),
            marked("e", "u8", vec![vec![ident("ignore"), punct(',')]]),
        ],
    );
    let frag = derive_ok(&decl);
    assert_eq!(frag.len(), 3);
    assert!(frag.blocks[0].contains("\"a\""));
    assert!(frag.blocks[1].contains("\"c\""));
    assert!(frag.blocks[2].contains("\"d\""));
}

#[test]
fn unknown_key_fails_whole_derivation() {
    let decl = record(
        "User",
        vec![
            field("id", "u32"),
            marked("secret", "String", vec![vec![ident("skip")]]),
            field("name", "String"),
        ],
    );
    let err = derive_err(&decl);
    assert_eq!(err.kind, ErrorKind::MalformedFieldAttribute);
    assert_eq!(err.location, Location::Field(1));
}

#[test]
fn unknown_key_after_ignore_fails() {
    let decl = record(
        "User",
        vec![marked("id", "u32", vec![vec![ident("ignore"), punct(','), ident("rename")]])],
    );
    assert_eq!(derive_err(&decl).kind, ErrorKind::MalformedFieldAttribute);
}

#[test]
fn positional_field_fails() {
    let decl = record("Pair", vec![positional("u8"), positional("u8")]);
    let err = derive_err(&decl);
    assert_eq!(err.kind, ErrorKind::UnnamedField);
    assert_eq!(err.location, Location::Field(0));
}

#[test]
fn first_error_wins() {
    let decl = record(
        "Mixed",
        vec![
            field("a", "u8"),
            positional("u8"),
            marked("c", "u8", vec![vec![ident("bogus")]]),
        ],
    );
    let err = derive_err(&decl);
    assert_eq!(err.kind, ErrorKind::UnnamedField);
    assert_eq!(err.location, Location::Field(1));
}

#[test]
fn derivation_is_deterministic() {
    let make = || {
        record(
            "User",
            vec![
                field("id", "u32"),
                marked("secret", "String", vec![vec![ident("ignore")]]),
                field("name", "String"),
            ],
        )
    };
    let first = derive_ok(&make()).to_source();
    let second = derive_ok(&make()).to_source();
    assert_eq!(first, second);
}

#[test]
fn to_source_joins_blocks_in_order() {
    let frag = derive_ok(&record("P", vec![field("x", "i32"), field("y", "i64")]));
    let joined = frag.to_source();
    assert_eq!(joined, format!("{}{}", frag.blocks[0], frag.blocks[1]));
    let tokens: proc_macro2::TokenStream = joined.parse().expect("generated source lexes");
    let file: syn::File = syn::parse2(tokens).expect("generated source parses");
    assert_eq!(file.items.len(), 2);
}

#[test]
fn marker_token_forms() {
    assert_eq!(read_marker_tokens(&vec![], false), Some(false));
    assert_eq!(read_marker_tokens(&vec![], true), Some(true));
    assert_eq!(read_marker_tokens(&vec![ident("ignore")], false), Some(true));
    assert_eq!(read_marker_tokens(&vec![ident("ignore"), punct(',')], false), Some(true));
    assert_eq!(
        read_marker_tokens(&vec![ident("ignore"), punct('='), ident("false")], true),
        Some(false)
    );
    assert_eq!(
        read_marker_tokens(
            &vec![ident("ignore"), punct(','), ident("ignore"), punct('='), ident("false")],
            false
        ),
        Some(false)
    );
}

#[test]
fn malformed_marker_tokens() {
    assert_eq!(read_marker_tokens(&vec![punct(',')], false), None);
    assert_eq!(read_marker_tokens(&vec![ident("ignore"), punct('=')], false), None);
    assert_eq!(
        read_marker_tokens(
            &vec![ident("ignore"), punct('='), MarkerToken::Literal("1".to_string())],
            false
        ),
        None
    );
    assert_eq!(
        read_marker_tokens(&vec![ident("ignore"), MarkerToken::Group("(x)".to_string())], false),
        None
    );
    assert_eq!(read_marker_tokens(&vec![ident("ignore"), punct(','), punct(',')], false), None);
    assert_eq!(read_marker_tokens(&vec![ident("Ignore")], false), None);
}

#[test]
fn several_marker_attributes_last_wins() {
    let f = marked(
        "a",
        "u8",
        vec![vec![ident("ignore")], vec![ident("ignore"), punct('='), ident("false")]],
    );
    assert_eq!(read_field_attribute(&f, 0).unwrap().ignore(), false);
    let g = marked("a", "u8", vec![vec![], vec![ident("ignore")]]);
    assert!(read_field_attribute(&g, 0).unwrap().ignore());
    assert!(!read_field_attribute(&field("a", "u8"), 0).unwrap().ignore());
}

#[test]
fn malformed_marker_error_points_at_field() {
    let f = marked("a", "u8", vec![vec![ident("ignore")], vec![ident("what")]]);
    let err = read_field_attribute(&f, 4).unwrap_err();
    assert_eq!(err.kind, ErrorKind::MalformedFieldAttribute);
    assert_eq!(err.location, Location::Field(4));
    assert!(err.message.contains("ignore"));
}
