use vstd::prelude::*;

verus! {

/// The structural category of a type declaration.
#[derive(Clone, Copy, Debug, PartialEq, Eq, Structural)]
pub enum Shape {
    /// A struct: a product of fields.
    Record,
    /// An enum: a tagged union of alternatives.
    Sum,
    /// A union: no named field structure that can be addressed safely.
    Opaque,
}

/// One token of the argument list of a field's marker attribute,
/// `#[preflect(...)]`, as the host tokenizer produced it.
#[derive(Clone, Debug)]
pub enum MarkerToken {
    /// An identifier or keyword; `true` and `false` are identifiers too.
    Ident(String),
    /// A single punctuation character such as `,` or `=`.
    Punct(char),
    /// A literal, as it is written in the source.
    Literal(String),
    /// A delimited group, as it is written in the source.
    Group(String),
}

/// One field of a declaration.
#[derive(Clone, Debug)]
pub struct FieldDecl {
    /// The field's identifier; `None` for a positional field.
    pub name: Option<String>,
    /// The declared type, as source text. It is copied verbatim into
    /// generated code.
    pub ty: String,
    /// The argument tokens of each marker attribute on the field, in order.
    pub markers: Vec<Vec<MarkerToken>>,
}

/// The type declaration that `HasField` is derived for.
#[derive(Clone, Debug)]
pub struct Declaration {
    /// The declared type's identifier.
    pub ident: String,
    pub shape: Shape,
    /// The fields in declaration order. Only a record has any.
    pub fields: Vec<FieldDecl>,
}

/// What a field's marker attributes say.
#[derive(Clone, Copy, Debug, PartialEq, Eq, Structural)]
pub struct FieldAttribute {
    pub ignore: bool,
}

impl FieldAttribute {
    /// Whether the field is left out of the derivation.
    pub fn ignore(&self) -> (r: bool)
        ensures
            r == self.ignore,
    {
        self.ignore
    }
}

/// The kinds of error a derivation can end in.
#[derive(Clone, Copy, Debug, PartialEq, Eq, Structural)]
pub enum ErrorKind {
    /// The declaration is not a record.
    UnsupportedShape,
    /// A field's marker attribute is malformed or holds an unknown key.
    MalformedFieldAttribute,
    /// A field has no name.
    UnnamedField,
}

/// Where an error points in the declaration.
#[derive(Clone, Copy, Debug, PartialEq, Eq, Structural)]
pub enum Location {
    /// The declaration's type name.
    TypeName,
    /// The field at this index.
    Field(usize),
}

/// A failed derivation: what went wrong, where, and a message for the user.
#[derive(Clone, Debug)]
pub struct DerivationError {
    pub kind: ErrorKind,
    pub location: Location,
    pub message: String,
}

impl View for DerivationError {
    type V = (ErrorKind, Location, Seq<char>);

    open spec fn view(&self) -> (ErrorKind, Location, Seq<char>) {
        (self.kind, self.location, self.message@)
    }
}

/// Generated source: one `impl` block per derived field, in field order.
#[derive(Clone, Debug)]
pub struct CodeFragment {
    pub blocks: Vec<String>,
}

impl View for CodeFragment {
    type V = Seq<Seq<char>>;

    open spec fn view(&self) -> Seq<Seq<char>> {
        self.blocks@.map_values(|b: String| b@)
    }
}

impl CodeFragment {
    /// The number of `impl` blocks.
    pub fn len(&self) -> (r: usize)
        ensures
            r == self@.len(),
    {
        self.blocks.len()
    }

    /// Whether the fragment holds no `impl` block.
    pub fn is_empty(&self) -> (r: bool)
        ensures
            r == (self@.len() == 0),
    {
        self.blocks.len() == 0
    }

    /// The blocks joined, in order, into one piece of source text.
    pub fn to_source(&self) -> (r: String)
        ensures
            r@ == self@.flatten(),
    {
        let mut out = String::new();
        let mut i: usize = 0;
        while i < self.blocks.len()
            invariant
                i <= self.blocks.len(),
                out@ == self@.take(i as int).flatten(),
            decreases self.blocks.len() - i,
        {
            let ghost prefix = self@.take(i as int);
            assert(self@[i as int] == self.blocks@[i as int]@);
            assert(self@.take(i as int + 1) =~= prefix.push(self@[i as int]));
            proof {
                prefix.lemma_flatten_push(self@[i as int]);
            }
            out.append(self.blocks[i].as_str());
            i = i + 1;
        }
        assert(self@.take(i as int) =~= self@);
        out
    }
}

} // verus!
