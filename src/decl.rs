//! The shape of a record declaration, as plain values.

use vstd::prelude::*;
use vstd::string::*;

verus! {

/// An annotation attached to a declaration or to a field: its name, and the
/// text inside its parentheses when it has a parenthesised argument list.
#[derive(Clone, Debug, PartialEq, Eq)]
pub struct Attribute {
    pub name: String,
    pub args: Option<String>,
}

/// One named field: its identifier, the text of its declared type, and its
/// annotations in order.
#[derive(Clone, Debug, PartialEq, Eq)]
pub struct FieldDecl {
    pub name: String,
    pub ty: String,
    pub attrs: Vec<Attribute>,
}

/// What the declaration declares.
#[derive(Clone, Debug, PartialEq, Eq)]
pub enum Body {
    /// A record with named fields, in declaration order.
    Named(Vec<FieldDecl>),
    /// A record with positional fields.
    Tuple,
    /// A record without fields.
    Unit,
    Enum,
    Union,
}

/// A declaration handed to the generators: its identifier, its annotations in
/// order, and its body.
#[derive(Clone, Debug, PartialEq, Eq)]
pub struct RecordDecl {
    pub ident: String,
    pub attrs: Vec<Attribute>,
    pub body: Body,
}

/// Why a generator refuses a declaration.
#[derive(Clone, Copy, Debug, PartialEq, Eq)]
pub enum SynthError {
    /// The declaration is not a record with named fields.
    NotNamedRecord,
    /// The builder is asked for without the `StructFields` annotation.
    MissingFieldNames,
    /// Two variants of a generated union would get the same name: the one at
    /// `second` repeats the one at `first`.
    VariantCollision { first: usize, second: usize },
}

pub open spec fn attr_names(attrs: Seq<Attribute>) -> Seq<Seq<char>> {
    attrs.map_values(|a: Attribute| a.name@)
}

/// The argument texts of the annotations of `attrs` named `name`, in order;
/// an annotation without an argument list contributes nothing.
pub open spec fn args_named(attrs: Seq<Attribute>, name: Seq<char>) -> Seq<Seq<char>>
    decreases attrs.len(),
{
    if attrs.len() == 0 {
        Seq::empty()
    } else {
        let rest = args_named(attrs.drop_last(), name);
        let a = attrs.last();
        if a.name@ == name && a.args is Some {
            rest.push(a.args->Some_0@)
        } else {
            rest
        }
    }
}

impl RecordDecl {
    pub open spec fn is_named(&self) -> bool {
        self.body is Named
    }

    pub open spec fn fields_spec(&self) -> Seq<FieldDecl> {
        match self.body {
            Body::Named(fs) => fs@,
            _ => Seq::empty(),
        }
    }

    /// The named fields of the declaration; any other shape is refused.
    pub fn named_fields(&self) -> (r: Result<&Vec<FieldDecl>, SynthError>)
        ensures
            self.is_named() <==> r is Ok,
            r is Ok ==> r->Ok_0@ == self.fields_spec(),
            r is Err ==> r->Err_0 == SynthError::NotNamedRecord,
    {
        match &self.body {
            Body::Named(fs) => Ok(fs),
            _ => Err(SynthError::NotNamedRecord),
        }
    }
}

/// Whether an annotation of `attrs` is named `name`.
pub fn has_attribute(attrs: &Vec<Attribute>, name: &str) -> (r: bool)
    ensures
        r == attr_names(attrs@).contains(name@),
{
    let key = String::from_str(name);
    let mut i: usize = 0;
    while i < attrs.len()
        invariant
            key@ == name@,
            i <= attrs@.len(),
            forall|j: int| 0 <= j < i ==> attrs@[j].name@ != name@,
        decreases attrs@.len() - i,
    {
        if attrs[i].name == key {
            assert(attr_names(attrs@)[i as int] == name@);
            return true;
        }
        i = i + 1;
    }
    assert(!attr_names(attrs@).contains(name@));
    false
}

/// The argument texts of the annotations of `attrs` named `name`, in order.
pub fn attribute_args(attrs: &Vec<Attribute>, name: &str) -> (r: Vec<String>)
    ensures
        r@.map_values(|s: String| s@) == args_named(attrs@, name@),
{
    let key = String::from_str(name);
    let mut r: Vec<String> = Vec::new();
    let mut i: usize = 0;
    while i < attrs.len()
        invariant
            key@ == name@,
            i <= attrs@.len(),
            r@.map_values(|s: String| s@) == args_named(attrs@.take(i as int), name@),
        decreases attrs@.len() - i,
    {
        assert(attrs@.take(i + 1).drop_last() =~= attrs@.take(i as int));
        let a = &attrs[i];
        if a.name == key {
            match &a.args {
                Some(t) => {
                    r.push(t.clone());
                },
                None => {},
            }
        }
        assert(r@.map_values(|s: String| s@) =~= args_named(attrs@.take(i + 1), name@));
        i = i + 1;
    }
    assert(attrs@.take(i as int) =~= attrs@);
    r
}

} // verus!
