//! What each generator emits for a record, decided from its fields.

use vstd::prelude::*;
use vstd::string::*;
use crate::decl::{
    args_named, attr_names, attribute_args, has_attribute, Attribute, FieldDecl, RecordDecl,
    SynthError,
};
use crate::group::{first_occurrences, lemma_first_occurrences, no_repeats, texts, unique_texts};
use crate::naming::{field_variant, field_variant_name, type_variant, type_variant_name};

verus! {

pub open spec fn names_of(fields: Seq<FieldDecl>) -> Seq<Seq<char>> {
    fields.map_values(|f: FieldDecl| f.name@)
}

pub open spec fn types_of(fields: Seq<FieldDecl>) -> Seq<Seq<char>> {
    fields.map_values(|f: FieldDecl| f.ty@)
}

/// The types of the by-type union: each declared type once, in first-seen order.
pub open spec fn union_types(fields: Seq<FieldDecl>) -> Seq<Seq<char>> {
    first_occurrences(types_of(fields))
}

/// The variant names of the by-type union, one per type of `union_types`.
pub open spec fn type_variants(fields: Seq<FieldDecl>) -> Seq<Seq<char>> {
    union_types(fields).map_values(|t: Seq<char>| type_variant(t))
}

/// The variant names of the by-field union, one per field.
pub open spec fn field_variants(fields: Seq<FieldDecl>) -> Seq<Seq<char>> {
    fields.map_values(|f: FieldDecl| field_variant(f.name@))
}

/// `j` is the first position of `s` whose value occurs before it, at `i`.
pub open spec fn is_first_repeat(s: Seq<Seq<char>>, i: int, j: int) -> bool {
    &&& 0 <= i < j < s.len()
    &&& s[i] == s[j]
    &&& no_repeats(s.take(j))
}

/// The error for a list of variant names: none if they are distinct, else
/// the collision at the first repeat.
pub open spec fn collision_in<T>(s: Seq<Seq<char>>, r: Result<T, SynthError>) -> bool {
    &&& (r is Ok <==> no_repeats(s))
    &&& r is Err ==> exists|i: int, j: int|
        is_first_repeat(s, i, j) && r->Err_0 == (SynthError::VariantCollision {
            first: i as usize,
            second: j as usize,
        })
}

/// The names of the fields, in declaration order.
pub fn field_names(fields: &Vec<FieldDecl>) -> (r: Vec<String>)
    ensures
        texts(r@) == names_of(fields@),
{
    let mut r: Vec<String> = Vec::new();
    let mut i: usize = 0;
    while i < fields.len()
        invariant
            i <= fields@.len(),
            r@.len() == i,
            forall|m: int| 0 <= m < i ==> #[trigger] r@[m]@ == fields@[m].name@,
        decreases fields@.len() - i,
    {
        r.push(fields[i].name.clone());
        i = i + 1;
    }
    assert(texts(r@) =~= names_of(fields@));
    r
}

fn field_types(fields: &Vec<FieldDecl>) -> (r: Vec<String>)
    ensures
        texts(r@) == types_of(fields@),
{
    let mut r: Vec<String> = Vec::new();
    let mut i: usize = 0;
    while i < fields.len()
        invariant
            i <= fields@.len(),
            r@.len() == i,
            forall|m: int| 0 <= m < i ==> #[trigger] r@[m]@ == fields@[m].ty@,
        decreases fields@.len() - i,
    {
        r.push(fields[i].ty.clone());
        i = i + 1;
    }
    assert(texts(r@) =~= types_of(fields@));
    r
}

/// Looks for two equal names: `Ok` when all differ, else the collision at
/// the first repeat.
pub fn check_distinct(names: &Vec<String>) -> (r: Result<(), SynthError>)
    ensures
        collision_in(texts(names@), r),
{
    let ghost s = texts(names@);
    let mut j: usize = 0;
    while j < names.len()
        invariant
            s == texts(names@),
            j <= names@.len(),
            no_repeats(s.take(j as int)),
        decreases names@.len() - j,
    {
        let mut i: usize = 0;
        while i < j
            invariant
                s == texts(names@),
                i <= j < names@.len(),
                no_repeats(s.take(j as int)),
                forall|k: int| 0 <= k < i ==> s[k] != s[j as int],
            decreases j - i,
        {
            if names[i] == names[j] {
                assert(is_first_repeat(s, i as int, j as int));
                return Err(SynthError::VariantCollision { first: i, second: j });
            }
            i = i + 1;
        }
        assert forall|a: int, b: int| 0 <= a < b < j + 1 implies #[trigger] s.take(j + 1)[a] != #[trigger] s.take(j + 1)[b] by {
            if b < j {
                assert(s.take(j as int)[a] != s.take(j as int)[b]);
            }
        }
        j = j + 1;
    }
    assert(s.take(j as int) =~= s);
    Ok(())
}

fn position_of(v: &Vec<String>, t: &String) -> (r: Option<usize>)
    ensures
        r is Some ==> r->Some_0 < v@.len() && v@[r->Some_0 as int]@ == t@,
        r is None ==> !texts(v@).contains(t@),
{
    let mut k: usize = 0;
    while k < v.len()
        invariant
            k <= v@.len(),
            forall|j: int| 0 <= j < k ==> v@[j]@ != t@,
        decreases v@.len() - k,
    {
        if v[k] == *t {
            return Some(k);
        }
        k = k + 1;
    }
    None
}

/// One variant of the by-type union: its name and the type it holds.
#[derive(Clone, Debug, PartialEq, Eq)]
pub struct UnionVariant {
    pub name: String,
    pub ty: String,
}

/// The by-type union of a record: its variants, and for each field the
/// position of the variant that holds the field's type.
#[derive(Clone, Debug, PartialEq, Eq)]
pub struct TypeUnion {
    pub variants: Vec<UnionVariant>,
    pub field_variant: Vec<usize>,
}

impl TypeUnion {
    pub open spec fn names(&self) -> Seq<Seq<char>> {
        self.variants@.map_values(|v: UnionVariant| v.name@)
    }

    pub open spec fn types(&self) -> Seq<Seq<char>> {
        self.variants@.map_values(|v: UnionVariant| v.ty@)
    }

    /// This is the by-type union of `fields`.
    pub open spec fn describes(&self, fields: Seq<FieldDecl>) -> bool {
        &&& self.types() == union_types(fields)
        &&& self.names() == type_variants(fields)
        &&& self.field_variant@.len() == fields.len()
        &&& forall|i: int|
            0 <= i < fields.len() ==> {
                &&& self.field_variant@[i] < self.variants@.len()
                &&& self.types()[self.field_variant@[i] as int] == fields[i].ty@
            }
    }
}

/// Converting a field's value into the by-type union and back to the type of
/// another field succeeds exactly when the two fields have the same type:
/// each type has its own variant, and no two types share a variant name.
pub proof fn lemma_union_round_trip(fields: Seq<FieldDecl>, u: TypeUnion)
    requires
        u.describes(fields),
        no_repeats(type_variants(fields)),
    ensures
        forall|i: int, j: int|
            0 <= i < fields.len() && 0 <= j < fields.len() ==> (u.names()[u.field_variant@[i] as int]
                == u.names()[u.field_variant@[j] as int] <==> fields[i].ty@ == fields[j].ty@),
        forall|a: int, b: int|
            0 <= a < u.variants@.len() && 0 <= b < u.variants@.len() ==> (u.names()[a] == u.names()[b]
                <==> u.types()[a] == u.types()[b]),
{
    lemma_first_occurrences(types_of(fields));
    assert forall|a: int, b: int|
        0 <= a < u.variants@.len() && 0 <= b < u.variants@.len() implies (u.names()[a] == u.names()[b]
        <==> u.types()[a] == u.types()[b]) by {
        if a != b {
            if a < b {
                assert(u.types()[a] != u.types()[b]);
                assert(u.names()[a] != u.names()[b]);
            } else {
                assert(u.types()[b] != u.types()[a]);
                assert(u.names()[b] != u.names()[a]);
            }
        }
    }
    assert forall|i: int, j: int|
        0 <= i < fields.len() && 0 <= j < fields.len() implies (u.names()[u.field_variant@[i] as int]
        == u.names()[u.field_variant@[j] as int] <==> fields[i].ty@ == fields[j].ty@) by {
        let a = u.field_variant@[i] as int;
        let b = u.field_variant@[j] as int;
        assert(u.types()[a] == fields[i].ty@);
        assert(u.types()[b] == fields[j].ty@);
    }
}

/// The by-type union of `fields`, refused when two of its types would give
/// the same variant name.
pub fn type_union(fields: &Vec<FieldDecl>) -> (r: Result<TypeUnion, SynthError>)
    ensures
        collision_in(type_variants(fields@), r),
        r is Ok ==> r->Ok_0.describes(fields@),
{
    let tys = field_types(fields);
    let distinct = unique_texts(&tys);
    proof {
        lemma_first_occurrences(texts(tys@));
    }
    let mut names: Vec<String> = Vec::new();
    let mut variants: Vec<UnionVariant> = Vec::new();
    let mut k: usize = 0;
    while k < distinct.len()
        invariant
            texts(distinct@) == union_types(fields@),
            k <= distinct@.len(),
            names@.len() == k,
            variants@.len() == k,
            forall|m: int| 0 <= m < k ==> variants@[m].ty@ == distinct@[m]@,
            forall|m: int| 0 <= m < k ==> variants@[m].name@ == names@[m]@,
            forall|m: int| 0 <= m < k ==> names@[m]@ == type_variant(distinct@[m]@),
        decreases distinct@.len() - k,
    {
        let name = type_variant_name(distinct[k].as_str());
        names.push(name.clone());
        variants.push(UnionVariant { name, ty: distinct[k].clone() });
        k = k + 1;
    }
    let ghost u_names = type_variants(fields@);
    assert(texts(names@) =~= u_names) by {
        assert(texts(distinct@).len() == distinct@.len());
        assert forall|m: int| 0 <= m < names@.len() implies texts(names@)[m] == u_names[m] by {
            assert(texts(distinct@)[m] == distinct@[m]@);
        }
    }
    match check_distinct(&names) {
        Err(e) => {
            return Err(e);
        },
        Ok(()) => {},
    }
    let mut field_variant: Vec<usize> = Vec::new();
    let mut i: usize = 0;
    while i < fields.len()
        invariant
            texts(distinct@) == union_types(fields@),
            texts(tys@) == types_of(fields@),
            forall|x: Seq<char>| texts(tys@).contains(x) <==> texts(distinct@).contains(x),
            i <= fields@.len(),
            field_variant@.len() == i,
            forall|m: int|
                0 <= m < i ==> field_variant@[m] < distinct@.len() && distinct@[field_variant@[m] as int]@
                    == fields@[m].ty@,
        decreases fields@.len() - i,
    {
        assert(texts(tys@)[i as int] == fields@[i as int].ty@);
        match position_of(&distinct, &fields[i].ty) {
            Some(k) => {
                field_variant.push(k);
            },
            None => {
                assert(texts(distinct@).contains(fields@[i as int].ty@));
                return vstd::pervasive::unreached();
            },
        }
        i = i + 1;
    }
    let u = TypeUnion { variants, field_variant };
    assert(u.types() =~= union_types(fields@));
    assert(u.names() =~= type_variants(fields@));
    Ok(u)
}

/// The by-field union of `fields`: one variant name per field, refused when
/// two fields would give the same variant name.
pub fn field_union(fields: &Vec<FieldDecl>) -> (r: Result<Vec<String>, SynthError>)
    ensures
        collision_in(field_variants(fields@), r),
        r is Ok ==> texts(r->Ok_0@) == field_variants(fields@),
{
    let mut names: Vec<String> = Vec::new();
    let mut i: usize = 0;
    while i < fields.len()
        invariant
            i <= fields@.len(),
            names@.len() == i,
            forall|m: int| 0 <= m < i ==> #[trigger] names@[m]@ == field_variant(fields@[m].name@),
        decreases fields@.len() - i,
    {
        names.push(field_variant_name(fields[i].name.as_str()));
        i = i + 1;
    }
    assert(texts(names@) =~= field_variants(fields@));
    match check_distinct(&names) {
        Err(e) => Err(e),
        Ok(()) => Ok(names),
    }
}

/// `base` followed by `suffix`.
pub fn suffixed(base: &String, suffix: &str) -> (r: String)
    ensures
        r@ == base@ + suffix@,
{
    base.clone().concat(suffix)
}

/// The derive lists forwarded from the annotations named `name`: none when
/// no annotation has that name, else their argument texts in order.
pub open spec fn forwarded(attrs: Seq<Attribute>, name: Seq<char>, d: Option<Vec<String>>) -> bool {
    &&& (d is Some <==> attr_names(attrs).contains(name))
    &&& d is Some ==> texts(d->Some_0@) == args_named(attrs, name)
}

fn forwarded_derives(attrs: &Vec<Attribute>, name: &str) -> (r: Option<Vec<String>>)
    ensures
        forwarded(attrs@, name@, r),
{
    if has_attribute(attrs, name) {
        Some(attribute_args(attrs, name))
    } else {
        None
    }
}

/// What `values` reads and requires: the fields it reads, in order, and the
/// distinct field types that the value type must convert from.
#[derive(Clone, Debug, PartialEq, Eq)]
pub struct ValuesPlan {
    pub fields: Vec<String>,
    pub types: Vec<String>,
}

/// What the field-name and field-value generator emits: `fields` when
/// `StructFields` is present, `values` when `StructValues` is present, and
/// `fields_and_values` when both are.
#[derive(Clone, Debug, PartialEq, Eq)]
pub struct IterToolsPlan {
    pub field_names: Option<Vec<String>>,
    pub values: Option<ValuesPlan>,
    pub pairs: bool,
}

/// `p` is what the field-name and field-value generator emits for `decl`.
pub open spec fn is_iter_tools_plan(p: IterToolsPlan, decl: RecordDecl) -> bool {
    let fields = decl.fields_spec();
    let names = attr_names(decl.attrs@);
    &&& (p.field_names is Some <==> names.contains("StructFields"@))
    &&& p.field_names is Some ==> texts(p.field_names->Some_0@) == names_of(fields)
    &&& (p.values is Some <==> names.contains("StructValues"@))
    &&& p.values is Some ==> texts(p.values->Some_0.fields@) == names_of(fields)
    &&& p.values is Some ==> texts(p.values->Some_0.types@) == union_types(fields)
    &&& p.pairs == (p.field_names is Some && p.values is Some)
}

pub fn iter_tools_plan(decl: &RecordDecl) -> (r: Result<IterToolsPlan, SynthError>)
    ensures
        r is Ok <==> decl.is_named(),
        r is Err ==> r->Err_0 == SynthError::NotNamedRecord,
        r is Ok ==> is_iter_tools_plan(r->Ok_0, *decl),
{
    let fields = match decl.named_fields() {
        Ok(fs) => fs,
        Err(e) => {
            return Err(e);
        },
    };
    let values = if has_attribute(&decl.attrs, "StructValues") {
        Some(ValuesPlan { fields: field_names(fields), types: unique_texts(&field_types(fields)) })
    } else {
        None
    };
    let names = if has_attribute(&decl.attrs, "StructFields") {
        Some(field_names(fields))
    } else {
        None
    };
    let pairs = names.is_some() && values.is_some();
    Ok(IterToolsPlan { field_names: names, values, pairs })
}

/// What a by-type union generator emits: the union's identifier, the derive
/// list forwarded to it, and its variants.
#[derive(Clone, Debug, PartialEq, Eq)]
pub struct UnionPlan {
    pub ident: String,
    pub derives: Option<Vec<String>>,
    pub union: TypeUnion,
}

/// The by-type union of a record, owned (`<ident>Enum`, derives from
/// `EnumDerive`) or of mutable borrows (`<ident>EnumMut`, derives from
/// `MutEnumDerive`).
pub fn type_union_plan(decl: &RecordDecl, mutable: bool) -> (r: Result<UnionPlan, SynthError>)
    ensures
        !decl.is_named() ==> r == Err::<UnionPlan, SynthError>(SynthError::NotNamedRecord),
        decl.is_named() ==> collision_in(type_variants(decl.fields_spec()), r),
        r is Ok ==> ({
            let p = r->Ok_0;
            &&& p.ident@ == decl.ident@ + (if mutable { "EnumMut"@ } else { "Enum"@ })
            &&& forwarded(
                decl.attrs@,
                if mutable { "MutEnumDerive"@ } else { "EnumDerive"@ },
                p.derives,
            )
            &&& p.union.describes(decl.fields_spec())
        }),
{
    let fields = match decl.named_fields() {
        Ok(fs) => fs,
        Err(e) => {
            return Err(e);
        },
    };
    let union = match type_union(fields) {
        Ok(u) => u,
        Err(e) => {
            return Err(e);
        },
    };
    let (ident, derives) = if mutable {
        (suffixed(&decl.ident, "EnumMut"), forwarded_derives(&decl.attrs, "MutEnumDerive"))
    } else {
        (suffixed(&decl.ident, "Enum"), forwarded_derives(&decl.attrs, "EnumDerive"))
    };
    Ok(UnionPlan { ident, derives, union })
}

/// What a by-field union generator emits: the union's identifier, the derive
/// list forwarded to it, and one variant name per field.
#[derive(Clone, Debug, PartialEq, Eq)]
pub struct FieldUnionPlan {
    pub ident: String,
    pub derives: Option<Vec<String>>,
    pub variants: Vec<String>,
}

/// The by-field union of a record, owned (`<ident>FieldEnum`) or of mutable
/// borrows (`<ident>FieldEnumMut`), with the derives of `EnumDerive`.
pub fn field_union_plan(decl: &RecordDecl, mutable: bool) -> (r: Result<FieldUnionPlan, SynthError>)
    ensures
        !decl.is_named() ==> r == Err::<FieldUnionPlan, SynthError>(SynthError::NotNamedRecord),
        decl.is_named() ==> collision_in(field_variants(decl.fields_spec()), r),
        r is Ok ==> ({
            let p = r->Ok_0;
            &&& p.ident@ == decl.ident@ + (if mutable { "FieldEnumMut"@ } else { "FieldEnum"@ })
            &&& forwarded(decl.attrs@, "EnumDerive"@, p.derives)
            &&& texts(p.variants@) == field_variants(decl.fields_spec())
        }),
{
    let fields = match decl.named_fields() {
        Ok(fs) => fs,
        Err(e) => {
            return Err(e);
        },
    };
    let variants = match field_union(fields) {
        Ok(v) => v,
        Err(e) => {
            return Err(e);
        },
    };
    let ident = if mutable {
        suffixed(&decl.ident, "FieldEnumMut")
    } else {
        suffixed(&decl.ident, "FieldEnum")
    };
    let derives = forwarded_derives(&decl.attrs, "EnumDerive");
    Ok(FieldUnionPlan { ident, derives, variants })
}

/// One field as the builder sees it: its name and type, the name of its
/// setter, and the text that pre-fills its slot, if any.
#[derive(Clone, Debug, PartialEq, Eq)]
pub struct BuilderField {
    pub name: String,
    pub ty: String,
    pub setter: String,
    pub default: Option<String>,
}

/// What the builder generator emits: the builder's identifier, the identifier
/// of its error enumeration, the derive list forwarded from `BuilderDerive`,
/// and the fields in declaration order.
#[derive(Clone, Debug, PartialEq, Eq)]
pub struct BuilderPlan {
    pub ident: String,
    pub error: String,
    pub derives: Option<Vec<String>>,
    pub fields: Vec<BuilderField>,
}

/// The builder's view of `f`: the setter is `set_<name>`, and the argument of
/// the first `builder_default` annotation that has one pre-fills the slot.
pub open spec fn builder_field_of(b: BuilderField, f: FieldDecl) -> bool {
    let defaults = args_named(f.attrs@, "builder_default"@);
    &&& b.name@ == f.name@
    &&& b.ty@ == f.ty@
    &&& b.setter@ == "set_"@ + f.name@
    &&& (b.default is Some <==> defaults.len() > 0)
    &&& b.default is Some ==> b.default->Some_0@ == defaults[0]
}

fn builder_field(f: &FieldDecl) -> (r: BuilderField)
    ensures
        builder_field_of(r, *f),
{
    let defaults = attribute_args(&f.attrs, "builder_default");
    let default = if defaults.len() > 0 {
        assert(texts(defaults@)[0] == defaults@[0]@);
        Some(defaults[0].clone())
    } else {
        None
    };
    let prefix = String::from_str("set_");
    BuilderField {
        name: f.name.clone(),
        ty: f.ty.clone(),
        setter: prefix.concat(f.name.as_str()),
        default,
    }
}

/// The builder of a record. It needs the record's field names, so a
/// declaration without `StructFields` is refused.
pub fn builder_plan(decl: &RecordDecl) -> (r: Result<BuilderPlan, SynthError>)
    ensures
        !decl.is_named() ==> r == Err::<BuilderPlan, SynthError>(SynthError::NotNamedRecord),
        decl.is_named() && !attr_names(decl.attrs@).contains("StructFields"@) ==> r == Err::<
            BuilderPlan,
            SynthError,
        >(SynthError::MissingFieldNames),
        r is Ok <==> decl.is_named() && attr_names(decl.attrs@).contains("StructFields"@),
        r is Ok ==> ({
            let p = r->Ok_0;
            let fields = decl.fields_spec();
            &&& p.ident@ == decl.ident@ + "Builder"@
            &&& p.error@ == decl.ident@ + "Builder"@ + "Error"@
            &&& forwarded(decl.attrs@, "BuilderDerive"@, p.derives)
            &&& p.fields@.len() == fields.len()
            &&& forall|i: int|
                0 <= i < fields.len() ==> builder_field_of(#[trigger] p.fields@[i], fields[i])
        }),
{
    let fields = match decl.named_fields() {
        Ok(fs) => fs,
        Err(e) => {
            return Err(e);
        },
    };
    if !has_attribute(&decl.attrs, "StructFields") {
        return Err(SynthError::MissingFieldNames);
    }
    let ident = suffixed(&decl.ident, "Builder");
    let error = suffixed(&ident, "Error");
    let derives = forwarded_derives(&decl.attrs, "BuilderDerive");
    let mut out: Vec<BuilderField> = Vec::new();
    let mut i: usize = 0;
    while i < fields.len()
        invariant
            i <= fields@.len(),
            out@.len() == i,
            forall|m: int| 0 <= m < i ==> builder_field_of(#[trigger] out@[m], fields@[m]),
        decreases fields@.len() - i,
    {
        out.push(builder_field(&fields[i]));
        i = i + 1;
    }
    Ok(BuilderPlan { ident, error, derives, fields: out })
}

} // verus!
