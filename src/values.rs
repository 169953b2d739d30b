//! Field names paired with field values, as `fields_and_values` returns them.

use vstd::prelude::*;
use crate::decl::RecordDecl;
use crate::group::texts;
use crate::plan::{is_iter_tools_plan, names_of, IterToolsPlan};

verus! {

/// The i-th name beside the i-th value, as far as the shorter list goes.
pub open spec fn zipped<E>(names: Seq<Seq<char>>, values: Seq<E>) -> Seq<(Seq<char>, E)> {
    let n = if names.len() < values.len() {
        names.len()
    } else {
        values.len()
    };
    Seq::new(n, |i: int| (names[i], values[i]))
}

pub open spec fn pair_texts<E>(pairs: Seq<(String, E)>) -> Seq<(Seq<char>, E)> {
    pairs.map_values(|p: (String, E)| (p.0@, p.1))
}

/// Pairs each name with the value at the same position.
pub fn zip_names_values<E>(names: Vec<String>, values: Vec<E>) -> (r: Vec<(String, E)>)
    ensures
        pair_texts(r@) == zipped(texts(names@), values@),
{
    let ghost target = zipped(texts(names@), values@);
    let mut names = names;
    let mut values = values;
    let mut r: Vec<(String, E)> = Vec::new();
    let ghost ns = names@;
    let ghost vs = values@;
    while names.len() > 0 && values.len() > 0
        invariant
            target == zipped(texts(ns), vs),
            r@.len() <= ns.len() && r@.len() <= vs.len(),
            names@ == ns.skip(r@.len() as int),
            values@ == vs.skip(r@.len() as int),
            pair_texts(r@) == target.take(r@.len() as int),
        decreases names@.len(),
    {
        let ghost k = r@.len() as int;
        let n = names.remove(0);
        let v = values.remove(0);
        r.push((n, v));
        assert(names@ =~= ns.skip(k + 1));
        assert(values@ =~= vs.skip(k + 1));
        assert(pair_texts(r@) =~= target.take(k + 1));
    }
    assert(pair_texts(r@) =~= target);
    r
}

/// `values` reads the fields in the order that `fields` names them, one value
/// per field, and `fields_and_values` pairs the i-th name with the i-th value:
/// one pair per field.
pub proof fn lemma_fields_and_values_line_up<E>(decl: RecordDecl, p: IterToolsPlan, values: Seq<E>)
    requires
        is_iter_tools_plan(p, decl),
        p.pairs,
        values.len() == p.values->Some_0.fields@.len(),
    ensures
        texts(p.values->Some_0.fields@) == texts(p.field_names->Some_0@),
        values.len() == decl.fields_spec().len(),
        zipped(texts(p.field_names->Some_0@), values).len() == decl.fields_spec().len(),
        forall|i: int|
            0 <= i < decl.fields_spec().len() ==> #[trigger] zipped(
                texts(p.field_names->Some_0@),
                values,
            )[i] == (decl.fields_spec()[i].name@, values[i]),
{
    let fields = decl.fields_spec();
    assert(texts(p.values->Some_0.fields@).len() == names_of(fields).len());
}

} // verus!
