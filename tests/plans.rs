use struct_tools::decl::{
    attribute_args, has_attribute, Attribute, Body, FieldDecl, RecordDecl, SynthError,
};
use struct_tools::plan::{
    builder_plan, check_distinct, field_union, field_union_plan, iter_tools_plan, suffixed,
    type_union, type_union_plan,
};

fn attr(name: &str, args: Option<&str>) -> Attribute {
    Attribute { name: name.to_string(), args: args.map(|a| a.to_string()) }
}

fn field(name: &str, ty: &str) -> FieldDecl {
    FieldDecl { name: name.to_string(), ty: ty.to_string(), attrs: vec![] }
}

fn record(attrs: Vec<Attribute>, body: Body) -> RecordDecl {
    RecordDecl { ident: "Foo".to_string(), attrs, body }
}

fn two_fields() -> Body {
    Body::Named(vec![field("field1", "i32"), field("field2", "String")])
}

#[test]
fn attributes_are_found_by_name() {
    let attrs = vec![attr("StructFields", None), attr("EnumDerive", Some("Debug"))];
    assert!(has_attribute(&attrs, "StructFields"));
    assert!(has_attribute(&attrs, "EnumDerive"));
    assert!(!has_attribute(&attrs, "StructValues"));
    assert!(!has_attribute(&vec![], "StructFields"));
}

#[test]
fn attribute_args_skip_those_without_arguments() {
    let attrs = vec![
        attr("EnumDerive", Some("Debug")),
        attr("EnumDerive", None),
        attr("Other", Some("Clone")),
        attr("EnumDerive", Some("Clone , PartialEq")),
    ];
    assert_eq!(attribute_args(&attrs, "EnumDerive"), vec!["Debug", "Clone , PartialEq"]);
    assert!(attribute_args(&attrs, "MutEnumDerive").is_empty());
}

#[test]
fn named_fields_refuses_other_shapes() {
    for body in [Body::Tuple, Body::Unit, Body::Enum, Body::Union] {
        let decl = record(vec![], body);
        assert_eq!(decl.named_fields(), Err(SynthError::NotNamedRecord));
    }
    let decl = record(vec![], two_fields());
    assert_eq!(decl.named_fields().unwrap().len(), 2);
}

#[test]
fn every_generator_refuses_a_tuple_record() {
    let decl = record(vec![attr("StructFields", None)], Body::Tuple);
    assert_eq!(iter_tools_plan(&decl), Err(SynthError::NotNamedRecord));
    assert_eq!(builder_plan(&decl), Err(SynthError::NotNamedRecord));
    assert_eq!(type_union_plan(&decl, false), Err(SynthError::NotNamedRecord));
    assert_eq!(type_union_plan(&decl, true), Err(SynthError::NotNamedRecord));
    assert_eq!(field_union_plan(&decl, false), Err(SynthError::NotNamedRecord));
    assert_eq!(field_union_plan(&decl, true), Err(SynthError::NotNamedRecord));
}

#[test]
fn builder_needs_field_names() {
    let decl = record(vec![attr("StructValues", None)], two_fields());
    assert_eq!(builder_plan(&decl), Err(SynthError::MissingFieldNames));
}

#[test]
fn builder_plan_names_setters_and_defaults() {
    let mut fields = vec![field("field1", "i32"), field("field2", "String")];
    fields[0].attrs = vec![
        attr("doc", None),
        attr("builder_default", None),
        attr("builder_default", Some("1")),
        attr("builder_default", Some("2")),
    ];
    fields[1].attrs = vec![attr("other", Some("3"))];
    let decl = record(
        vec![attr("StructFields", None), attr("BuilderDerive", Some("Debug"))],
        Body::Named(fields),
    );
    let plan = builder_plan(&decl).unwrap();
    assert_eq!(plan.ident, "FooBuilder");
    assert_eq!(plan.error, "FooBuilderError");
    assert_eq!(plan.derives, Some(vec!["Debug".to_string()]));
    assert_eq!(plan.fields[0].setter, "set_field1");
    assert_eq!(plan.fields[0].default, Some("1".to_string()));
    assert_eq!(plan.fields[1].setter, "set_field2");
    assert_eq!(plan.fields[1].default, None);
    assert_eq!(plan.fields[1].ty, "String");
}

#[test]
fn iter_tools_follows_the_annotations() {
    let none = iter_tools_plan(&record(vec![], two_fields())).unwrap();
    assert_eq!(none.field_names, None);
    assert_eq!(none.values, None);
    assert!(!none.pairs);

    let names = iter_tools_plan(&record(vec![attr("StructFields", None)], two_fields())).unwrap();
    assert_eq!(names.field_names, Some(vec!["field1".to_string(), "field2".to_string()]));
    assert_eq!(names.values, None);
    assert!(!names.pairs);

    let both = iter_tools_plan(&record(
        vec![attr("StructValues", None), attr("StructFields", None)],
        Body::Named(vec![field("a", "i32"), field("b", "String"), field("c", "i32")]),
    ))
    .unwrap();
    let values = both.values.unwrap();
    assert_eq!(values.fields, vec!["a", "b", "c"]);
    assert_eq!(values.types, vec!["i32", "String"]);
    assert!(both.pairs);
}

#[test]
fn type_union_shares_a_variant_between_fields_of_one_type() {
    let fields = vec![field("a", "i32"), field("b", "String"), field("c", "i32")];
    let u = type_union(&fields).unwrap();
    let names: Vec<&str> = u.variants.iter().map(|v| v.name.as_str()).collect();
    assert_eq!(names, vec!["I32", "String"]);
    assert_eq!(u.field_variant, vec![0, 1, 0]);
}

#[test]
fn type_union_flags_colliding_variant_names() {
    let fields = vec![field("a", "u8"), field("b", "String"), field("c", "U8")];
    assert_eq!(type_union(&fields), Err(SynthError::VariantCollision { first: 0, second: 2 }));
}

#[test]
fn field_union_flags_names_that_transliterate_alike() {
    let fields = vec![field("date_time", "u64"), field("dateTime", "u64")];
    assert_eq!(field_union(&fields), Err(SynthError::VariantCollision { first: 0, second: 1 }));
    let fields = vec![field("date_time_", "u64"), field("inspirations", "u64")];
    assert_eq!(field_union(&fields).unwrap(), vec!["DateTime", "Inspirations"]);
}

#[test]
fn check_distinct_reports_the_first_repeat() {
    let names: Vec<String> = ["a", "b", "c", "b", "a"].iter().map(|s| s.to_string()).collect();
    assert_eq!(check_distinct(&names), Err(SynthError::VariantCollision { first: 1, second: 3 }));
    let names: Vec<String> = ["a", "b", "c"].iter().map(|s| s.to_string()).collect();
    assert_eq!(check_distinct(&names), Ok(()));
}

#[test]
fn union_plans_name_their_types() {
    let decl = record(
        vec![attr("EnumDerive", Some("Debug")), attr("MutEnumDerive", Some("Clone"))],
        two_fields(),
    );
    let owned = type_union_plan(&decl, false).unwrap();
    assert_eq!(owned.ident, "FooEnum");
    assert_eq!(owned.derives, Some(vec!["Debug".to_string()]));
    let borrowed = type_union_plan(&decl, true).unwrap();
    assert_eq!(borrowed.ident, "FooEnumMut");
    assert_eq!(borrowed.derives, Some(vec!["Clone".to_string()]));
    let plain = type_union_plan(&record(vec![], two_fields()), false).unwrap();
    assert_eq!(plain.derives, None);
}

#[test]
fn field_union_plan_forwards_derives_when_annotated() {
    let decl = record(vec![attr("StructFields", None)], two_fields());
    let plan = field_union_plan(&decl, false).unwrap();
    assert_eq!(plan.ident, "FooFieldEnum");
    assert_eq!(plan.derives, None);
    assert_eq!(plan.variants, vec!["Field1", "Field2"]);
    let annotated = record(
        vec![attr("EnumDerive", Some("Debug")), attr("EnumDerive", None)],
        two_fields(),
    );
    let plan = field_union_plan(&annotated, false).unwrap();
    assert_eq!(plan.derives, Some(vec!["Debug".to_string()]));
    let plan = field_union_plan(&record(vec![], two_fields()), true).unwrap();
    assert_eq!(plan.ident, "FooFieldEnumMut");
    assert_eq!(plan.derives, None);
}

#[test]
fn suffix_is_appended() {
    assert_eq!(suffixed(&"Book".to_string(), "Builder"), "BookBuilder");
    assert_eq!(suffixed(&String::new(), "Enum"), "Enum");
}

#[test]
fn alias_gets_a_variant_of_its_own() {
    // types are compared by their text: `Id` and `u64` are two types here,
    // even where `Id` is an alias of `u64`
    let fields = vec![field("id", "Id"), field("pages", "u64"), field("title", "String")];
    let u = type_union(&fields).unwrap();
    let names: Vec<&str> = u.variants.iter().map(|v| v.name.as_str()).collect();
    assert_eq!(names, vec!["Id", "U64", "String"]);
    let types: Vec<&str> = u.variants.iter().map(|v| v.ty.as_str()).collect();
    assert_eq!(types, vec!["Id", "u64", "String"]);
    assert_eq!(u.field_variant, vec![0, 1, 2]);
}
