use struct_tools::naming::{field_variant_name, type_variant_name};
use struct_tools::text::{ascii_alnum, char_width, chars_of, string_of};

#[test]
fn type_variant_of_generic_type() {
    assert_eq!(type_variant_name("Option < Vec < String > >"), "OptionVecString");
}

#[test]
fn type_variant_of_tuple_type() {
    assert_eq!(type_variant_name("(u8 , u8)"), "u8u8");
}

#[test]
fn type_variant_uppercases_first_character() {
    assert_eq!(type_variant_name("u64"), "U64");
    assert_eq!(type_variant_name("string"), "String");
    assert_eq!(type_variant_name("i32"), "I32");
}

#[test]
fn type_variant_drops_punctuation_and_underscores() {
    assert_eq!(type_variant_name("[u8 ; 4]"), "u84");
    assert_eq!(type_variant_name("my_type :: Inner"), "MytypeInner");
    assert_eq!(type_variant_name("& 'a str"), "astr");
}

#[test]
fn type_variant_drops_a_leading_symbol() {
    assert_eq!(type_variant_name("* const u8"), "constu8");
    assert_eq!(type_variant_name(":: std :: string :: String"), "stdstringString");
    assert_eq!(type_variant_name("< T as Tr > :: Out"), "TasTrOut");
    assert_eq!(type_variant_name("éclair"), "clair");
}

#[test]
fn type_variant_of_empty_text() {
    assert_eq!(type_variant_name(""), "");
}

#[test]
fn field_variant_of_plain_name() {
    assert_eq!(field_variant_name("inspirations"), "Inspirations");
    assert_eq!(field_variant_name("id"), "Id");
}

#[test]
fn field_variant_with_trailing_underscore() {
    assert_eq!(field_variant_name("date_time_"), "DateTime");
}

#[test]
fn field_variant_joins_only_two_underscores() {
    assert_eq!(field_variant_name("a_b_c_d"), "ABC_d");
    assert_eq!(field_variant_name("one_two_three_four"), "OneTwoThree_four");
}

#[test]
fn field_variant_with_leading_underscore() {
    assert_eq!(field_variant_name("_x"), "X");
    assert_eq!(field_variant_name("__"), "");
}

#[test]
fn field_variant_uses_byte_offset_of_underscore() {
    // 'é' takes two bytes, so the offset of the underscore points past 'x'
    assert_eq!(field_variant_name("é_x"), "Éx");
    assert_eq!(field_variant_name("e_x"), "EX");
}

#[test]
fn field_variant_of_empty_name() {
    assert_eq!(field_variant_name(""), "");
}

#[test]
fn distinct_field_names_give_distinct_variants() {
    assert_ne!(field_variant_name("date_time_"), field_variant_name("inspirations"));
}

#[test]
fn character_helpers() {
    assert!(ascii_alnum('a'));
    assert!(ascii_alnum('Z'));
    assert!(ascii_alnum('7'));
    assert!(!ascii_alnum('_'));
    assert!(!ascii_alnum('é'));
    assert_eq!(char_width('a'), 1);
    assert_eq!(char_width('é'), 2);
    assert_eq!(char_width('€'), 3);
    assert_eq!(char_width('😀'), 4);
    let cs = chars_of("héllo");
    assert_eq!(cs, vec!['h', 'é', 'l', 'l', 'o']);
    assert_eq!(string_of(&cs), "héllo");
}
