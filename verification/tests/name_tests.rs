use morphir_naming::name::join;
use morphir_naming::name::Name;
use morphir_naming::name::NameComponent;

#[test]
fn test_from_string() {
    let name = Name::from("HelloWorld");
    assert_eq!(name.to_vec(), vec!["hello".to_string(), "world".to_string()]);
}

#[test]
fn name_test_from_string() {
    let name = Name::from("HelloWorld");
    assert_eq!(name.to_vec(), vec!["hello".to_string(), "world".to_string()]);
}

#[test]
fn test_from_string_with_snake_cased_string() {
    let name = Name::from("hello_world");
    assert_eq!(name.to_vec(), vec!["hello".to_string(), "world".to_string()]);
}

#[test]
fn name_test_from_string_with_snake_cased_string() {
    let name = Name::from("hello_world");
    assert_eq!(name.to_vec(), vec!["hello".to_string(), "world".to_string()]);
}

#[test]
fn test_from_slices() {
    let name = Name::from_slices(&["Hello", "World"]);
    assert_eq!(name.to_vec(), vec!["Hello".to_string(), "World".to_string()]);
}

#[test]
fn name_test_from_slices() {
    let name = Name::from_slices(&["Hello", "World"]);
    assert_eq!(name.to_vec(), vec!["Hello".to_string(), "World".to_string()]);
}

#[test]
fn should_support_conversion_from_a_string_slice() {
    let name = Name::from("well-known");
    assert_eq!(name, Name::from_slices(&["well", "known"]))
}

#[test]
fn name_should_support_conversion_from_a_string_slice() {
    let name = Name::from("well-known");
    assert_eq!(name, Name::from_slices(&["well", "known"]))
}

#[test]
fn should_support_conversion_from_a_string() {
    let actual = Name::from("PascalCase".to_string());
    let expected = Name::from_slices(&["pascal", "case"]);
    assert_eq!(actual, expected)
}

#[test]
fn name_should_support_conversion_from_a_string() {
    let actual = Name::from("PascalCase".to_string());
    let expected = Name::from_slices(&["pascal", "case"]);
    assert_eq!(actual, expected)
}

#[test]
fn should_support_conversion_to_title_case() {
    let name = Name::from("well-known");
    assert_eq!(name.to_title_case(), "WellKnown")
}

#[test]
fn name_should_support_conversion_to_title_case() {
    let name = Name::from("well-known");
    assert_eq!(name.to_title_case(), "WellKnown")
}

#[test]
fn it_should_be_possible_to_join_abbrevs_into_a_single_string() {
    let words = ["u", "s", "d"];
    let actual = join(&words);
    assert_eq!(actual, "USD")
}

#[test]
fn convention_equivalence_across_spellings() {
    let expected = Name::from_slices(&["foo", "bar", "baz", "123"]);
    assert_eq!(Name::from_str("fooBar_baz 123"), expected);
    assert_eq!(Name::from_str("FooBarBaz123"), expected);
    assert_eq!(Name::from_str("foo-bar-baz-123"), expected);
}

#[test]
fn abbreviations_decompose_into_single_letter_segments() {
    let name = Name::from_str("valueInUSD");
    assert_eq!(
        name.to_vec(),
        vec![
            "value".to_string(),
            "in".to_string(),
            "u".to_string(),
            "s".to_string(),
            "d".to_string()
        ]
    );
}

#[test]
fn human_words_regroup_abbreviations() {
    let name = Name::from_str("valueInUSD");
    assert_eq!(
        name.to_human_words(),
        vec!["value".to_string(), "in".to_string(), "USD".to_string()]
    );
}

#[test]
fn human_words_keep_a_lone_single_letter_lowercase() {
    let name = Name::from_str("a");
    assert_eq!(name.to_human_words(), vec!["a".to_string()]);
}

#[test]
fn rendering_round_trip_for_abbreviations() {
    let name = Name::from_slices(&["value", "in", "u", "s", "d"]);
    assert_eq!(name.to_title_case(), "ValueInUSD");
    assert_eq!(name.to_camel_case(), "valueInUSD");
}

#[test]
fn parsing_a_rendering_is_idempotent() {
    let name = Name::from_str("valueInUSD");
    assert_eq!(Name::from_str(&name.to_title_case()), name);
    assert_eq!(Name::from_str(&name.to_camel_case()), name);
}

#[test]
fn empty_input_yields_an_empty_name() {
    let name = Name::from_str("");
    assert_eq!(name.to_vec(), Vec::<String>::new());
    assert_eq!(name.to_title_case(), "");
    assert_eq!(name.to_camel_case(), "");
    assert!(name.to_human_words().is_empty());
    assert_ne!(name, Name::from_str("a"));
}

#[test]
fn whitespace_only_input_yields_an_empty_name() {
    let name = Name::from_str("  \t ");
    assert_eq!(name.to_vec(), Vec::<String>::new());
}

#[test]
fn digits_form_their_own_segments() {
    assert_eq!(
        Name::from_str("1foo").to_vec(),
        vec!["1".to_string(), "foo".to_string()]
    );
    assert_eq!(
        Name::from_str("foo123bar").to_vec(),
        vec!["foo".to_string(), "123".to_string(), "bar".to_string()]
    );
}

#[test]
fn into_boxed_slice_keeps_the_segments() {
    let name = Name::from_str("helloWorld");
    let boxed = name.into_boxed_slice_of_string();
    assert_eq!(&*boxed, &["hello".to_string(), "world".to_string()][..]);
}

#[test]
fn a_required_name_rejects_empty_input() {
    let err = Name::from_str_non_empty(" - _ ").unwrap_err();
    assert_eq!(err.message(), "no identifier can be made of  - _ ");
    let name = Name::from_str_non_empty("wellKnown").unwrap();
    assert_eq!(name.segments(), vec!["well".to_string(), "known".to_string()]);
}

#[test]
fn component_append_prepend_concat() {
    let name = NameComponent::of_str("Compound");
    assert_eq!(name.append("Word"), NameComponent::of_str("CompoundWord"));
    let word = NameComponent::of_str("Word");
    assert_eq!(word.prepend("Compound"), NameComponent::of_str("CompoundWord"));
    let foo = NameComponent::of_str("Foo");
    let bar = NameComponent::of_str("Bar");
    assert_eq!(foo.concat(&bar), NameComponent::of_str("FooBar"));
}

#[test]
fn component_join_uses_the_separator() {
    let name1 = NameComponent::of_str("Foo");
    let name2 = NameComponent::of_str("Bar");
    let name3 = NameComponent::of_str("Baz");
    let components = vec![&name1, &name2, &name3];
    assert_eq!(
        NameComponent::join(&components, "_"),
        NameComponent::of_str("Foo_Bar_Baz")
    );
}

#[test]
fn component_case_predicates() {
    assert!(NameComponent::of_str("").is_empty());
    assert!(!NameComponent::of_str("here").is_empty());
    assert_eq!(NameComponent::of_str("here").len(), 4);
    assert!(NameComponent::of_str("Foo").is_title_cased());
    assert!(NameComponent::of_str("FOO").is_uppercase());
    assert!(!NameComponent::of_str("Foo").is_uppercase());
}

#[test]
fn component_predicates_follow_unicode() {
    assert!(NameComponent::of_str("\u{c4}").is_uppercase());
    assert!(NameComponent::of_str("\u{c4}b").is_title_cased());
    assert!(!NameComponent::of_str("\u{e4}b").is_title_cased());
    assert_eq!(
        NameComponent::of_str("\u{c4}B").to_lowercase(),
        NameComponent::of_str("\u{e4}b")
    );
    assert_eq!(
        NameComponent::of_str("\u{e4}b").to_uppercase(),
        NameComponent::of_str("\u{c4}B")
    );
    assert_eq!(NameComponent::of_str("\u{e4}b").len(), 3);
}

#[test]
fn component_case_conversions() {
    let c = NameComponent::of_str("MiXed3");
    assert_eq!(c.to_lowercase(), NameComponent::of_str("mixed3"));
    assert_eq!(c.to_uppercase(), NameComponent::of_str("MIXED3"));
    assert_eq!(NameComponent::of_str("foo").to_title_case(), "Foo");
    assert_eq!(NameComponent::of_str("123").to_title_case(), "123");
    assert_eq!(NameComponent::of_str("Peekaboo").to_string(), "Peekaboo");
    assert_eq!(NameComponent::of_str("Foo").as_str(), "Foo");
}
