use morphir_naming::naming::Name;
use morphir_naming::naming::NamingContext;

#[test]
fn can_create_interned_text_from_naming_context() {
    let ctx = NamingContext::new();
    let text1 = ctx.text("text");
    let text2 = ctx.text("text");
    assert_eq!(text1, text2);
}

#[test]
fn two_runs_created_from_the_same_string_return_the_same_text() {
    let context = NamingContext::new();
    let run1 = context.get_run("test");
    let run2 = context.get_run("test");

    assert_eq!(run1.text(), run2.text());
}

#[test]
fn can_get_a_str_from_a_run_using_a_naming_context() {
    let context = NamingContext::new();
    let run = context.get_run("This is fine!");
    let actual = context.run_to_str(run);
    assert_eq!(actual, "This is fine!");
}

#[test]
fn distinct_texts_get_distinct_symbols() {
    let ctx = NamingContext::new();
    let a = ctx.text("alpha");
    let b = ctx.text("beta");
    assert_ne!(a, b);
}

#[test]
fn resolve_returns_the_interned_text() {
    let ctx = NamingContext::new();
    let sym = ctx.text("segment");
    assert_eq!(ctx.resolve(sym), "segment");
}

#[test]
fn lookup_without_interning_finds_nothing_in_a_fresh_context() {
    let ctx = NamingContext::new();
    assert!(ctx.get_text("never seen").is_none());
}

#[test]
fn lookup_after_interning_finds_the_same_symbol() {
    let ctx = NamingContext::new();
    let sym = ctx.text("seen");
    let found = ctx.get_text("seen");
    assert_eq!(found, Some(sym));
}

#[test]
fn a_run_resolves_itself() {
    let ctx = NamingContext::new();
    let run = ctx.get_run("self-contained");
    assert_eq!(run.to_str(), "self-contained");
}

#[test]
fn an_interned_name_splits_on_dots() {
    let ctx = NamingContext::new();
    let name = Name::from_str("com.example.model", &ctx);
    assert_eq!(
        name.to_vec(),
        vec!["com".to_string(), "example".to_string(), "model".to_string()]
    );
}

#[test]
fn an_interned_name_keeps_empty_pieces() {
    let ctx = NamingContext::new();
    let name = Name::from_str("a..b", &ctx);
    assert_eq!(
        name.to_vec(),
        vec!["a".to_string(), "".to_string(), "b".to_string()]
    );
}
