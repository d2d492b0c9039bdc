use memgram::errors::Error;
use memgram::gram_parse::{FieldMultiply, Grammar, GrammerFields, GrammerMetadata};

fn field(name: &str, size: usize) -> GrammerFields {
    GrammerFields {
        name: name.to_string(),
        size,
        data_type: format!("type of {}", name),
        display_format: "hex".to_string(),
        description: format!("about {}", name),
    }
}

fn grammar(fields: Vec<GrammerFields>, multiply: Vec<(&str, &str)>) -> Grammar {
    let mut g = Grammar::new();
    g.metadata.name = "test".to_string();
    g.metadata.variable_size_fields = vec![(
        String::new(),
        String::new(),
        String::new(),
        String::new(),
    )];
    g.metadata.multiply_fields = multiply
        .into_iter()
        .map(|(a, b)| (a.to_string(), b.to_string()))
        .collect();
    g.fields = fields;
    g
}

fn names(g: &Grammar) -> Vec<String> {
    g.fields.iter().map(|f| f.name.clone()).collect()
}

#[test]
fn new_grammar_is_empty() {
    let g = Grammar::new();
    assert!(g.fields.is_empty());
    assert!(g.metadata.name.is_empty());
    assert!(g.metadata.variable_size_fields.is_empty());
    assert!(g.metadata.multiply_fields.is_empty());
    let m = GrammerMetadata::new();
    assert!(m.name.is_empty());
    assert_eq!(g.get_struct_size(), 0);
}

#[test]
fn struct_size_is_the_sum_of_the_field_sizes() {
    let g = grammar(vec![field("a", 4), field("b", 2), field("c", 10)], vec![("", "")]);
    assert_eq!(g.get_struct_size(), 16);
    assert_eq!(g.checked_struct_size(), Some(16));
}

#[test]
fn struct_size_that_overflows_is_none() {
    let g = grammar(vec![field("a", usize::MAX), field("b", 1)], vec![("", "")]);
    assert_eq!(g.checked_struct_size(), None);
}

#[test]
fn duplicate_says_the_same() {
    let f = field("a", 4);
    let d = f.duplicate();
    assert_eq!(d.name, "a");
    assert_eq!(d.size, 4);
    assert_eq!(d.data_type, "type of a");
    assert_eq!(d.display_format, "hex");
    assert_eq!(d.description, "about a");
}

#[test]
fn multiply_puts_copies_in_a_row() {
    let mut g = grammar(vec![field("a", 1), field("b", 2), field("c", 3)], vec![("b", "3")]);
    assert_eq!(g.multiply_fields(), Ok(()));
    assert_eq!(names(&g), vec!["a", "b", "b", "b", "c"]);
    for f in &g.fields[1..4] {
        assert_eq!(f.size, 2);
        assert_eq!(f.data_type, "type of b");
        assert_eq!(f.display_format, "hex");
        assert_eq!(f.description, "about b");
    }
    assert_eq!(g.get_struct_size(), 10);
}

#[test]
fn multiply_takes_the_count_on_either_side() {
    let mut g = grammar(vec![field("a", 1), field("b", 2)], vec![("2", "a")]);
    assert_eq!(g.multiply_fields(), Ok(()));
    assert_eq!(names(&g), vec!["a", "a", "b"]);
}

#[test]
fn multiply_by_one_leaves_the_fields() {
    let mut g = grammar(vec![field("a", 1), field("b", 2)], vec![("a", "1")]);
    assert_eq!(g.multiply_fields(), Ok(()));
    assert_eq!(names(&g), vec!["a", "b"]);
}

#[test]
fn multiply_by_a_negative_count_leaves_the_fields() {
    let mut g = grammar(vec![field("a", 1), field("b", 2)], vec![("a", "-3")]);
    assert_eq!(g.multiply_fields(), Ok(()));
    assert_eq!(names(&g), vec!["a", "b"]);
}

#[test]
fn multiply_accepts_a_plus_sign() {
    let mut g = grammar(vec![field("a", 1)], vec![("a", "+2")]);
    assert_eq!(g.multiply_fields(), Ok(()));
    assert_eq!(names(&g), vec!["a", "a"]);
}

#[test]
fn multiply_directives_apply_in_order() {
    let mut g = grammar(
        vec![field("a", 1), field("b", 2)],
        vec![("a", "2"), ("b", "2"), ("a", "2")],
    );
    assert_eq!(g.multiply_fields(), Ok(()));
    assert_eq!(names(&g), vec!["a", "a", "a", "b", "b"]);
}

#[test]
fn multiply_by_zero_is_invalid() {
    let mut g = grammar(vec![field("a", 1)], vec![("a", "0")]);
    assert_eq!(g.multiply_fields(), Err(Error::InvalidDirective));
    assert_eq!(names(&g), vec!["a"]);
}

#[test]
fn multiply_of_an_unknown_field_is_invalid() {
    let mut g = grammar(vec![field("a", 1)], vec![("z", "2")]);
    assert_eq!(g.multiply_fields(), Err(Error::InvalidDirective));
}

#[test]
fn multiply_by_no_number_is_invalid() {
    let mut g = grammar(vec![field("a", 1)], vec![("a", "two")]);
    assert_eq!(g.multiply_fields(), Err(Error::InvalidDirective));
    let mut g = grammar(vec![field("a", 1)], vec![("a", " 2")]);
    assert_eq!(g.multiply_fields(), Err(Error::InvalidDirective));
    let mut g = grammar(vec![field("a", 1)], vec![("a", "99999999999")]);
    assert_eq!(g.multiply_fields(), Err(Error::InvalidDirective));
}

#[test]
fn multiply_of_a_field_without_name_is_invalid() {
    let mut g = grammar(vec![field("", 1)], vec![("", "2")]);
    assert_eq!(g.multiply_fields(), Err(Error::InvalidDirective));
}

#[test]
fn multiply_stops_at_the_first_invalid_directive() {
    let mut g = grammar(vec![field("a", 1), field("b", 2)], vec![("a", "2"), ("z", "2"), ("b", "2")]);
    assert_eq!(g.multiply_fields(), Err(Error::InvalidDirective));
    assert_eq!(names(&g), vec!["a", "a", "b"]);
}

#[test]
fn multiply_field_applies_one_directive() {
    let mut g = grammar(vec![field("a", 1), field("b", 2)], vec![("", "")]);
    assert_eq!(g.multiply_field(&"b".to_string(), &"4".to_string()), Ok(()));
    assert_eq!(names(&g), vec!["a", "b", "b", "b", "b"]);
}

#[test]
fn field_multiply_resolves_field_and_count() {
    let fields = vec![field("a", 1), field("b", 2)];
    let r = FieldMultiply::resolve(&fields, &"7".to_string(), &"b".to_string()).unwrap();
    assert_eq!(r.field_name, "b");
    assert_eq!(r.field_index, 1);
    assert_eq!(r.multiplier, 7);
    let n = FieldMultiply::new();
    assert_eq!(n.field_name, "");
    assert_eq!(n.field_index, 0);
    assert_eq!(n.multiplier, 0);
    assert!(FieldMultiply::resolve(&fields, &"x".to_string(), &"b".to_string()).is_err());
}

#[test]
fn post_parse_skips_the_placeholder() {
    let mut g = grammar(vec![field("a", 1)], vec![("", "")]);
    assert!(g.post_parse_toml().is_ok());
    assert_eq!(names(&g), vec!["a"]);
}

#[test]
fn post_parse_without_directives_does_nothing() {
    let mut g = grammar(vec![field("a", 1)], vec![]);
    assert!(g.post_parse_toml().is_ok());
    assert_eq!(names(&g), vec!["a"]);
}

#[test]
fn post_parse_multiplies() {
    let mut g = grammar(vec![field("a", 1), field("b", 1)], vec![("a", "3")]);
    assert_eq!(g.post_parse_toml().unwrap().fields.len(), 4);
    assert_eq!(names(&g), vec!["a", "a", "a", "b"]);
}

#[test]
fn post_parse_refuses_a_directive_with_an_empty_part() {
    let mut g = grammar(vec![field("a", 1)], vec![("a", "")]);
    assert_eq!(g.post_parse_toml().err(), Some(Error::InvalidDirective));
}
