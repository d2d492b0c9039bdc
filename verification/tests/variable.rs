use memgram::errors::Error;
use memgram::gram_parse::{
    get_var_arithmetic_operator, ArithmeticOperators, Grammar, GrammerFields, VariableOptions,
    VariableSizeArithmeticOrder, VariableSizeEntry,
};
use memgram::variable::{is_null_word, resolve_directive};

fn field(name: &str, size: usize, display: &str) -> GrammerFields {
    GrammerFields {
        name: name.to_string(),
        size,
        data_type: "t".to_string(),
        display_format: display.to_string(),
        description: "d".to_string(),
    }
}

fn quad(a: &str, b: &str, c: &str, d: &str) -> (String, String, String, String) {
    (a.to_string(), b.to_string(), c.to_string(), d.to_string())
}

fn grammar(directives: Vec<(String, String, String, String)>) -> Grammar {
    let mut g = Grammar::new();
    g.metadata.variable_size_fields = directives;
    g.metadata.multiply_fields = vec![(String::new(), String::new())];
    g.fields = vec![
        field("len", 4, "hexle"),
        field("data", 0, "ascii"),
        field("tail", 2, "hex"),
    ];
    g
}

fn resolve(directives: Vec<(String, String, String, String)>) -> Result<Vec<VariableSizeEntry>, Error> {
    let mut g = grammar(directives);
    let mut out = Vec::new();
    g.create_var_size_entry_vector(&mut out)?;
    Ok(out)
}

#[test]
fn operators_are_the_four_signs() {
    assert_eq!(get_var_arithmetic_operator("+"), Ok(ArithmeticOperators::Addition));
    assert_eq!(get_var_arithmetic_operator("-"), Ok(ArithmeticOperators::Subtraction));
    assert_eq!(get_var_arithmetic_operator("*"), Ok(ArithmeticOperators::Multiplication));
    assert_eq!(get_var_arithmetic_operator("/"), Ok(ArithmeticOperators::Division));
    assert_eq!(get_var_arithmetic_operator(""), Err(Error::InvalidDirective));
    assert_eq!(get_var_arithmetic_operator("++"), Err(Error::InvalidDirective));
    assert_eq!(get_var_arithmetic_operator("%"), Err(Error::InvalidDirective));
    assert_eq!(get_var_arithmetic_operator(" +"), Err(Error::InvalidDirective));
}

#[test]
fn placeholder_gives_no_entries() {
    let mut g = grammar(vec![quad("", "", "", "")]);
    let mut out = vec![VariableSizeEntry::new()];
    assert_eq!(g.create_var_size_entry_vector(&mut out), Ok(()));
    assert!(out.is_empty());
}

#[test]
fn no_directives_give_no_entries() {
    assert_eq!(resolve(vec![]).unwrap().len(), 0);
}

#[test]
fn source_first_is_forwards() {
    let entries = resolve(vec![quad("len", "+", "4", "data")]).unwrap();
    assert_eq!(entries.len(), 1);
    let e = &entries[0];
    assert_eq!(e.source_field_name, "len");
    assert_eq!(e.source_field_index, 0);
    assert_eq!(e.source_field_display, "hexle");
    assert_eq!(e.source_field_real_size, 0);
    assert_eq!(e.var_field_name, "data");
    assert_eq!(e.variable_options, VariableOptions::NoOptions);
    assert_eq!(e.arithemitc_order, VariableSizeArithmeticOrder::Forwards);
    assert_eq!(e.arithmetic_operator, ArithmeticOperators::Addition);
    assert_eq!(e.adjustment, 4);
}

#[test]
fn source_last_is_backwards() {
    let entries = resolve(vec![quad("100", "-", "len", "data")]).unwrap();
    let e = &entries[0];
    assert_eq!(e.source_field_name, "len");
    assert_eq!(e.var_field_name, "data");
    assert_eq!(e.arithemitc_order, VariableSizeArithmeticOrder::Backwards);
    assert_eq!(e.arithmetic_operator, ArithmeticOperators::Subtraction);
    assert_eq!(e.adjustment, 100);
}

#[test]
fn operator_and_operand_are_trimmed() {
    let entries = resolve(vec![quad("len", "  * \t", " 12\n", "data")]).unwrap();
    let e = &entries[0];
    assert_eq!(e.arithmetic_operator, ArithmeticOperators::Multiplication);
    assert_eq!(e.adjustment, 12);
    assert_eq!(e.arithemitc_order, VariableSizeArithmeticOrder::Forwards);
}

#[test]
fn source_without_arithmetic_is_unset() {
    let entries = resolve(vec![quad("len", "", "", "data")]).unwrap();
    let e = &entries[0];
    assert_eq!(e.source_field_name, "len");
    assert_eq!(e.arithemitc_order, VariableSizeArithmeticOrder::Unset);
    assert_eq!(e.arithmetic_operator, ArithmeticOperators::Addition);
    assert_eq!(e.adjustment, 0);
}

#[test]
fn null_word_marks_a_null_terminated_field() {
    let entries = resolve(vec![quad("", "null", "", "data")]).unwrap();
    let e = &entries[0];
    assert_eq!(e.var_field_name, "data");
    assert_eq!(e.variable_options, VariableOptions::NullChar);
    assert_eq!(e.source_field_name, "");
    assert_eq!(e.arithemitc_order, VariableSizeArithmeticOrder::Unset);
}

#[test]
fn null_word_is_trimmed_and_lowered() {
    let entries = resolve(vec![quad("", "  NuLL ", "", "data")]).unwrap();
    assert_eq!(entries[0].variable_options, VariableOptions::NullChar);
}

#[test]
fn is_null_word_wants_the_word_itself() {
    assert!(is_null_word("null"));
    assert!(!is_null_word("NULL"));
    assert!(!is_null_word("nul"));
    assert!(!is_null_word("nulls"));
    assert!(!is_null_word(""));
}

#[test]
fn every_directive_gives_an_entry() {
    let entries = resolve(vec![
        quad("len", "+", "1", "data"),
        quad("", "null", "", "tail"),
    ])
    .unwrap();
    assert_eq!(entries.len(), 2);
    assert_eq!(entries[0].var_field_name, "data");
    assert_eq!(entries[1].var_field_name, "tail");
    assert_eq!(entries[1].variable_options, VariableOptions::NullChar);
}

#[test]
fn unknown_target_is_invalid() {
    assert_eq!(resolve(vec![quad("len", "+", "4", "nothing")]).err(), Some(Error::InvalidDirective));
}

#[test]
fn unknown_source_is_invalid() {
    assert_eq!(resolve(vec![quad("nothing", "+", "4", "data")]).err(), Some(Error::InvalidDirective));
    assert_eq!(resolve(vec![quad("4", "+", "nothing", "data")]).err(), Some(Error::InvalidDirective));
}

#[test]
fn bad_operator_is_invalid() {
    assert_eq!(resolve(vec![quad("len", "%", "4", "data")]).err(), Some(Error::InvalidDirective));
    assert_eq!(resolve(vec![quad("len", "+-", "4", "data")]).err(), Some(Error::InvalidDirective));
}

#[test]
fn bad_operand_is_invalid() {
    assert_eq!(resolve(vec![quad("len", "+", "four", "data")]).err(), Some(Error::InvalidDirective));
    assert_eq!(resolve(vec![quad("len", "+", "-4", "data")]).err(), Some(Error::InvalidDirective));
    assert_eq!(resolve(vec![quad("len", "+", "1_000", "data")]).err(), Some(Error::InvalidDirective));
}

#[test]
fn invalid_directive_leaves_the_entries_given() {
    let mut g = grammar(vec![quad("len", "+", "4", "data"), quad("len", "+", "4", "nothing")]);
    let mut out = vec![VariableSizeEntry::new()];
    assert_eq!(g.create_var_size_entry_vector(&mut out), Err(Error::InvalidDirective));
    assert_eq!(out.len(), 1);
}

#[test]
fn source_and_target_in_one_field_is_invalid() {
    assert_eq!(resolve(vec![quad("data", "+", "4", "data")]).err(), Some(Error::InvalidDirective));
}

#[test]
fn resolve_directive_takes_the_marker_as_given() {
    let fields = vec![field("len", 4, "hexle"), field("data", 0, "ascii")];
    let e = resolve_directive(&fields, &quad("", "anything", "", "data"), true).unwrap();
    assert_eq!(e.variable_options, VariableOptions::NullChar);
    let r = resolve_directive(&fields, &quad("", "null", "", "data"), false);
    assert_eq!(r.err(), Some(Error::InvalidDirective));
}

#[test]
fn last_field_of_a_name_is_the_source() {
    let fields = vec![
        field("len", 4, "hexle"),
        field("len", 2, "hex"),
        field("data", 0, "ascii"),
    ];
    let e = resolve_directive(&fields, &quad("len", "/", "2", "data"), false).unwrap();
    assert_eq!(e.source_field_index, 1);
    assert_eq!(e.source_field_display, "hex");
    assert_eq!(e.arithmetic_operator, ArithmeticOperators::Division);
}
