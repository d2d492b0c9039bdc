use memgram::errors::Error;
use memgram::struct_convert::{get_field_size, lowered_type_size, CStruct};
use memgram::text::{ascii_space, chars_of, find, find_word_end, string_of};

fn parsed(text: &str) -> CStruct {
    let mut c = CStruct::new();
    assert!(c.parse_c_struct(text).is_ok());
    c
}

fn pairs(c: &CStruct) -> Vec<(&str, &str)> {
    c.fields.iter().map(|(t, n)| (t.as_str(), n.as_str())).collect()
}

#[test]
fn new_struct_is_empty() {
    let c = CStruct::new();
    assert_eq!(c.name, "");
    assert!(c.fields.is_empty());
    assert_eq!(c.grammar_contents, "");
}

#[test]
fn basic_types_have_their_sizes() {
    for t in ["char", "signed char", "unsigned char"] {
        assert_eq!(get_field_size(t), Ok("0x01"));
    }
    for t in [
        "short",
        "short int",
        "signed short",
        "signed short int",
        "unsigned short",
        "unsigned short int",
    ] {
        assert_eq!(get_field_size(t), Ok("0x02"));
    }
    for t in [
        "float",
        "int",
        "signed",
        "signed int",
        "unsigned",
        "unsigned int",
        "long",
        "long int",
        "signed long",
        "signed long int",
        "unsigned long",
        "unsigned long int",
    ] {
        assert_eq!(get_field_size(t), Ok("0x04"));
    }
    for t in [
        "double",
        "long long",
        "long long int",
        "signed long long",
        "signed long long int",
        "unsigned long long",
        "unsigned long long int",
    ] {
        assert_eq!(get_field_size(t), Ok("0x08"));
    }
    assert_eq!(get_field_size("long double"), Ok("0x10"));
}

#[test]
fn type_names_are_taken_in_any_case() {
    assert_eq!(get_field_size("Unsigned INT"), Ok("0x04"));
    assert_eq!(get_field_size("CHAR"), Ok("0x01"));
    assert_eq!(lowered_type_size("CHAR"), Err(Error::UnsupportedType));
    assert_eq!(lowered_type_size("char"), Ok("0x01"));
}

#[test]
fn other_types_are_unsupported() {
    assert_eq!(get_field_size("uint32_t"), Err(Error::UnsupportedType));
    assert_eq!(get_field_size(""), Err(Error::UnsupportedType));
    assert_eq!(get_field_size("int "), Err(Error::UnsupportedType));
    assert_eq!(get_field_size("unsigned  int"), Err(Error::UnsupportedType));
}

#[test]
fn struct_is_read_from_its_text() {
    let c = parsed("struct Header {\n    unsigned int magic;\n\tchar tag;\r\n  long long int size;\n};\n");
    assert_eq!(c.name, "Header");
    assert_eq!(
        pairs(&c),
        vec![("unsigned int", "magic"), ("char", "tag"), ("long long int", "size")]
    );
    assert_eq!(c.grammar_contents, "");
}

#[test]
fn text_around_the_struct_is_passed_over() {
    let c = parsed("// a comment\ntypedef struct   Point\t{ int x; int y; };  trailing");
    assert_eq!(c.name, "Point");
    assert_eq!(pairs(&c), vec![("int", "x"), ("int", "y")]);
}

#[test]
fn struct_without_fields_has_none() {
    let c = parsed("struct Empty {};");
    assert_eq!(c.name, "Empty");
    assert!(c.fields.is_empty());
    let c = parsed("struct Empty{ \n };");
    assert!(c.fields.is_empty());
}

#[test]
fn semicolon_alone_closes_a_field_without_name() {
    let c = parsed("struct S { int x ; };");
    assert_eq!(pairs(&c), vec![("int x", "")]);
}

#[test]
fn type_without_name_stays_open() {
    let c = parsed("struct S { int x; unsigned };");
    assert_eq!(pairs(&c), vec![("int", "x"), ("unsigned", "")]);
}

#[test]
fn malformed_structs_are_refused() {
    for text in ["", "int x;", "struct", "struct S", "struct S { int x; }", "structS { int x; };"] {
        let mut c = CStruct::new();
        assert_eq!(c.parse_c_struct(text).err(), Some(Error::InvalidStruct));
        assert_eq!(c.name, "");
        assert!(c.fields.is_empty());
    }
}

#[test]
fn name_without_type_is_refused() {
    let mut c = CStruct::new();
    assert_eq!(
        c.parse_c_struct("struct S { int x; y; int z; };").err(),
        Some(Error::InvalidStruct)
    );
    assert_eq!(c.name, "S");
    assert_eq!(pairs(&c), vec![("int", "x")]);
}

#[test]
fn grammar_text_is_built_line_by_line() {
    let mut c = parsed("struct Pair { int a; unsigned char b; };");
    assert!(c.build_grammar_contents().is_ok());
    let expected = "[metadata]\r\n\tname = 'Pair'\r\n\tvariable_size_fields = [['','','','']]\r\n\tmultiply_fields = [['','']]\r\n\
\r\n[[fields]]\r\n\tname = 'a'\r\n\tsize = 0x04\r\n\tdata_type = 'int'\r\n\tdisplay_format = 'hex'\r\n\tdescription = 'N/A'\r\n\
\r\n[[fields]]\r\n\tname = 'b'\r\n\tsize = 0x01\r\n\tdata_type = 'unsigned char'\r\n\tdisplay_format = 'hex'\r\n\tdescription = 'N/A'\r\n";
    assert_eq!(c.grammar_contents, expected);
}

#[test]
fn grammar_text_stops_at_an_unknown_type() {
    let mut c = parsed("struct Pair { int a; uint8_t b; int c; };");
    assert_eq!(c.build_grammar_contents().err(), Some(Error::UnsupportedType));
    let expected = "[metadata]\r\n\tname = 'Pair'\r\n\tvariable_size_fields = [['','','','']]\r\n\tmultiply_fields = [['','']]\r\n\
\r\n[[fields]]\r\n\tname = 'a'\r\n\tsize = 0x04\r\n\tdata_type = 'int'\r\n\tdisplay_format = 'hex'\r\n\tdescription = 'N/A'\r\n\
\r\n[[fields]]\r\n\tname = 'b'\r\n";
    assert_eq!(c.grammar_contents, expected);
}

#[test]
fn text_helpers_agree_with_std() {
    assert_eq!(chars_of("a\u{E9}\u{1F600}"), vec!['a', '\u{E9}', '\u{1F600}']);
    let text = chars_of("one two  three");
    assert_eq!(string_of(&text, 4, 7), "two");
    assert_eq!(find(&text, &chars_of("t"), 0), Some(4));
    assert_eq!(find(&text, &chars_of("t"), 5), Some(9));
    assert_eq!(find(&text, &chars_of("three"), 0), Some(9));
    assert_eq!(find(&text, &chars_of("four"), 0), None);
    assert_eq!(find(&text, &chars_of(""), 3), Some(3));
    assert_eq!(find(&text, &chars_of(""), 15), None);
    assert_eq!(find_word_end(&text, 0, text.len()), 3);
    assert_eq!(find_word_end(&text, 3, text.len()), 3);
    assert_eq!(find_word_end(&text, 9, text.len()), 14);
    assert_eq!(find_word_end(&text, 9, 11), 11);
    for c in [' ', '\t', '\n', '\r', '\x0C'] {
        assert!(ascii_space(c));
    }
    for c in ['a', '\x0B', '\u{A0}', '0'] {
        assert!(!ascii_space(c));
    }
}
