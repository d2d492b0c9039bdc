use memgram::errors::Error;
use memgram::extract::{measure, scan_null_run};
use memgram::gram_parse::{Grammar, GrammerFields, VariableOptions, VariableSizeEntry};
use memgram::name_map::NameMap;
use memgram::source::BinarySource;
use memgram::table_display::TableData;

fn field(name: &str, size: usize, display: &str) -> GrammerFields {
    GrammerFields {
        name: name.to_string(),
        size,
        data_type: "t".to_string(),
        display_format: display.to_string(),
        description: "d".to_string(),
    }
}

fn quad(a: &str, b: &str, c: &str, d: &str) -> (String, String, String, String) {
    (a.to_string(), b.to_string(), c.to_string(), d.to_string())
}

fn grammar(fields: Vec<GrammerFields>, directives: Vec<(String, String, String, String)>) -> Grammar {
    let mut g = Grammar::new();
    g.metadata.variable_size_fields = directives;
    g.metadata.multiply_fields = vec![(String::new(), String::new())];
    g.fields = fields;
    g
}

fn fixed(fields: Vec<GrammerFields>) -> Grammar {
    grammar(fields, vec![quad("", "", "", "")])
}

fn get<'a>(table: &'a TableData, name: &str) -> Option<&'a Vec<u8>> {
    table.field_hashmap.get(name)
}

#[test]
fn one_field_of_four_bytes_is_read_verbatim() {
    let mut g = fixed(vec![field("magic", 4, "hex")]);
    let mut source = BinarySource::new(vec![0xDE, 0xAD, 0xBE, 0xEF, 0x00]);
    let mut table = TableData::new();
    assert!(table.create_field_hashmap(&mut g, &mut source, 0).is_ok());
    assert_eq!(get(&table, "magic"), Some(&vec![0xDE, 0xAD, 0xBE, 0xEF]));
    assert_eq!(get(&table, "other"), None);
    assert_eq!(source.position, 4);
}

#[test]
fn a_field_that_ends_at_the_end_of_the_file_is_too_large() {
    let mut g = fixed(vec![field("magic", 4, "hex")]);
    let mut source = BinarySource::new(vec![0xDE, 0xAD, 0xBE, 0xEF]);
    let mut table = TableData::new();
    let r = table.create_field_hashmap(&mut g, &mut source, 0);
    assert_eq!(r.err(), Some(Error::StructureTooLarge));
    assert_eq!(get(&table, "magic"), None);
}

#[test]
fn fixed_fields_are_read_in_order_from_the_offset() {
    let mut g = fixed(vec![field("a", 2, "hex"), field("b", 1, "hex"), field("c", 3, "hex")]);
    let size = g.get_struct_size();
    let data: Vec<u8> = (0u8..20).collect();
    let mut source = BinarySource::new(data);
    let mut table = TableData::new();
    assert!(table.create_field_hashmap(&mut g, &mut source, 5).is_ok());
    assert_eq!(get(&table, "a"), Some(&vec![5, 6]));
    assert_eq!(get(&table, "b"), Some(&vec![7]));
    assert_eq!(get(&table, "c"), Some(&vec![8, 9, 10]));
    assert_eq!(source.position, 5 + size as u64);
    assert_eq!(size, 6);
}

#[test]
fn fixed_field_past_the_end_fails_and_keeps_the_fields_before() {
    let mut g = fixed(vec![field("a", 2, "hex"), field("b", 4, "hex"), field("c", 1, "hex")]);
    let mut source = BinarySource::new(vec![1, 2, 3, 4, 5]);
    let mut table = TableData::new();
    let r = table.create_field_hashmap(&mut g, &mut source, 0);
    assert_eq!(r.err(), Some(Error::StructureTooLarge));
    assert_eq!(get(&table, "a"), Some(&vec![1, 2]));
    assert_eq!(get(&table, "b"), None);
    assert_eq!(get(&table, "c"), None);
    assert_eq!(source.position, 2);
}

#[test]
fn offset_past_the_end_is_too_large() {
    let mut g = fixed(vec![field("a", 0, "hex")]);
    let mut source = BinarySource::new(vec![1, 2, 3]);
    let mut table = TableData::new();
    let r = table.create_field_hashmap(&mut g, &mut source, 10);
    assert_eq!(r.err(), Some(Error::StructureTooLarge));
}

#[test]
fn huge_field_size_is_too_large() {
    let mut g = fixed(vec![field("a", usize::MAX, "hex")]);
    let mut source = BinarySource::new(vec![1, 2, 3]);
    let mut table = TableData::new();
    let r = table.create_field_hashmap(&mut g, &mut source, 1);
    assert_eq!(r.err(), Some(Error::StructureTooLarge));
}

#[test]
fn no_fields_read_nothing() {
    let mut g = fixed(vec![]);
    let mut source = BinarySource::new(vec![]);
    let mut table = TableData::new();
    assert!(table.create_field_hashmap(&mut g, &mut source, 0).is_ok());
    assert_eq!(source.position, 0);
}

#[test]
fn fields_of_one_name_keep_the_bytes_read_last() {
    let mut g = fixed(vec![field("a", 1, "hex"), field("a", 1, "hex")]);
    let mut source = BinarySource::new(vec![1, 2, 3]);
    let mut table = TableData::new();
    assert!(table.create_field_hashmap(&mut g, &mut source, 0).is_ok());
    assert_eq!(get(&table, "a"), Some(&vec![2]));
}

#[test]
fn invalid_directive_is_refused_before_reading() {
    let mut g = grammar(vec![field("a", 1, "hex")], vec![quad("a", "+", "1", "nothing")]);
    let mut source = BinarySource::new(vec![1, 2, 3]);
    let mut table = TableData::new();
    let r = table.create_field_hashmap(&mut g, &mut source, 0);
    assert_eq!(r.err(), Some(Error::InvalidDirective));
    assert_eq!(get(&table, "a"), None);
}

#[test]
fn little_endian_source_sizes_the_variable_field() {
    let mut g = grammar(
        vec![field("len", 4, "hexle"), field("data", 0, "ascii"), field("tail", 1, "hex")],
        vec![quad("len", "+", "1", "data")],
    );
    let mut source = BinarySource::new(vec![2, 0, 0, 0, b'a', b'b', b'c', 0xFF, 0x00]);
    let mut table = TableData::new();
    assert!(table.create_field_hashmap(&mut g, &mut source, 0).is_ok());
    assert_eq!(get(&table, "len"), Some(&vec![2, 0, 0, 0]));
    assert_eq!(get(&table, "data"), Some(&vec![b'a', b'b', b'c']));
    assert_eq!(get(&table, "tail"), Some(&vec![0xFF]));
    assert_eq!(g.fields[1].size, 3);
    assert_eq!(source.position, 8);
}

#[test]
fn other_display_formats_are_read_big_endian() {
    let mut g = grammar(
        vec![field("len", 2, "hex"), field("data", 9, "ascii")],
        vec![quad("len", "", "", "data")],
    );
    let mut source = BinarySource::new(vec![0, 3, b'a', b'b', b'c', 0]);
    let mut table = TableData::new();
    assert!(table.create_field_hashmap(&mut g, &mut source, 0).is_ok());
    assert_eq!(get(&table, "data"), Some(&vec![b'a', b'b', b'c']));
    assert_eq!(g.fields[1].size, 3);
}

#[test]
fn backwards_arithmetic_puts_the_source_on_the_right() {
    let mut g = grammar(
        vec![field("len", 2, "hexle"), field("data", 0, "ascii")],
        vec![quad("5", "-", "len", "data")],
    );
    let mut source = BinarySource::new(vec![3, 0, b'a', b'b', b'c']);
    let mut table = TableData::new();
    assert!(table.create_field_hashmap(&mut g, &mut source, 0).is_ok());
    assert_eq!(get(&table, "data"), Some(&vec![b'a', b'b']));
}

#[test]
fn underflow_in_the_size_arithmetic_is_a_fault() {
    let mut g = grammar(
        vec![field("len", 2, "hexle"), field("data", 0, "ascii")],
        vec![quad("4", "-", "len", "data")],
    );
    let mut source = BinarySource::new(vec![10, 0, b'a', b'b', b'c']);
    let mut table = TableData::new();
    let r = table.create_field_hashmap(&mut g, &mut source, 0);
    assert_eq!(r.err(), Some(Error::ArithmeticFault));
    assert_eq!(get(&table, "len"), Some(&vec![10, 0]));
    assert_eq!(get(&table, "data"), None);
}

#[test]
fn division_by_zero_is_a_fault() {
    let mut g = grammar(
        vec![field("len", 2, "hexle"), field("data", 0, "ascii")],
        vec![quad("len", "/", "0", "data")],
    );
    let mut source = BinarySource::new(vec![10, 0, b'a', b'b', b'c']);
    let mut table = TableData::new();
    let r = table.create_field_hashmap(&mut g, &mut source, 0);
    assert_eq!(r.err(), Some(Error::ArithmeticFault));
}

#[test]
fn source_after_its_variable_field_is_missing() {
    let mut g = grammar(
        vec![field("data", 1, "ascii"), field("len", 2, "hexle")],
        vec![quad("len", "+", "1", "data")],
    );
    let mut source = BinarySource::new(vec![1, 2, 3, 4, 5]);
    let mut table = TableData::new();
    let r = table.create_field_hashmap(&mut g, &mut source, 0);
    assert_eq!(r.err(), Some(Error::MissingSourceField));
    assert_eq!(get(&table, "data"), None);
}

#[test]
fn source_of_three_bytes_is_unsupported() {
    let mut g = grammar(
        vec![field("len", 3, "hexle"), field("data", 1, "ascii")],
        vec![quad("len", "+", "1", "data")],
    );
    let mut source = BinarySource::new(vec![1, 2, 3, 4, 5, 6]);
    let mut table = TableData::new();
    let r = table.create_field_hashmap(&mut g, &mut source, 0);
    assert_eq!(r.err(), Some(Error::UnsupportedSize));
    assert_eq!(get(&table, "len"), Some(&vec![1, 2, 3]));
}

#[test]
fn variable_path_stops_softly_at_the_end_of_the_file() {
    let mut g = grammar(
        vec![field("len", 2, "hexle"), field("data", 0, "ascii"), field("tail", 4, "hex")],
        vec![quad("len", "", "", "data")],
    );
    let mut source = BinarySource::new(vec![2, 0, b'a', b'b', 1, 2]);
    let mut table = TableData::new();
    assert!(table.create_field_hashmap(&mut g, &mut source, 0).is_ok());
    assert_eq!(get(&table, "len"), Some(&vec![2, 0]));
    assert_eq!(get(&table, "data"), Some(&vec![b'a', b'b']));
    assert_eq!(get(&table, "tail"), None);
    assert_eq!(source.position, 4);
}

#[test]
fn null_terminated_field_ends_before_the_byte_after_the_zeros() {
    let mut g = grammar(
        vec![field("text", 0, "ascii"), field("next", 1, "hex")],
        vec![quad("", "null", "", "text")],
    );
    let mut source = BinarySource::new(vec![b'h', b'i', 0, 0, 0, 0x7F, 0x01]);
    let mut table = TableData::new();
    assert!(table.create_field_hashmap(&mut g, &mut source, 0).is_ok());
    assert_eq!(get(&table, "text"), Some(&vec![b'h', b'i', 0, 0, 0]));
    assert_eq!(get(&table, "next"), Some(&vec![0x7F]));
    assert_eq!(g.fields[0].size, 5);
}

#[test]
fn null_terminated_field_without_end_keeps_its_declared_size() {
    let mut g = grammar(
        vec![field("text", 2, "ascii"), field("next", 1, "hex")],
        vec![quad("", "null", "", "text")],
    );
    let mut source = BinarySource::new(vec![b'h', b'i', b'!', b'?', b'.']);
    let mut table = TableData::new();
    assert!(table.create_field_hashmap(&mut g, &mut source, 0).is_ok());
    assert_eq!(get(&table, "text"), Some(&vec![b'h', b'i']));
    assert_eq!(get(&table, "next"), Some(&vec![b'!']));
    assert_eq!(g.fields[0].size, 2);
}

#[test]
fn scan_finds_the_first_byte_after_a_run_of_zeros() {
    assert_eq!(scan_null_run(&[b'a', b'b', 0, 0, 0, b'c', 0, b'd']), Some(5));
    assert_eq!(scan_null_run(&[0, 1]), Some(1));
    assert_eq!(scan_null_run(&[0, 0, 0]), None);
    assert_eq!(scan_null_run(&[1, 2, 3]), None);
    assert_eq!(scan_null_run(&[1, 2, 0]), None);
    assert_eq!(scan_null_run(&[]), None);
}

#[test]
fn null_scan_looks_at_512_bytes_only() {
    let mut data = vec![b'x'; 10];
    data.extend(vec![0u8; 600]);
    data.push(1);
    data.push(2);
    let mut g = grammar(
        vec![field("text", 3, "ascii")],
        vec![quad("", "null", "", "text")],
    );
    let mut source = BinarySource::new(data);
    let mut table = TableData::new();
    assert!(table.create_field_hashmap(&mut g, &mut source, 0).is_ok());
    assert_eq!(g.fields[0].size, 3);
    assert_eq!(get(&table, "text"), Some(&vec![b'x'; 3]));
}

#[test]
fn var_sized_pass_starts_at_the_cursor() {
    let mut g = grammar(
        vec![field("len", 2, "hexle"), field("data", 0, "ascii")],
        vec![quad("len", "*", "2", "data")],
    );
    let mut entries = Vec::new();
    g.create_var_size_entry_vector(&mut entries).unwrap();
    let mut source = BinarySource::new(vec![9, 9, 1, 0, b'a', b'b', b'c']);
    source.seek(2);
    let mut table = TableData::new();
    assert_eq!(
        table.create_var_sized_field_hashmap(&mut g, &mut source, &mut entries),
        Ok(())
    );
    assert_eq!(get(&table, "data"), Some(&vec![b'a', b'b']));
    assert_eq!(entries[0].source_field_real_size, 1);
    assert_eq!(source.position, 6);
}

#[test]
fn measure_reads_the_source_from_the_map() {
    let mut map: NameMap<Vec<u8>> = NameMap::new();
    map.insert("len".to_string(), vec![0, 0, 1, 0]);
    let source = BinarySource::new(vec![0; 8]);
    let mut e = VariableSizeEntry::new();
    e.source_field_name = "len".to_string();
    e.var_field_name = "data".to_string();
    e.source_field_display = "hex".to_string();
    assert_eq!(measure(&mut e, 7, &map, &source), Ok(256));
    assert_eq!(e.source_field_real_size, 256);
    e.source_field_display = "hexle".to_string();
    assert_eq!(measure(&mut e, 7, &map, &source), Ok(65536));
    e.source_field_name = "other".to_string();
    assert_eq!(measure(&mut e, 7, &map, &source), Err(Error::MissingSourceField));
    e.variable_options = VariableOptions::NullChar;
    assert_eq!(measure(&mut e, 7, &map, &source), Ok(7));
}

#[test]
fn source_reads_and_peeks_up_to_the_end() {
    let mut source = BinarySource::new(vec![1, 2, 3, 4, 5]);
    assert_eq!(source.len(), 5);
    assert_eq!(source.peek(2), vec![1, 2]);
    assert_eq!(source.position, 0);
    assert_eq!(source.read(2), vec![1, 2]);
    assert_eq!(source.position, 2);
    assert_eq!(source.read(10), vec![3, 4, 5]);
    assert_eq!(source.position, 5);
    assert_eq!(source.read(1), Vec::<u8>::new());
    source.seek(100);
    assert_eq!(source.peek(1), Vec::<u8>::new());
    assert_eq!(source.position, 100);
}

#[test]
fn name_map_keeps_the_last_value_of_a_name() {
    let mut map: NameMap<u32> = NameMap::new();
    assert_eq!(map.get("a"), None);
    assert!(!map.contains_key("a"));
    map.insert("a".to_string(), 1);
    map.insert("b".to_string(), 2);
    map.insert("a".to_string(), 3);
    assert_eq!(map.get("a"), Some(&3));
    assert_eq!(map.get("b"), Some(&2));
    assert!(map.contains_key("b"));
    assert!(!map.contains_key("c"));
}
