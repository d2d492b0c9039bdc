//! The data extracted from a binary source under a grammar, and what is shown
//! of it.

use vstd::prelude::*;
use crate::errors::Error;
use crate::extract::{bytes_of, outcome, pass_through, run_pass, Pass, Status};
use crate::format::{format_field, formatted, raw_string, raw_text};
use crate::gram_parse::{total_size, FieldView, Grammar};
use crate::name_map::NameMap;
use crate::sizes::VariableSizeEntry;
use crate::source::BinarySource;
use crate::tables::{
    add_row, description_row, description_row_of, description_rows, description_titles,
    lemma_titles_printable, lemma_with_rows_push, printable, standard_row_at, standard_row_of,
    standard_rows, standard_titles, table_cells, table_new, table_styles, titles_row, with_rows,
    RowView, Tables,
};
use crate::variable::{entries_view, resolved_entries};

verus! {

/// The raw bytes of each field, the texts made of them, and the two tables.
#[derive(Debug)]
pub struct TableData {
    /// The raw bytes read for each field, by field name.
    pub field_hashmap: NameMap<Vec<u8>>,
    /// The formatted text of each field, by field name.
    pub field_fmt_hashmap: NameMap<String>,
    /// The raw bytes of each field as a hex string, by field name.
    pub field_str_hashmap: NameMap<String>,
    /// The table of the fields with their descriptions.
    pub description_table: prettytable::Table,
    /// The table of the fields with their data.
    pub standard_table: prettytable::Table,
}

/// The texts that a map of strings holds, by name.
pub open spec fn texts_of(map: Map<Seq<char>, String>) -> Map<Seq<char>, Seq<char>> {
    Map::new(|name: Seq<char>| map.contains_key(name), |name: Seq<char>| map[name]@)
}

/// The texts made of the raw bytes of the fields, so far.
pub struct Texts {
    /// The raw bytes of each field in hexadecimal digits, by field name.
    pub raw: Map<Seq<char>, Seq<char>>,
    /// The formatted text of each field, by field name.
    pub formatted: Map<Seq<char>, Seq<char>>,
    /// What went wrong, if anything did.
    pub fault: Option<Error>,
}

/// The texts after the field `field`: its raw bytes in hexadecimal digits
/// and in its display format, each under its name. A field that was not
/// extracted is a fault and adds nothing; bytes that do not fit the display
/// format are a fault and add the digits only.
pub open spec fn with_texts(
    texts: Texts,
    bytes: Map<Seq<char>, Seq<u8>>,
    field: FieldView,
    swap: bool,
) -> Texts {
    if !bytes.contains_key(field.name) {
        Texts { fault: Some(Error::MissingField), ..texts }
    } else {
        let raw = texts.raw.insert(field.name, raw_text(bytes[field.name]));
        match formatted(field.display_format, bytes[field.name], swap) {
            Some(text) => Texts {
                raw: raw,
                formatted: texts.formatted.insert(field.name, text),
                fault: None,
            },
            None => Texts { raw: raw, fault: Some(Error::InvalidFieldData), ..texts },
        }
    }
}

/// The texts after the first `n` fields, up to the first fault.
pub open spec fn texts_through(
    texts: Texts,
    bytes: Map<Seq<char>, Seq<u8>>,
    fields: Seq<FieldView>,
    swap: bool,
    n: nat,
) -> Texts
    decreases n,
{
    if n == 0 {
        texts
    } else {
        let before = texts_through(texts, bytes, fields, swap, (n - 1) as nat);
        if before.fault is None {
            with_texts(before, bytes, fields[n - 1], swap)
        } else {
            before
        }
    }
}

/// After a fault, further fields leave the texts as they are.
pub proof fn lemma_texts_fault_stays(
    texts: Texts,
    bytes: Map<Seq<char>, Seq<u8>>,
    fields: Seq<FieldView>,
    swap: bool,
    m: nat,
    n: nat,
)
    requires
        m <= n,
        texts_through(texts, bytes, fields, swap, m).fault is Some,
    ensures
        texts_through(texts, bytes, fields, swap, n) == texts_through(
            texts,
            bytes,
            fields,
            swap,
            m,
        ),
    decreases n,
{
    if m < n {
        lemma_texts_fault_stays(texts, bytes, fields, swap, m, (n - 1) as nat);
    }
}

/// The rows of a table: its titles, then the rows of the fields.
pub open spec fn titled(titles: RowView, rows: Seq<RowView>) -> Seq<RowView> {
    seq![titles] + rows
}

/// What keeps the field at `index` out of the table of data, if anything
/// does: it has no raw or no formatted text, or its row cannot stand in a
/// printable table.
pub open spec fn row_fault(
    fields: Seq<FieldView>,
    struct_offset: int,
    raw: Map<Seq<char>, Seq<char>>,
    formatted: Map<Seq<char>, Seq<char>>,
    index: int,
) -> Option<Error> {
    if !(raw.contains_key(fields[index].name) && formatted.contains_key(fields[index].name)) {
        Some(Error::MissingField)
    } else if !printable(standard_row_at(fields, struct_offset, raw, formatted, index)) {
        Some(Error::UnprintableText)
    } else {
        None
    }
}

/// Whether the field at `index` is the first that something keeps out of the
/// table of data.
pub open spec fn first_fault(
    fields: Seq<FieldView>,
    struct_offset: int,
    raw: Map<Seq<char>, Seq<char>>,
    formatted: Map<Seq<char>, Seq<char>>,
    index: int,
) -> bool {
    &&& 0 <= index < fields.len()
    &&& row_fault(fields, struct_offset, raw, formatted, index) is Some
    &&& forall|j: int|
        0 <= j < index ==> (#[trigger] row_fault(fields, struct_offset, raw, formatted, j))
            is None
}

/// Whether the field at `index` is the first whose row cannot stand in the
/// table of descriptions.
pub open spec fn first_unprintable(fields: Seq<FieldView>, index: int) -> bool {
    &&& 0 <= index < fields.len()
    &&& !printable(description_row(fields[index], index))
    &&& forall|j: int| 0 <= j < index ==> printable(#[trigger] description_row(fields[j], j))
}

/// The pass that is about to read the first field.
pub open spec fn pass_of(
    map: NameMap<Vec<u8>>,
    grammar: Grammar,
    source: BinarySource,
    entries: Seq<VariableSizeEntry>,
) -> Pass {
    Pass {
        position: source.position as int,
        fields: grammar.field_views(),
        entries: entries_view(entries),
        map: bytes_of(map@),
        status: Status::Going,
    }
}

/// Whether the map, the grammar, the source and the entries are as `pass`
/// says.
pub open spec fn shows(
    pass: Pass,
    map: NameMap<Vec<u8>>,
    grammar: Grammar,
    source: BinarySource,
    entries: Seq<VariableSizeEntry>,
) -> bool {
    &&& source.position == pass.position
    &&& grammar.field_views() == pass.fields
    &&& entries_view(entries) == pass.entries
    &&& bytes_of(map@) == pass.map
}

impl TableData {
    /// Table data with nothing extracted.
    pub fn new() -> (r: TableData)
        ensures
            r.field_hashmap@ == Map::<Seq<char>, Vec<u8>>::empty(),
            r.field_fmt_hashmap@ == Map::<Seq<char>, String>::empty(),
            r.field_str_hashmap@ == Map::<Seq<char>, String>::empty(),
            table_cells(r.description_table) == Seq::<Seq<Seq<char>>>::empty(),
            table_styles(r.description_table) == Seq::<Seq<Seq<char>>>::empty(),
            table_cells(r.standard_table) == Seq::<Seq<Seq<char>>>::empty(),
            table_styles(r.standard_table) == Seq::<Seq<Seq<char>>>::empty(),
    {
        TableData {
            field_hashmap: NameMap::new(),
            field_fmt_hashmap: NameMap::new(),
            field_str_hashmap: NameMap::new(),
            description_table: table_new(),
            standard_table: table_new(),
        }
    }

    /// Extracts the fields of a grammar with variable-size fields from the
    /// cursor of `binary_file` on. Each field is first sized by the entries
    /// whose target it is, in their order, then read into the map under its
    /// name. A field that would end at or past the end of the file ends the
    /// pass early, without a failure, and the fields before it stay
    /// extracted.
    ///
    /// A null-terminated field whose end the bytes at the cursor do not show
    /// is read at its declared size.
    pub fn create_var_sized_field_hashmap(
        &mut self,
        parsed_gram: &mut Grammar,
        binary_file: &mut BinarySource,
        var_sized_fields_vec: &mut Vec<VariableSizeEntry>,
    ) -> (r: Result<(), Error>)
        ensures
            ({
                let start = pass_of(
                    old(self).field_hashmap,
                    *old(parsed_gram),
                    *old(binary_file),
                    old(var_sized_fields_vec)@,
                );
                let end = pass_through(
                    start,
                    old(binary_file).data@,
                    old(parsed_gram).fields@.len(),
                    false,
                );
                &&& shows(
                    end,
                    final(self).field_hashmap,
                    *final(parsed_gram),
                    *final(binary_file),
                    final(var_sized_fields_vec)@,
                )
                &&& r == outcome(end.status)
            }),
            final(binary_file).data == old(binary_file).data,
            final(parsed_gram).metadata == old(parsed_gram).metadata,
            final(self).field_fmt_hashmap == old(self).field_fmt_hashmap,
            final(self).field_str_hashmap == old(self).field_str_hashmap,
            final(self).description_table == old(self).description_table,
            final(self).standard_table == old(self).standard_table,
    {
        run_pass(
            &mut self.field_hashmap,
            &mut parsed_gram.fields,
            binary_file,
            var_sized_fields_vec,
            false,
        )
    }

    /// Extracts the fields of a grammar from `binary_file`, starting
    /// `struct_offset` bytes into it.
    ///
    /// The variable-size directives of the grammar are resolved first; an
    /// invalid one is refused before anything is read. Where the grammar has
    /// such directives, the fields are extracted as
    /// `create_var_sized_field_hashmap` does. Where it has none, every
    /// field is read at its declared size, and a field that would end at or
    /// past the end of the file fails the pass, with the fields before it
    /// extracted.
    pub fn create_field_hashmap(
        &mut self,
        parsed_gram: &mut Grammar,
        binary_file: &mut BinarySource,
        struct_offset: u64,
    ) -> (r: Result<&mut Self, Error>)
        ensures
            final(binary_file).data == old(binary_file).data,
            final(parsed_gram).metadata == old(parsed_gram).metadata,
            match resolved_entries(
                old(parsed_gram).field_views(),
                old(parsed_gram).variable_directives(),
            ) {
                None => {
                    &&& r is Err
                    &&& r->Err_0 == Error::InvalidDirective
                    &&& *final(self) == *old(self)
                    &&& *final(parsed_gram) == *old(parsed_gram)
                    &&& final(binary_file).position == struct_offset
                },
                Some(entries) => {
                    let start = Pass {
                        position: struct_offset as int,
                        fields: old(parsed_gram).field_views(),
                        entries: entries,
                        map: bytes_of(old(self).field_hashmap@),
                        status: Status::Going,
                    };
                    let end = pass_through(
                        start,
                        old(binary_file).data@,
                        old(parsed_gram).fields@.len(),
                        entries.len() == 0,
                    );
                    &&& final(binary_file).position == end.position
                    &&& final(parsed_gram).field_views() == end.fields
                    &&& match r {
                        Ok(table) => {
                            &&& !(end.status is Failed)
                            &&& bytes_of(table.field_hashmap@) == end.map
                            &&& table.field_fmt_hashmap == old(self).field_fmt_hashmap
                            &&& table.field_str_hashmap == old(self).field_str_hashmap
                            &&& table.description_table == old(self).description_table
                            &&& table.standard_table == old(self).standard_table
                            &&& *final(table) == *final(self)
                        },
                        Err(error) => {
                            &&& end.status == Status::Failed(error)
                            &&& bytes_of(final(self).field_hashmap@) == end.map
                            &&& final(self).field_fmt_hashmap == old(self).field_fmt_hashmap
                            &&& final(self).field_str_hashmap == old(self).field_str_hashmap
                            &&& final(self).description_table == old(self).description_table
                            &&& final(self).standard_table == old(self).standard_table
                        },
                    }
                },
            },
    {
        binary_file.seek(struct_offset);
        let mut var_sized_fields_vec: Vec<VariableSizeEntry> = Vec::new();
        match parsed_gram.create_var_size_entry_vector(&mut var_sized_fields_vec) {
            Ok(()) => {},
            Err(error) => {
                return Err(error);
            },
        }
        let strict: bool = var_sized_fields_vec.len() == 0;
        match run_pass(
            &mut self.field_hashmap,
            &mut parsed_gram.fields,
            binary_file,
            &mut var_sized_fields_vec,
            strict,
        ) {
            Ok(()) => Ok(self),
            Err(error) => Err(error),
        }
    }

    /// Makes the texts of every field from its raw bytes: the bytes in
    /// hexadecimal digits, and the bytes in the display format of the field.
    /// It stops at the first field that was not extracted, and at the first
    /// whose bytes do not fit its display format.
    pub fn format_fields(&mut self, parsed_gram: &Grammar, fmt_endian_flag: bool) -> (r: Result<
        &mut Self,
        Error,
    >)
        ensures
            ({
                let start = Texts {
                    raw: texts_of(old(self).field_str_hashmap@),
                    formatted: texts_of(old(self).field_fmt_hashmap@),
                    fault: None,
                };
                let end = texts_through(
                    start,
                    bytes_of(old(self).field_hashmap@),
                    parsed_gram.field_views(),
                    fmt_endian_flag,
                    parsed_gram.fields@.len(),
                );
                match r {
                    Ok(table) => {
                        &&& end.fault is None
                        &&& texts_of(table.field_str_hashmap@) == end.raw
                        &&& texts_of(table.field_fmt_hashmap@) == end.formatted
                        &&& table.field_hashmap == old(self).field_hashmap
                        &&& table.description_table == old(self).description_table
                        &&& table.standard_table == old(self).standard_table
                        &&& *final(table) == *final(self)
                    },
                    Err(error) => {
                        &&& end.fault == Some(error)
                        &&& texts_of(final(self).field_str_hashmap@) == end.raw
                        &&& texts_of(final(self).field_fmt_hashmap@) == end.formatted
                        &&& final(self).field_hashmap == old(self).field_hashmap
                        &&& final(self).description_table == old(self).description_table
                        &&& final(self).standard_table == old(self).standard_table
                    },
                }
            }),
    {
        let ghost start = Texts {
            raw: texts_of(self.field_str_hashmap@),
            formatted: texts_of(self.field_fmt_hashmap@),
            fault: None,
        };
        let ghost bytes = bytes_of(self.field_hashmap@);
        let ghost fields = parsed_gram.field_views();
        let total: usize = parsed_gram.fields.len();
        let mut k: usize = 0;
        while k < total
            invariant
                k <= total,
                total == parsed_gram.fields@.len(),
                fields == parsed_gram.field_views(),
                bytes == bytes_of(self.field_hashmap@),
                self.field_hashmap == old(self).field_hashmap,
                self.description_table == old(self).description_table,
                self.standard_table == old(self).standard_table,
                start == (Texts {
                    raw: texts_of(old(self).field_str_hashmap@),
                    formatted: texts_of(old(self).field_fmt_hashmap@),
                    fault: None,
                }),
                texts_through(start, bytes, fields, fmt_endian_flag, k as nat) == (Texts {
                    raw: texts_of(self.field_str_hashmap@),
                    formatted: texts_of(self.field_fmt_hashmap@),
                    fault: None,
                }),
            decreases total - k,
        {
            let field = &parsed_gram.fields[k];
            assert(fields[k as int] == field@);
            let ghost before = texts_through(start, bytes, fields, fmt_endian_flag, k as nat);
            let ghost raw_before = self.field_str_hashmap@;
            let ghost formatted_before = self.field_fmt_hashmap@;
            let raw_field_data: &Vec<u8> = match self.field_hashmap.get(field.name.as_str()) {
                Some(raw_field_data) => raw_field_data,
                None => {
                    proof {
                        lemma_texts_fault_stays(
                            start,
                            bytes,
                            fields,
                            fmt_endian_flag,
                            (k + 1) as nat,
                            total as nat,
                        );
                    }
                    return Err(Error::MissingField);
                },
            };
            let raw_hex_string: String = raw_string(raw_field_data.as_slice());
            let formatted_data = format_field(
                field.display_format.as_str(),
                raw_field_data.as_slice(),
                fmt_endian_flag,
            );
            self.field_str_hashmap.insert(field.name.clone(), raw_hex_string);
            proof {
                assert(texts_of(self.field_str_hashmap@) =~= texts_of(raw_before).insert(
                    field.name@,
                    raw_text(bytes[field.name@]),
                ));
            }
            match formatted_data {
                Ok(text) => {
                    self.field_fmt_hashmap.insert(field.name.clone(), text);
                    proof {
                        assert(texts_of(self.field_fmt_hashmap@) =~= texts_of(
                            formatted_before,
                        ).insert(field.name@, text@));
                    }
                },
                Err(error) => {
                    proof {
                        lemma_texts_fault_stays(
                            start,
                            bytes,
                            fields,
                            fmt_endian_flag,
                            (k + 1) as nat,
                            total as nat,
                        );
                    }
                    return Err(error);
                },
            }
            k = k + 1;
        }
        Ok(self)
    }

    /// Appends to the table of data its titles and a row for every field,
    /// green and magenta in turn. `struct_offset` is where the first field
    /// starts. It stops at the first field without a raw or a formatted
    /// text, and at the first whose row holds an escape character and so
    /// cannot stand in the table.
    pub fn fill_standard_table(&mut self, parsed_gram: &Grammar, struct_offset: usize) -> (r:
        Result<&mut Self, Error>)
        requires
            struct_offset + total_size(parsed_gram.field_views()) <= usize::MAX,
        ensures
            ({
                let fields = parsed_gram.field_views();
                let raw = texts_of(old(self).field_str_hashmap@);
                let formatted = texts_of(old(self).field_fmt_hashmap@);
                match r {
                    Ok(table) => {
                        &&& forall|i: int|
                            0 <= i < fields.len() ==> (#[trigger] row_fault(
                                fields,
                                struct_offset as int,
                                raw,
                                formatted,
                                i,
                            )) is None
                        &&& with_rows(
                            old(self).standard_table,
                            titled(
                                standard_titles(),
                                standard_rows(
                                    fields,
                                    struct_offset as int,
                                    raw,
                                    formatted,
                                    fields.len(),
                                ),
                            ),
                            table.standard_table,
                        )
                        &&& table.field_hashmap == old(self).field_hashmap
                        &&& table.field_fmt_hashmap == old(self).field_fmt_hashmap
                        &&& table.field_str_hashmap == old(self).field_str_hashmap
                        &&& table.description_table == old(self).description_table
                        &&& *final(table) == *final(self)
                    },
                    Err(error) => {
                        &&& exists|k: int| #[trigger]
                            first_fault(fields, struct_offset as int, raw, formatted, k)
                                && row_fault(fields, struct_offset as int, raw, formatted, k)
                                == Some(error) && with_rows(
                                old(self).standard_table,
                                titled(
                                    standard_titles(),
                                    standard_rows(
                                        fields,
                                        struct_offset as int,
                                        raw,
                                        formatted,
                                        k as nat,
                                    ),
                                ),
                                final(self).standard_table,
                            )
                        &&& final(self).field_hashmap == old(self).field_hashmap
                        &&& final(self).field_fmt_hashmap == old(self).field_fmt_hashmap
                        &&& final(self).field_str_hashmap == old(self).field_str_hashmap
                        &&& final(self).description_table == old(self).description_table
                    },
                }
            }),
    {
        let ghost fields = parsed_gram.field_views();
        let ghost raw = texts_of(self.field_str_hashmap@);
        let ghost formatted = texts_of(self.field_fmt_hashmap@);
        let titles = titles_row(Tables::Standard);
        proof {
            lemma_titles_printable(Tables::Standard);
        }
        let added = add_row(&mut self.standard_table, &titles);
        assert(added is Ok);
        let total: usize = parsed_gram.fields.len();
        let mut offset: usize = struct_offset;
        let mut index: usize = 0;
        proof {
            assert(fields.take(0) =~= Seq::<FieldView>::empty());
            assert(titled(
                standard_titles(),
                standard_rows(fields, struct_offset as int, raw, formatted, 0),
            ) =~= seq![standard_titles()]);
        }
        while index < total
            invariant
                index <= total,
                total == parsed_gram.fields@.len(),
                fields == parsed_gram.field_views(),
                raw == texts_of(self.field_str_hashmap@),
                formatted == texts_of(self.field_fmt_hashmap@),
                self.field_hashmap == old(self).field_hashmap,
                self.field_fmt_hashmap == old(self).field_fmt_hashmap,
                self.field_str_hashmap == old(self).field_str_hashmap,
                self.description_table == old(self).description_table,
                struct_offset + total_size(fields) <= usize::MAX,
                offset == struct_offset + total_size(fields.take(index as int)),
                forall|j: int|
                    0 <= j < index ==> (#[trigger] row_fault(
                        fields,
                        struct_offset as int,
                        raw,
                        formatted,
                        j,
                    )) is None,
                with_rows(
                    old(self).standard_table,
                    titled(
                        standard_titles(),
                        standard_rows(fields, struct_offset as int, raw, formatted, index as nat),
                    ),
                    self.standard_table,
                ),
            decreases total - index,
        {
            let field = &parsed_gram.fields[index];
            assert(fields[index as int] == field@);
            let raw_hex_string: &String = match self.field_str_hashmap.get(field.name.as_str()) {
                Some(text) => text,
                None => {
                    assert(first_fault(
                        fields,
                        struct_offset as int,
                        raw,
                        formatted,
                        index as int,
                    ));
                    return Err(Error::MissingField);
                },
            };
            let formatted_data: &String = match self.field_fmt_hashmap.get(field.name.as_str()) {
                Some(text) => text,
                None => {
                    assert(first_fault(
                        fields,
                        struct_offset as int,
                        raw,
                        formatted,
                        index as int,
                    ));
                    return Err(Error::MissingField);
                },
            };
            let row = standard_row_of(field, index, offset, raw_hex_string, formatted_data);
            assert(row@ == standard_row_at(
                fields,
                struct_offset as int,
                raw,
                formatted,
                index as int,
            ));
            let ghost middle = self.standard_table;
            match add_row(&mut self.standard_table, &row) {
                Ok(()) => {},
                Err(error) => {
                    assert(first_fault(
                        fields,
                        struct_offset as int,
                        raw,
                        formatted,
                        index as int,
                    ));
                    return Err(error);
                },
            }
            proof {
                let so_far = titled(
                    standard_titles(),
                    standard_rows(fields, struct_offset as int, raw, formatted, index as nat),
                );
                lemma_with_rows_push(
                    old(self).standard_table,
                    so_far,
                    middle,
                    row@,
                    self.standard_table,
                );
                assert(so_far.push(row@) =~= titled(
                    standard_titles(),
                    standard_rows(
                        fields,
                        struct_offset as int,
                        raw,
                        formatted,
                        (index + 1) as nat,
                    ),
                ));
                assert(fields.take(index + 1).drop_last() == fields.take(index as int));
                crate::gram_parse::lemma_total_size_prefix(fields, index + 1);
            }
            offset = offset + field.size;
            index = index + 1;
        }
        Ok(self)
    }

    /// Appends to the table of descriptions its titles and a row for every
    /// field, green and magenta in turn. It stops at the first field whose
    /// row holds an escape character and so cannot stand in the table.
    pub fn fill_description_table(&mut self, parsed_gram: &Grammar) -> (r: Result<
        &mut Self,
        Error,
    >)
        ensures
            ({
                let fields = parsed_gram.field_views();
                match r {
                    Ok(table) => {
                        &&& forall|i: int|
                            0 <= i < fields.len() ==> printable(
                                #[trigger] description_row(fields[i], i),
                            )
                        &&& with_rows(
                            old(self).description_table,
                            titled(description_titles(), description_rows(fields, fields.len())),
                            table.description_table,
                        )
                        &&& table.field_hashmap == old(self).field_hashmap
                        &&& table.field_fmt_hashmap == old(self).field_fmt_hashmap
                        &&& table.field_str_hashmap == old(self).field_str_hashmap
                        &&& table.standard_table == old(self).standard_table
                        &&& *final(table) == *final(self)
                    },
                    Err(error) => {
                        &&& error == Error::UnprintableText
                        &&& exists|k: int| #[trigger]
                            first_unprintable(fields, k) && with_rows(
                                old(self).description_table,
                                titled(description_titles(), description_rows(fields, k as nat)),
                                final(self).description_table,
                            )
                        &&& final(self).field_hashmap == old(self).field_hashmap
                        &&& final(self).field_fmt_hashmap == old(self).field_fmt_hashmap
                        &&& final(self).field_str_hashmap == old(self).field_str_hashmap
                        &&& final(self).standard_table == old(self).standard_table
                    },
                }
            }),
    {
        let ghost fields = parsed_gram.field_views();
        let titles = titles_row(Tables::Description);
        proof {
            lemma_titles_printable(Tables::Description);
        }
        let added = add_row(&mut self.description_table, &titles);
        assert(added is Ok);
        assert(titled(description_titles(), description_rows(fields, 0)) =~= seq![
            description_titles(),
        ]);
        let total: usize = parsed_gram.fields.len();
        let mut index: usize = 0;
        while index < total
            invariant
                index <= total,
                total == parsed_gram.fields@.len(),
                fields == parsed_gram.field_views(),
                self.field_hashmap == old(self).field_hashmap,
                self.field_fmt_hashmap == old(self).field_fmt_hashmap,
                self.field_str_hashmap == old(self).field_str_hashmap,
                self.standard_table == old(self).standard_table,
                forall|j: int|
                    0 <= j < index ==> printable(#[trigger] description_row(fields[j], j)),
                with_rows(
                    old(self).description_table,
                    titled(description_titles(), description_rows(fields, index as nat)),
                    self.description_table,
                ),
            decreases total - index,
        {
            let field = &parsed_gram.fields[index];
            assert(fields[index as int] == field@);
            let row = description_row_of(field, index);
            let ghost middle = self.description_table;
            match add_row(&mut self.description_table, &row) {
                Ok(()) => {},
                Err(error) => {
                    assert(first_unprintable(fields, index as int));
                    return Err(error);
                },
            }
            proof {
                let so_far = titled(description_titles(), description_rows(fields, index as nat));
                lemma_with_rows_push(
                    old(self).description_table,
                    so_far,
                    middle,
                    row@,
                    self.description_table,
                );
                assert(so_far.push(row@) =~= titled(
                    description_titles(),
                    description_rows(fields, (index + 1) as nat),
                ));
            }
            index = index + 1;
        }
        Ok(self)
    }
}

} // verus!
