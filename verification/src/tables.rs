//! The rows of the two tables, and the printable tables that hold them.

use vstd::prelude::*;
use crate::errors::Error;
use crate::gram_parse::{total_size, FieldView, GrammerFields};
use crate::hex_text::{hex_padded, hex_with_prefix, padded_hex, prefixed_hex};
use crate::text::chars_of;

verus! {

#[verifier::external_type_specification]
#[verifier::external_body]
pub struct ExTable(prettytable::Table);

/// The texts that a printable table holds: for each row, from top to bottom,
/// the content of each of its cells, from left to right.
pub uninterp spec fn table_cells(table: prettytable::Table) -> Seq<Seq<Seq<char>>>;

/// The content of a table cell that was made of `text`.
pub uninterp spec fn cell_content(text: Seq<char>) -> Seq<char>;

/// The styles that a printable table holds: for each row, from top to
/// bottom, the style of each of its cells, from left to right, written out.
pub uninterp spec fn table_styles(table: prettytable::Table) -> Seq<Seq<Seq<char>>>;

/// The style, written out, of a table cell that was given the style that
/// `specifier` names.
pub uninterp spec fn cell_style(specifier: Seq<char>) -> Seq<char>;

/// Whether `text` holds no escape character, with which a terminal escape
/// starts.
pub open spec fn no_escape(text: Seq<char>) -> bool {
    forall|i: int| 0 <= i < text.len() ==> text[i] != '\u{1b}'
}

/// `prettytable::Table::new`: a table without rows.
#[verifier::external_body]
pub(crate) fn table_new() -> (r: prettytable::Table)
    ensures
        table_cells(r) == Seq::<Seq<Seq<char>>>::empty(),
        table_styles(r) == Seq::<Seq<Seq<char>>>::empty(),
{
    prettytable::Table::new()
}

/// `prettytable::Table::add_row`, with a row (`Row::new`) of one cell for
/// each text (`Cell::new`) in the style that the specifier names
/// (`Cell::style_spec`): the table holds one more row, of the contents of
/// those cells, each in that style. A specifier with a horizontal span is left out, and so is a
/// text with an escape character: the width of such a text, which a cell
/// takes when it is made, is not defined for every one of them.
#[verifier::external_body]
pub(crate) fn table_add_row(table: &mut prettytable::Table, cells: &Vec<String>, style: &str)
    requires
        forall|i: int| 0 <= i < style@.len() ==> style@[i] != 'H',
        forall|i: int| 0 <= i < cells@.len() ==> no_escape(#[trigger] cells@[i]@),
    ensures
        table_cells(*final(table)) == table_cells(*old(table)).push(
            Seq::new(cells@.len(), |i: int| cell_content(cells@[i]@)),
        ),
        table_styles(*final(table)) == table_styles(*old(table)).push(
            Seq::new(cells@.len(), |i: int| cell_style(style@)),
        ),
{
    table.add_row(
        prettytable::Row::new(
            cells.iter().map(|text| prettytable::Cell::new(text).style_spec(style)).collect(),
        ),
    );
}

/// How a row of a table is printed.
#[derive(Clone, Copy, Debug, PartialEq, Eq, Structural)]
pub enum RowStyle {
    /// The row of the column titles, in the plain style.
    Titles,
    /// Bold and green.
    Green,
    /// Bold and magenta.
    Magenta,
}

/// A row of a table.
#[derive(Debug)]
pub struct TableRow {
    /// The texts of the cells, from left to right.
    pub cells: Vec<String>,
    /// How the row is printed.
    pub style: RowStyle,
}

/// What a row of a table says.
pub struct RowView {
    pub cells: Seq<Seq<char>>,
    pub style: RowStyle,
}

impl View for TableRow {
    type V = RowView;

    open spec fn view(&self) -> RowView {
        RowView { cells: Seq::new(self.cells@.len(), |i: int| self.cells@[i]@), style: self.style }
    }
}

/// Which of the two tables is meant.
#[derive(Clone, Copy, Debug, PartialEq, Eq, Structural)]
pub enum Tables {
    /// The table of the fields with their data.
    Standard,
    /// The table of the fields with their descriptions.
    Description,
}

/// The style specifier of a row style: none for the titles, bold with a
/// green or a magenta foreground for the rows of the fields.
pub open spec fn specifier(style: RowStyle) -> Seq<char> {
    match style {
        RowStyle::Titles => ""@,
        RowStyle::Green => "bFG"@,
        RowStyle::Magenta => "bFM"@,
    }
}

/// The titles of the table of data.
pub open spec fn standard_titles() -> RowView {
    RowView {
        cells: seq![
            "ID"@,
            "Field"@,
            "Offset"@,
            "Size"@,
            "Data Type"@,
            "Raw Data"@,
            "Formatted Data"@,
        ],
        style: RowStyle::Titles,
    }
}

/// The titles of the table of descriptions.
pub open spec fn description_titles() -> RowView {
    RowView { cells: seq!["ID"@, "Field"@, "Description"@], style: RowStyle::Titles }
}

/// The titles of a table.
pub open spec fn titles_of(table: Tables) -> RowView {
    match table {
        Tables::Standard => standard_titles(),
        Tables::Description => description_titles(),
    }
}

/// The style of the row of the field at `index`: green and magenta in turn.
pub open spec fn style_at(index: int) -> RowStyle {
    if index % 2 == 0 {
        RowStyle::Green
    } else {
        RowStyle::Magenta
    }
}

/// The row of a field in the table of data: the number of the field, its
/// name, where it starts, its size, its data type, its raw bytes and its
/// formatted text.
pub open spec fn standard_row(
    field: FieldView,
    index: int,
    offset: int,
    raw: Seq<char>,
    formatted: Seq<char>,
) -> RowView {
    RowView {
        cells: seq![
            padded_hex(index as nat),
            field.name,
            prefixed_hex(offset as nat),
            prefixed_hex(field.size as nat),
            field.data_type,
            raw,
            formatted,
        ],
        style: style_at(index),
    }
}

/// The row of a field in the table of descriptions: the number of the
/// field, its name and its description.
pub open spec fn description_row(field: FieldView, index: int) -> RowView {
    RowView {
        cells: seq![padded_hex(index as nat), field.name, field.description],
        style: style_at(index),
    }
}

/// The row of the field at `index` in the table of data, where the first
/// field starts at `struct_offset`, with the raw and the formatted text that
/// stand under the name of the field.
pub open spec fn standard_row_at(
    fields: Seq<FieldView>,
    struct_offset: int,
    raw: Map<Seq<char>, Seq<char>>,
    formatted: Map<Seq<char>, Seq<char>>,
    index: int,
) -> RowView {
    standard_row(
        fields[index],
        index,
        struct_offset + total_size(fields.take(index)),
        raw[fields[index].name],
        formatted[fields[index].name],
    )
}

/// The rows of the first `n` fields in the table of data.
pub open spec fn standard_rows(
    fields: Seq<FieldView>,
    struct_offset: int,
    raw: Map<Seq<char>, Seq<char>>,
    formatted: Map<Seq<char>, Seq<char>>,
    n: nat,
) -> Seq<RowView> {
    Seq::new(n, |i: int| standard_row_at(fields, struct_offset, raw, formatted, i))
}

/// The rows of the first `n` fields in the table of descriptions.
pub open spec fn description_rows(fields: Seq<FieldView>, n: nat) -> Seq<RowView> {
    Seq::new(n, |i: int| description_row(fields[i], i))
}

/// Whether a row can stand in a printable table: none of its cells holds an
/// escape character.
pub open spec fn printable(row: RowView) -> bool {
    forall|i: int| 0 <= i < row.cells.len() ==> no_escape(#[trigger] row.cells[i])
}

/// What a printable table holds of a row: the content of each cell.
pub open spec fn content_of(row: RowView) -> Seq<Seq<char>> {
    Seq::new(row.cells.len(), |i: int| cell_content(row.cells[i]))
}

/// What a printable table holds of rows, from top to bottom.
pub open spec fn contents_of(rows: Seq<RowView>) -> Seq<Seq<Seq<char>>> {
    Seq::new(rows.len(), |i: int| content_of(rows[i]))
}

/// The styles in which a printable table holds a row: that of the row, for
/// each cell.
pub open spec fn style_of(row: RowView) -> Seq<Seq<char>> {
    Seq::new(row.cells.len(), |i: int| cell_style(specifier(row.style)))
}

/// The styles in which a printable table holds rows, from top to bottom.
pub open spec fn styles_of(rows: Seq<RowView>) -> Seq<Seq<Seq<char>>> {
    Seq::new(rows.len(), |i: int| style_of(rows[i]))
}

/// Whether `after` is the table `before` with `rows` added below, each in
/// its style.
pub open spec fn with_rows(
    before: prettytable::Table,
    rows: Seq<RowView>,
    after: prettytable::Table,
) -> bool {
    &&& table_cells(after) == table_cells(before) + contents_of(rows)
    &&& table_styles(after) == table_styles(before) + styles_of(rows)
}

/// Rows added to a table, and one more row added to what that gave, are
/// those rows and that row added to the table.
pub proof fn lemma_with_rows_push(
    before: prettytable::Table,
    rows: Seq<RowView>,
    middle: prettytable::Table,
    row: RowView,
    after: prettytable::Table,
)
    requires
        with_rows(before, rows, middle),
        with_rows(middle, seq![row], after),
    ensures
        with_rows(before, rows.push(row), after),
{
    assert(table_cells(after) =~= table_cells(before) + contents_of(rows.push(row)));
    assert(table_styles(after) =~= table_styles(before) + styles_of(rows.push(row)));
}

/// The style of the row of the field at `index`.
pub fn row_style(index: usize) -> (r: RowStyle)
    ensures
        r == style_at(index as int),
{
    if index % 2 == 0 {
        RowStyle::Green
    } else {
        RowStyle::Magenta
    }
}

/// The style specifier of a row style.
pub fn style_spec(style: RowStyle) -> (r: &'static str)
    ensures
        r@ == specifier(style),
{
    match style {
        RowStyle::Titles => "",
        RowStyle::Green => "bFG",
        RowStyle::Magenta => "bFM",
    }
}

/// The titles of a table.
pub fn titles_row(table: Tables) -> (r: TableRow)
    ensures
        r@ == titles_of(table),
{
    let mut cells: Vec<String> = Vec::new();
    cells.push("ID".to_owned());
    cells.push("Field".to_owned());
    match table {
        Tables::Standard => {
            cells.push("Offset".to_owned());
            cells.push("Size".to_owned());
            cells.push("Data Type".to_owned());
            cells.push("Raw Data".to_owned());
            cells.push("Formatted Data".to_owned());
        },
        Tables::Description => {
            cells.push("Description".to_owned());
        },
    }
    let row = TableRow { cells, style: RowStyle::Titles };
    assert(row@.cells =~= titles_of(table).cells);
    row
}

/// The row of a field in the table of data.
pub fn standard_row_of(
    field: &GrammerFields,
    index: usize,
    offset: usize,
    raw: &String,
    formatted: &String,
) -> (r: TableRow)
    ensures
        r@ == standard_row(field@, index as int, offset as int, raw@, formatted@),
{
    let mut cells: Vec<String> = Vec::new();
    cells.push(hex_padded(index));
    cells.push(field.name.clone());
    cells.push(hex_with_prefix(offset));
    cells.push(hex_with_prefix(field.size));
    cells.push(field.data_type.clone());
    cells.push(raw.clone());
    cells.push(formatted.clone());
    let row = TableRow { cells, style: row_style(index) };
    assert(row@.cells =~= standard_row(
        field@,
        index as int,
        offset as int,
        raw@,
        formatted@,
    ).cells);
    row
}

/// The row of a field in the table of descriptions.
pub fn description_row_of(field: &GrammerFields, index: usize) -> (r: TableRow)
    ensures
        r@ == description_row(field@, index as int),
{
    let mut cells: Vec<String> = Vec::new();
    cells.push(hex_padded(index));
    cells.push(field.name.clone());
    cells.push(field.description.clone());
    let row = TableRow { cells, style: row_style(index) };
    assert(row@.cells =~= description_row(field@, index as int).cells);
    row
}

/// The titles of both tables can stand in a printable table.
pub proof fn lemma_titles_printable(table: Tables)
    ensures
        printable(titles_of(table)),
{
    reveal_strlit("ID");
    reveal_strlit("Field");
    reveal_strlit("Offset");
    reveal_strlit("Size");
    reveal_strlit("Data Type");
    reveal_strlit("Raw Data");
    reveal_strlit("Formatted Data");
    reveal_strlit("Description");
    assert(no_escape("ID"@));
    assert(no_escape("Field"@));
    assert(no_escape("Offset"@));
    assert(no_escape("Size"@));
    assert(no_escape("Data Type"@));
    assert(no_escape("Raw Data"@));
    assert(no_escape("Formatted Data"@));
    assert(no_escape("Description"@));
}

/// Whether `text` holds no escape character.
pub fn has_no_escape(text: &str) -> (r: bool)
    ensures
        r == no_escape(text@),
{
    let chars: Vec<char> = chars_of(text);
    let mut i: usize = 0;
    while i < chars.len()
        invariant
            i <= chars@.len(),
            chars@ == text@,
            forall|j: int| 0 <= j < i ==> text@[j] != '\u{1b}',
        decreases chars@.len() - i,
    {
        if chars[i] == '\u{1b}' {
            return false;
        }
        i = i + 1;
    }
    true
}

/// Whether `row` can stand in a printable table.
pub fn is_printable(row: &TableRow) -> (r: bool)
    ensures
        r == printable(row@),
{
    let mut i: usize = 0;
    while i < row.cells.len()
        invariant
            i <= row.cells@.len(),
            forall|j: int| 0 <= j < i ==> no_escape(#[trigger] row@.cells[j]),
        decreases row.cells@.len() - i,
    {
        assert(row@.cells[i as int] == row.cells@[i as int]@);
        if !has_no_escape(row.cells[i].as_str()) {
            return false;
        }
        i = i + 1;
    }
    true
}

/// Adds `row` to a printable table, in its style. A row that cannot stand in
/// the table is refused and leaves the table as it was.
pub fn add_row(table: &mut prettytable::Table, row: &TableRow) -> (r: Result<(), Error>)
    ensures
        if printable(row@) {
            r is Ok && with_rows(*old(table), seq![row@], *final(table))
        } else {
            r == Err::<(), Error>(Error::UnprintableText) && *final(table) == *old(table)
        },
{
    if !is_printable(row) {
        return Err(Error::UnprintableText);
    }
    let style: &str = style_spec(row.style);
    proof {
        reveal_strlit("");
        reveal_strlit("bFG");
        reveal_strlit("bFM");
        assert forall|i: int| 0 <= i < row.cells@.len() implies no_escape(
            #[trigger] row.cells@[i]@,
        ) by {
            assert(row@.cells[i] == row.cells@[i]@);
        }
    }
    table_add_row(table, &row.cells, style);
    proof {
        assert(Seq::new(row.cells@.len(), |i: int| cell_content(row.cells@[i]@)) =~= content_of(
            row@,
        ));
        assert(Seq::new(row.cells@.len(), |i: int| cell_style(style@)) =~= style_of(row@));
        assert(table_cells(*table) =~= table_cells(*old(table)) + contents_of(seq![row@]));
        assert(table_styles(*table) =~= table_styles(*old(table)) + styles_of(seq![row@]));
    }
    Ok(())
}

} // verus!
