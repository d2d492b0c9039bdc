//! The hex view of a structure: its bytes in field order, and the range of
//! each field in them.

use std::ops::Range;
use vstd::prelude::*;
use crate::errors::Error;
use crate::extract::bytes_of;
use crate::format::{display_format, format_of, reversed, DisplayFormat};
use crate::gram_parse::{lemma_total_size_prefix, total_size, FieldView, Grammar};
use crate::name_map::NameMap;
use crate::tables::{row_style, style_at, RowStyle};

verus! {

#[verifier::external_type_specification]
#[verifier::external_body]
pub struct ExHexView<'a>(hexplay::HexView<'a>);

#[verifier::external_type_specification]
#[verifier::external_body]
pub struct ExColorSpec(hexplay::color::Spec);

/// What a printable hex view holds: its bytes, the address of the first of
/// them, the number of bytes in a row, and the bounds of its coloured ranges
/// in the order in which it holds them.
pub uninterp spec fn view_contents(view: hexplay::HexView<'_>) -> (
    Seq<u8>,
    usize,
    usize,
    Seq<(usize, usize)>,
);

/// The bounds of coloured ranges, in order.
pub open spec fn bounds_of(colors: Seq<(hexplay::color::Spec, Range<usize>)>) -> Seq<
    (usize, usize),
> {
    Seq::new(colors.len(), |i: int| (colors[i].1.start, colors[i].1.end))
}

/// Whether no range starts before a range that comes before it.
pub open spec fn starts_ascend(bounds: Seq<(usize, usize)>) -> bool {
    forall|i: int, j: int| 0 <= i <= j < bounds.len() ==> bounds[i].0 <= bounds[j].0
}

/// `hexplay::color::green_bold`: the colour of a bold green foreground.
#[verifier::external_body]
fn green_bold() -> hexplay::color::Spec {
    hexplay::color::green_bold()
}

/// `hexplay::color::magenta_bold`: the colour of a bold magenta foreground.
#[verifier::external_body]
fn magenta_bold() -> hexplay::color::Spec {
    hexplay::color::magenta_bold()
}

/// `hexplay::HexViewBuilder`, from `new` over `address_offset`, `row_width`
/// and `add_colors` to `finish`: a hex view of the bytes, the address and
/// the row width given. It holds the coloured ranges sorted by where they
/// start, so in the order given where that order is ascending.
#[verifier::external_body]
fn build_hex_view<'a>(
    data: &'a [u8],
    address_offset: usize,
    row_width: usize,
    colors: Vec<(hexplay::color::Spec, Range<usize>)>,
) -> (r: hexplay::HexView<'a>)
    ensures
        view_contents(r).0 == data@,
        view_contents(r).1 == address_offset,
        view_contents(r).2 == row_width,
        starts_ascend(bounds_of(colors@)) ==> view_contents(r).3 == bounds_of(colors@),
{
    hexplay::HexViewBuilder::new(data).address_offset(address_offset).row_width(
        row_width,
    ).add_colors(colors).finish()
}

/// The range of a field in the hex view, and how it is printed.
#[derive(Clone, Copy, Debug, PartialEq, Eq, Structural)]
pub struct ColorRange {
    /// How the bytes of the field are printed.
    pub style: RowStyle,
    /// The index of the first byte of the field.
    pub start: usize,
    /// The index after the last byte of the field.
    pub end: usize,
}

/// What a hex view shows.
#[derive(Debug)]
pub struct HexTable {
    /// The bytes of the structure.
    pub data: Vec<u8>,
    /// The range of each field, in field order.
    pub colors: Vec<ColorRange>,
}

/// Whether every one of the first `n` fields has its bytes in the map.
pub open spec fn all_extracted(
    fields: Seq<FieldView>,
    map: Map<Seq<char>, Seq<u8>>,
    n: nat,
) -> bool {
    forall|i: int| 0 <= i < n ==> map.contains_key((#[trigger] fields[i]).name)
}

/// The bytes of a field as the hex view shows them: last byte first where
/// `swap`, unless the field holds characters.
pub open spec fn view_bytes(field: FieldView, map: Map<Seq<char>, Seq<u8>>, swap: bool) -> Seq<
    u8,
> {
    if swap && format_of(field.display_format) != DisplayFormat::Ascii {
        map[field.name].reverse()
    } else {
        map[field.name]
    }
}

/// The bytes of the first `n` fields as the hex view shows them, one field
/// after another.
pub open spec fn joined_bytes(
    fields: Seq<FieldView>,
    map: Map<Seq<char>, Seq<u8>>,
    swap: bool,
    n: nat,
) -> Seq<u8>
    decreases n,
{
    if n == 0 {
        Seq::<u8>::empty()
    } else {
        joined_bytes(fields, map, swap, (n - 1) as nat) + view_bytes(fields[n - 1], map, swap)
    }
}

/// The range of the field at `index`: it starts where the sizes of the
/// fields before it end, and has the size of the field.
pub open spec fn range_at(fields: Seq<FieldView>, index: int) -> ColorRange {
    ColorRange {
        style: style_at(index),
        start: total_size(fields.take(index)) as usize,
        end: total_size(fields.take(index + 1)) as usize,
    }
}

/// The ranges of all the fields, in field order.
pub open spec fn ranges(fields: Seq<FieldView>) -> Seq<ColorRange> {
    Seq::new(fields.len(), |i: int| range_at(fields, i))
}

/// The bytes of all the fields as the hex view shows them.
fn join_fields(parsed_gram: &Grammar, field_hashmap: &NameMap<Vec<u8>>, hex_endianess: bool) -> (r:
    Option<Vec<u8>>)
    ensures
        ({
            let fields = parsed_gram.field_views();
            let map = bytes_of(field_hashmap@);
            match r {
                Some(data) => all_extracted(fields, map, fields.len()) && data@ == joined_bytes(
                    fields,
                    map,
                    hex_endianess,
                    fields.len(),
                ),
                None => !all_extracted(fields, map, fields.len()),
            }
        }),
{
    let ghost fields = parsed_gram.field_views();
    let ghost map = bytes_of(field_hashmap@);
    let mut hex_data: Vec<u8> = Vec::new();
    let total: usize = parsed_gram.fields.len();
    let mut index: usize = 0;
    while index < total
        invariant
            index <= total,
            total == parsed_gram.fields@.len(),
            fields == parsed_gram.field_views(),
            map == bytes_of(field_hashmap@),
            all_extracted(fields, map, index as nat),
            hex_data@ == joined_bytes(fields, map, hex_endianess, index as nat),
        decreases total - index,
    {
        let field = &parsed_gram.fields[index];
        assert(fields[index as int] == field@);
        let found: &Vec<u8> = match field_hashmap.get(field.name.as_str()) {
            Some(found) => found,
            None => {
                return None;
            },
        };
        let holds_characters: bool = display_format(field.display_format.as_str())
            == DisplayFormat::Ascii;
        let mut data: Vec<u8> = if hex_endianess && !holds_characters {
            reversed(found.as_slice())
        } else {
            found.clone()
        };
        assert(data@ =~= view_bytes(fields[index as int], map, hex_endianess));
        hex_data.append(&mut data);
        index = index + 1;
    }
    Some(hex_data)
}

/// The ranges of all the fields.
fn color_ranges(parsed_gram: &Grammar) -> (r: Vec<ColorRange>)
    requires
        total_size(parsed_gram.field_views()) <= usize::MAX,
    ensures
        r@ == ranges(parsed_gram.field_views()),
{
    let ghost fields = parsed_gram.field_views();
    let mut color_vector: Vec<ColorRange> = Vec::new();
    let mut color_offset: usize = 0;
    let total: usize = parsed_gram.fields.len();
    let mut index: usize = 0;
    assert(fields.take(0) =~= Seq::<FieldView>::empty());
    while index < total
        invariant
            index <= total,
            total == parsed_gram.fields@.len(),
            fields == parsed_gram.field_views(),
            total_size(fields) <= usize::MAX,
            color_offset == total_size(fields.take(index as int)),
            color_vector@ == ranges(fields).take(index as int),
        decreases total - index,
    {
        let field = &parsed_gram.fields[index];
        proof {
            assert(fields[index as int] == field@);
            assert(fields.take(index + 1).drop_last() == fields.take(index as int));
            lemma_total_size_prefix(fields, index + 1);
        }
        let end: usize = color_offset + field.size;
        color_vector.push(ColorRange { style: row_style(index), start: color_offset, end });
        assert(color_vector@ =~= ranges(fields).take(index + 1));
        color_offset = end;
        index = index + 1;
    }
    assert(color_vector@ =~= ranges(fields));
    color_vector
}

/// What the hex view of a structure shows: the bytes of its fields, one
/// field after another, as many as the sizes of the fields add up to, and the
/// range of each field in them, green and magenta in turn. Where
/// `hex_endianess`, the bytes of each field that does not hold characters
/// stand last byte first.
///
/// A field that was not extracted is refused as missing; fewer bytes than
/// the sizes of the fields add up to are refused as invalid field data.
pub fn hex_table(parsed_gram: &Grammar, field_hashmap: &NameMap<Vec<u8>>, hex_endianess: bool) -> (r:
    Result<HexTable, Error>)
    ensures
        ({
            let fields = parsed_gram.field_views();
            let map = bytes_of(field_hashmap@);
            let joined = joined_bytes(fields, map, hex_endianess, fields.len());
            match r {
                Ok(table) => {
                    &&& all_extracted(fields, map, fields.len())
                    &&& total_size(fields) <= joined.len()
                    &&& table.data@ == joined.take(total_size(fields) as int)
                    &&& table.colors@ == ranges(fields)
                    &&& starts_ascend(range_bounds(table.colors@))
                },
                Err(error) => if all_extracted(fields, map, fields.len()) {
                    error == Error::InvalidFieldData && total_size(fields) > joined.len()
                } else {
                    error == Error::MissingField
                },
            }
        }),
{
    let mut hex_data: Vec<u8> = match join_fields(parsed_gram, field_hashmap, hex_endianess) {
        Some(hex_data) => hex_data,
        None => {
            return Err(Error::MissingField);
        },
    };
    let struct_size: usize = match parsed_gram.checked_struct_size() {
        Some(struct_size) => struct_size,
        None => {
            assert(hex_data.len() == hex_data@.len());
            return Err(Error::InvalidFieldData);
        },
    };
    if hex_data.len() < struct_size {
        return Err(Error::InvalidFieldData);
    }
    hex_data.truncate(struct_size);
    let colors: Vec<ColorRange> = color_ranges(parsed_gram);
    proof {
        lemma_ranges_ascend(parsed_gram.field_views());
    }
    Ok(HexTable { data: hex_data, colors })
}

/// The bounds of the ranges of a hex table, in order.
pub open spec fn range_bounds(colors: Seq<ColorRange>) -> Seq<(usize, usize)> {
    Seq::new(colors.len(), |i: int| (colors[i].start, colors[i].end))
}

/// The ranges of the fields of a grammar start one after another.
pub proof fn lemma_ranges_ascend(fields: Seq<FieldView>)
    requires
        total_size(fields) <= usize::MAX,
    ensures
        starts_ascend(range_bounds(ranges(fields))),
{
    let bounds = range_bounds(ranges(fields));
    assert forall|i: int, j: int| 0 <= i <= j < bounds.len() implies (#[trigger] bounds[i]).0 <= (
    #[trigger] bounds[j]).0 by {
        lemma_total_size_prefix(fields.take(j), i);
        assert(fields.take(j).take(i) =~= fields.take(i));
        lemma_total_size_prefix(fields, j);
    }
}

/// The printable hex view of a hex table, whose first byte has the address
/// `field_offset`: 16 bytes in a row, the ranges green and magenta as the
/// table says.
pub fn hex_view<'a>(table: &'a HexTable, field_offset: usize) -> (r: hexplay::HexView<'a>)
    ensures
        view_contents(r).0 == table.data@,
        view_contents(r).1 == field_offset,
        view_contents(r).2 == 16,
        starts_ascend(range_bounds(table.colors@)) ==> view_contents(r).3 == range_bounds(
            table.colors@,
        ),
{
    let mut color_vector: Vec<(hexplay::color::Spec, Range<usize>)> = Vec::new();
    let mut index: usize = 0;
    while index < table.colors.len()
        invariant
            index <= table.colors@.len(),
            color_vector@.len() == index,
            bounds_of(color_vector@) == range_bounds(table.colors@).take(index as int),
        decreases table.colors@.len() - index,
    {
        let range = &table.colors[index];
        let color = match range.style {
            RowStyle::Magenta => magenta_bold(),
            _ => green_bold(),
        };
        let ghost before = color_vector@;
        let span: Range<usize> = Range { start: range.start, end: range.end };
        color_vector.push((color, span));
        assert(color_vector@ == before.push((color, span)));
        assert forall|k: int| 0 <= k < index implies bounds_of(color_vector@)[k] == range_bounds(
            table.colors@,
        )[k] by {
            assert(bounds_of(before)[k] == range_bounds(table.colors@).take(index as int)[k]);
        }
        assert(bounds_of(color_vector@) =~= range_bounds(table.colors@).take(index + 1));
        index = index + 1;
    }
    assert(bounds_of(color_vector@) =~= range_bounds(table.colors@));
    build_hex_view(table.data.as_slice(), field_offset, 0x10, color_vector)
}

} // verus!
