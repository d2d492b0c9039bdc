//! The extraction pass: the fields of a grammar read one after another from a
//! binary source, each variable field sized first.

use vstd::prelude::*;
use crate::errors::Error;
use crate::format::{display_format, format_of, DisplayFormat};
use crate::gram_parse::{fields_view, total_size, FieldView, GrammerFields};
use crate::name_map::NameMap;
use crate::sizes::{
    decoded_size, supported_width, ConvertEndianess, EntryView, VariableOptions,
    VariableSizeEntry,
};
use crate::source::{window, BinarySource};
use crate::variable::{entries_view, no_variable_size, resolved_entries, QuadsView};

verus! {

/// How many bytes the search for the end of a null-terminated field looks at.
pub const NULL_WINDOW: usize = 512;

/// The byte order in which a source field of the given display format is
/// read: least significant byte first for the little-endian hex format, most
/// significant byte first for any other.
pub open spec fn endianess_of(display_format: Seq<char>) -> ConvertEndianess {
    if format_of(display_format) == DisplayFormat::HexLE {
        ConvertEndianess::LittleEndian
    } else {
        ConvertEndianess::BigEndian
    }
}

/// Whether `index` holds a byte that is not zero and comes after a zero byte.
pub open spec fn is_run_end(bytes: Seq<u8>, index: int) -> bool {
    &&& 0 <= index < bytes.len()
    &&& bytes[index] != 0
    &&& exists|j: int| 0 <= j < index && #[trigger] bytes[j] == 0
}

/// Whether `index` is the first byte that is not zero and comes after a zero
/// byte.
pub open spec fn is_first_run_end(bytes: Seq<u8>, index: int) -> bool {
    &&& is_run_end(bytes, index)
    &&& forall|k: int| 0 <= k < index ==> !is_run_end(bytes, k)
}

/// The size of a null-terminated field that starts with `bytes`: the index of
/// the first byte that is not zero and comes after a zero byte, if there is
/// one.
pub open spec fn null_size(bytes: Seq<u8>) -> Option<int> {
    if exists|i: int| is_first_run_end(bytes, i) {
        Some(choose|i: int| is_first_run_end(bytes, i))
    } else {
        None
    }
}

/// How far a pass has come.
pub enum Status {
    /// The next field can be read.
    Going,
    /// A field would have ended at or past the end of the file: the pass
    /// ended early, without a failure.
    Stopped,
    /// The pass failed.
    Failed(Error),
}

/// The state of an extraction pass.
pub struct Pass {
    /// The place of the cursor.
    pub position: int,
    /// The fields, with the sizes resolved so far.
    pub fields: Seq<FieldView>,
    /// The variable-size entries, with the source values read so far.
    pub entries: Seq<EntryView>,
    /// The bytes read so far, by field name.
    pub map: Map<Seq<char>, Seq<u8>>,
    /// How far the pass has come.
    pub status: Status,
}

/// What one entry makes of the size of its variable field: the entry with
/// the source value it read, the size, and the fault if there was one.
///
/// A null-terminated field gets the size that the bytes at the cursor show,
/// and keeps `size` where they show none. Any other field gets its size from
/// the bytes read for its source field, decoded and put through the
/// arithmetic of the entry.
pub open spec fn measured(
    entry: EntryView,
    size: usize,
    map: Map<Seq<char>, Seq<u8>>,
    data: Seq<u8>,
    position: int,
) -> (EntryView, usize, Option<Error>) {
    match entry.variable_options {
        VariableOptions::NullChar => match null_size(window(data, position, NULL_WINDOW as int)) {
            Some(found) => (entry, found as usize, None),
            None => (entry, size, None),
        },
        VariableOptions::NoOptions => if !map.contains_key(entry.source_field_name) {
            (entry, size, Some(Error::MissingSourceField))
        } else {
            let raw = map[entry.source_field_name];
            if !supported_width(raw.len()) {
                (entry, size, Some(Error::UnsupportedSize))
            } else {
                let value = decoded_size(raw, endianess_of(entry.source_field_display));
                let read = EntryView { source_field_real_size: value, ..entry };
                match read.size() {
                    Some(resolved) => (read, resolved, None),
                    None => (read, size, Some(Error::ArithmeticFault)),
                }
            }
        },
    }
}

/// The pass after the entry at `m` has had its say on the field at `k`: an
/// entry whose target is another field changes nothing.
pub open spec fn apply_entry(pass: Pass, data: Seq<u8>, k: int, m: int) -> Pass {
    let field = pass.fields[k];
    let entry = pass.entries[m];
    if entry.var_field_name == field.name {
        let (read, size, fault) = measured(entry, field.size, pass.map, data, pass.position);
        Pass {
            fields: pass.fields.update(k, FieldView { size: size, ..field }),
            entries: pass.entries.update(m, read),
            status: match fault {
                Some(error) => Status::Failed(error),
                None => Status::Going,
            },
            ..pass
        }
    } else {
        pass
    }
}

/// The pass after the first `m` entries have had their say on the field at
/// `k`, in order, up to the first fault.
pub open spec fn apply_entries(pass: Pass, data: Seq<u8>, k: int, m: nat) -> Pass
    decreases m,
{
    if m == 0 {
        pass
    } else {
        let before = apply_entries(pass, data, k, (m - 1) as nat);
        if before.status is Going {
            apply_entry(before, data, k, m - 1)
        } else {
            before
        }
    }
}

/// The pass after the field at `k` was read at its size: its bytes stand in
/// the map under its name and the cursor stands behind them. A field that
/// would end at or past the end of the file is not read: that fails the pass
/// where `strict`, and ends it early where not.
pub open spec fn read_field(pass: Pass, data: Seq<u8>, k: int, strict: bool) -> Pass {
    let field = pass.fields[k];
    if pass.position + field.size >= data.len() {
        Pass {
            status: if strict {
                Status::Failed(Error::StructureTooLarge)
            } else {
                Status::Stopped
            },
            ..pass
        }
    } else {
        Pass {
            position: pass.position + field.size,
            map: pass.map.insert(
                field.name,
                data.subrange(pass.position, pass.position + field.size),
            ),
            ..pass
        }
    }
}

/// The pass after the field at `k`: sized by the entries, then read.
pub open spec fn field_step(pass: Pass, data: Seq<u8>, k: int, strict: bool) -> Pass {
    let sized = apply_entries(pass, data, k, pass.entries.len());
    if sized.status is Going {
        read_field(sized, data, k, strict)
    } else {
        sized
    }
}

/// The pass after the first `n` fields, in declared order, up to the field
/// that ended or failed it.
pub open spec fn pass_through(pass: Pass, data: Seq<u8>, n: nat, strict: bool) -> Pass
    decreases n,
{
    if n == 0 {
        pass
    } else {
        let before = pass_through(pass, data, (n - 1) as nat, strict);
        if before.status is Going {
            field_step(before, data, n - 1, strict)
        } else {
            before
        }
    }
}

/// The bytes that a map of byte vectors holds, by name.
pub open spec fn bytes_of(map: Map<Seq<char>, Vec<u8>>) -> Map<Seq<char>, Seq<u8>> {
    Map::new(|name: Seq<char>| map.contains_key(name), |name: Seq<char>| map[name]@)
}

/// At most one index is the first end of a run of zero bytes.
pub proof fn lemma_first_run_end_unique(bytes: Seq<u8>, i: int, j: int)
    requires
        is_first_run_end(bytes, i),
        is_first_run_end(bytes, j),
    ensures
        i == j,
{
}

/// Where bytes that are not zero are followed by a run of zero bytes and then
/// by a byte that is not zero, the size of the null-terminated field is the
/// index of that byte.
pub proof fn lemma_null_size_after_run(bytes: Seq<u8>, run_start: int, run_end: int)
    requires
        0 <= run_start < run_end < bytes.len(),
        forall|i: int| 0 <= i < run_start ==> #[trigger] bytes[i] != 0,
        forall|i: int| run_start <= i < run_end ==> #[trigger] bytes[i] == 0,
        bytes[run_end] != 0,
    ensures
        null_size(bytes) == Some(run_end),
{
    assert(bytes[run_start] == 0);
    assert(is_run_end(bytes, run_end));
    assert forall|k: int| 0 <= k < run_end implies !is_run_end(bytes, k) by {
        if k >= run_start {
            assert(bytes[k] == 0);
        } else {
            assert forall|j: int| 0 <= j < k implies #[trigger] bytes[j] != 0 by {}
        }
    }
    assert(is_first_run_end(bytes, run_end));
    lemma_first_run_end_unique(bytes, run_end, choose|i: int| is_first_run_end(bytes, i));
}

/// Where the field at `k` starts when the fields before it are read at
/// their sizes from `start` on.
pub open spec fn offset_of(fields: Seq<FieldView>, start: int, k: int) -> int {
    start + total_size(fields.take(k))
}

/// `map` after the first `n` fields were read one after another from
/// `start` on, each at its size, under its name.
pub open spec fn fields_read(
    map: Map<Seq<char>, Seq<u8>>,
    fields: Seq<FieldView>,
    data: Seq<u8>,
    start: int,
    n: nat,
) -> Map<Seq<char>, Seq<u8>>
    decreases n,
{
    if n == 0 {
        map
    } else {
        fields_read(map, fields, data, start, (n - 1) as nat).insert(
            fields[n - 1].name,
            data.subrange(offset_of(fields, start, n - 1), offset_of(fields, start, n as int)),
        )
    }
}

/// A field starts where the field before it ends.
pub proof fn lemma_offset_step(fields: Seq<FieldView>, start: int, k: int)
    requires
        0 <= k < fields.len(),
    ensures
        offset_of(fields, start, k + 1) == offset_of(fields, start, k) + fields[k].size,
{
    assert(fields.take(k + 1).drop_last() == fields.take(k));
}

/// Without variable-size entries, a pass over fields that all end before the
/// end of the file reads every field at its declared size, one after another
/// from the cursor on: it moves the cursor by the total size of the fields,
/// changes no size, and leaves under each name the bytes of the field.
pub proof fn lemma_fixed_pass_reads_all(pass: Pass, data: Seq<u8>, n: nat, strict: bool)
    requires
        pass.entries.len() == 0,
        pass.status is Going,
        pass.position >= 0,
        n <= pass.fields.len(),
        n > 0 ==> offset_of(pass.fields, pass.position, n as int) < data.len(),
    ensures
        pass_through(pass, data, n, strict) == (Pass {
            position: offset_of(pass.fields, pass.position, n as int),
            map: fields_read(pass.map, pass.fields, data, pass.position, n),
            ..pass
        }),
    decreases n,
{
    if n > 0 {
        lemma_offset_step(pass.fields, pass.position, n - 1);
        lemma_fixed_pass_reads_all(pass, data, (n - 1) as nat, strict);
        let before = pass_through(pass, data, (n - 1) as nat, strict);
        assert(apply_entries(before, data, n - 1, 0) == before);
    } else {
        assert(pass.fields.take(0) =~= Seq::<FieldView>::empty());
    }
}

/// Without variable-size entries, a pass meets its end at the first field
/// that would end at or past the end of the file: a strict pass fails there
/// as too large, any other ends early. The fields before that one were read,
/// and nothing else was.
pub proof fn lemma_fixed_pass_ends_at(pass: Pass, data: Seq<u8>, n: nat, k: int, strict: bool)
    requires
        pass.entries.len() == 0,
        pass.status is Going,
        pass.position >= 0,
        0 <= k < n <= pass.fields.len(),
        offset_of(pass.fields, pass.position, k + 1) >= data.len(),
        k > 0 ==> offset_of(pass.fields, pass.position, k) < data.len(),
    ensures
        pass_through(pass, data, n, strict) == (Pass {
            position: offset_of(pass.fields, pass.position, k),
            map: fields_read(pass.map, pass.fields, data, pass.position, k as nat),
            status: if strict {
                Status::Failed(Error::StructureTooLarge)
            } else {
                Status::Stopped
            },
            ..pass
        }),
{
    lemma_fixed_pass_reads_all(pass, data, k as nat, strict);
    lemma_offset_step(pass.fields, pass.position, k);
    let before = pass_through(pass, data, k as nat, strict);
    assert(apply_entries(before, data, k, 0) == before);
    let ended = pass_through(pass, data, (k + 1) as nat, strict);
    assert(ended == read_field(before, data, k, strict));
    lemma_pass_ended_stays(pass, data, (k + 1) as nat, n, strict);
}

/// Once a pass has ended, further fields leave it as it is.
pub proof fn lemma_pass_ended_stays(pass: Pass, data: Seq<u8>, m: nat, n: nat, strict: bool)
    requires
        m <= n,
        !(pass_through(pass, data, m, strict).status is Going),
    ensures
        pass_through(pass, data, n, strict) == pass_through(pass, data, m, strict),
    decreases n,
{
    if m < n {
        lemma_pass_ended_stays(pass, data, m, (n - 1) as nat, strict);
    }
}

/// A grammar without variable-size directives has no entries, and where its
/// fields, read from `offset` on, all end before the end of the file, the
/// pass over it reads as many bytes as the sizes of the fields add up to: it
/// leaves the cursor that far behind `offset` and under the name of each
/// field the bytes of the field, in declared order.
pub proof fn lemma_fixed_grammar_extraction(
    fields: Seq<FieldView>,
    directives: QuadsView,
    data: Seq<u8>,
    offset: int,
    map: Map<Seq<char>, Seq<u8>>,
)
    requires
        no_variable_size(directives),
        offset >= 0,
        fields.len() > 0 ==> offset + total_size(fields) < data.len(),
    ensures
        resolved_entries(fields, directives) == Some(Seq::<EntryView>::empty()),
        pass_through(
            Pass {
                position: offset,
                fields: fields,
                entries: Seq::<EntryView>::empty(),
                map: map,
                status: Status::Going,
            },
            data,
            fields.len(),
            true,
        ) == (Pass {
            position: offset + total_size(fields),
            fields: fields,
            entries: Seq::<EntryView>::empty(),
            map: fields_read(map, fields, data, offset, fields.len()),
            status: Status::Going,
        }),
{
    let start = Pass {
        position: offset,
        fields: fields,
        entries: Seq::<EntryView>::empty(),
        map: map,
        status: Status::Going,
    };
    assert(fields.take(fields.len() as int) =~= fields);
    lemma_fixed_pass_reads_all(start, data, fields.len(), true);
}

/// After the first `n` fields were read, the map holds under the name of a
/// field that no later field shares the bytes that lie at the field's place.
pub proof fn lemma_fields_read_holds(
    map: Map<Seq<char>, Seq<u8>>,
    fields: Seq<FieldView>,
    data: Seq<u8>,
    start: int,
    n: nat,
    k: int,
)
    requires
        0 <= k < n <= fields.len(),
        forall|j: int| k < j < n ==> (#[trigger] fields[j]).name != fields[k].name,
    ensures
        fields_read(map, fields, data, start, n).contains_key(fields[k].name),
        fields_read(map, fields, data, start, n)[fields[k].name] == data.subrange(
            offset_of(fields, start, k),
            offset_of(fields, start, k + 1),
        ),
    decreases n,
{
    if k < n - 1 {
        assert(fields[n - 1].name != fields[k].name);
        lemma_fields_read_holds(map, fields, data, start, (n - 1) as nat, k);
    }
}

/// After the first `n` fields were read, a name that none of them has stands
/// in the map as it stood before.
pub proof fn lemma_fields_read_keeps(
    map: Map<Seq<char>, Seq<u8>>,
    fields: Seq<FieldView>,
    data: Seq<u8>,
    start: int,
    n: nat,
    name: Seq<char>,
)
    requires
        n <= fields.len(),
        forall|j: int| 0 <= j < n ==> (#[trigger] fields[j]).name != name,
    ensures
        fields_read(map, fields, data, start, n).contains_key(name) == map.contains_key(name),
        map.contains_key(name) ==> fields_read(map, fields, data, start, n)[name] == map[name],
    decreases n,
{
    if n > 0 {
        assert(fields[n - 1].name != name);
        lemma_fields_read_keeps(map, fields, data, start, (n - 1) as nat, name);
    }
}

/// A grammar of one fixed field that ends before the end of the file yields
/// a map of one more entry: the bytes of the field, as they lie at the
/// cursor, under its name.
pub proof fn lemma_single_field_read(pass: Pass, data: Seq<u8>, strict: bool)
    requires
        pass.entries.len() == 0,
        pass.status is Going,
        pass.position >= 0,
        pass.fields.len() == 1,
        pass.position + pass.fields[0].size < data.len(),
    ensures
        pass_through(pass, data, 1, strict) == (Pass {
            position: pass.position + pass.fields[0].size,
            map: pass.map.insert(
                pass.fields[0].name,
                data.subrange(pass.position, pass.position + pass.fields[0].size),
            ),
            ..pass
        }),
{
    lemma_offset_step(pass.fields, pass.position, 0);
    assert(pass.fields.take(0) =~= Seq::<FieldView>::empty());
    lemma_fixed_pass_reads_all(pass, data, 1, strict);
    assert(fields_read(pass.map, pass.fields, data, pass.position, 0) == pass.map);
}

/// The index of the first byte that is not zero and comes after a zero byte.
pub fn scan_null_run(bytes: &[u8]) -> (r: Option<usize>)
    ensures
        match r {
            Some(index) => null_size(bytes@) == Some(index as int),
            None => null_size(bytes@) is None,
        },
{
    let mut prev_null: bool = false;
    let mut index: usize = 0;
    while index < bytes.len()
        invariant
            index <= bytes@.len(),
            prev_null <==> exists|j: int| 0 <= j < index && #[trigger] bytes@[j] == 0,
            forall|k: int| 0 <= k < index ==> !is_run_end(bytes@, k),
        decreases bytes@.len() - index,
    {
        if bytes[index] == 0 {
            prev_null = true;
        } else if prev_null {
            proof {
                assert(is_first_run_end(bytes@, index as int));
                lemma_first_run_end_unique(
                    bytes@,
                    index as int,
                    choose|i: int| is_first_run_end(bytes@, i),
                );
            }
            return Some(index);
        }
        index = index + 1;
    }
    None
}

/// Finds the size that `entry` gives to its variable field, whose size so
/// far is `size`, with the cursor of `source` at the start of the field and
/// `map` holding the bytes of the fields before it. The entry keeps the
/// source value that was read.
pub fn measure(
    entry: &mut VariableSizeEntry,
    size: usize,
    map: &NameMap<Vec<u8>>,
    source: &BinarySource,
) -> (r: Result<usize, Error>)
    ensures
        ({
            let (read, resolved, fault) = measured(
                old(entry)@,
                size,
                bytes_of(map@),
                source.data@,
                source.position as int,
            );
            &&& final(entry)@ == read
            &&& match fault {
                Some(error) => r == Err::<usize, Error>(error),
                None => r == Ok::<usize, Error>(resolved),
            }
        }),
{
    match entry.variable_options {
        VariableOptions::NullChar => {
            let ahead: Vec<u8> = source.peek(NULL_WINDOW);
            match scan_null_run(ahead.as_slice()) {
                Some(found) => Ok(found),
                None => Ok(size),
            }
        },
        VariableOptions::NoOptions => {
            let raw: &Vec<u8> = match map.get(entry.source_field_name.as_str()) {
                Some(raw) => raw,
                None => {
                    return Err(Error::MissingSourceField);
                },
            };
            let endianess = match display_format(entry.source_field_display.as_str()) {
                DisplayFormat::HexLE => ConvertEndianess::LittleEndian,
                _ => ConvertEndianess::BigEndian,
            };
            match entry.convert_field_size(raw.as_slice(), endianess) {
                Ok(()) => {},
                Err(error) => {
                    return Err(error);
                },
            }
            match entry.checked_variable_size() {
                Some(resolved) => Ok(resolved),
                None => Err(Error::ArithmeticFault),
            }
        },
    }
}

/// What a pass that ended with `status` returns.
pub open spec fn outcome(status: Status) -> Result<(), Error> {
    match status {
        Status::Failed(error) => Err(error),
        _ => Ok(()),
    }
}

/// Reads the field at `k` at its size, or ends the pass.
pub(crate) fn read_one(
    map: &mut NameMap<Vec<u8>>,
    field: &GrammerFields,
    source: &mut BinarySource,
    strict: bool,
    Ghost(pass): Ghost<Pass>,
    Ghost(k): Ghost<int>,
) -> (r: Result<bool, Error>)
    requires
        0 <= k < pass.fields.len(),
        pass.fields[k] == field@,
        pass.position == old(source).position,
        pass.map == bytes_of(old(map)@),
        pass.status is Going,
    ensures
        ({
            let after = read_field(pass, old(source).data@, k, strict);
            &&& final(source).data == old(source).data
            &&& final(source).position == after.position
            &&& bytes_of(final(map)@) == after.map
            &&& match after.status {
                Status::Going => r == Ok::<bool, Error>(true),
                Status::Stopped => r == Ok::<bool, Error>(false),
                Status::Failed(error) => r == Err::<bool, Error>(error),
            }
        }),
{
    let size: usize = field.size;
    let len: u64 = source.len();
    let fits: bool = source.position < len && (size as u64) < len - source.position;
    if !fits {
        if strict {
            return Err(Error::StructureTooLarge);
        }
        return Ok(false);
    }
    let ghost before = map@;
    let ghost start = source.position as int;
    let bytes: Vec<u8> = source.read(size);
    assert(bytes@ =~= source.data@.subrange(start, start + size));
    let name: String = field.name.clone();
    map.insert(name, bytes);
    proof {
        assert(bytes_of(map@) =~= bytes_of(before).insert(field.name@, bytes@));
    }
    Ok(true)
}

/// Once a pass is not going, further entries leave it as it is.
pub proof fn lemma_apply_entries_stays(pass: Pass, data: Seq<u8>, k: int, m: nat, n: nat)
    requires
        m <= n,
        !(apply_entries(pass, data, k, m).status is Going),
    ensures
        apply_entries(pass, data, k, n) == apply_entries(pass, data, k, m),
    decreases n,
{
    if m < n {
        lemma_apply_entries_stays(pass, data, k, m, (n - 1) as nat);
    }
}

/// Entries change neither the cursor nor the map, nor the number of fields
/// and entries.
pub proof fn lemma_apply_entries_keeps(pass: Pass, data: Seq<u8>, k: int, m: nat)
    requires
        0 <= k < pass.fields.len(),
        m <= pass.entries.len(),
    ensures
        apply_entries(pass, data, k, m).position == pass.position,
        apply_entries(pass, data, k, m).map == pass.map,
        apply_entries(pass, data, k, m).fields.len() == pass.fields.len(),
        apply_entries(pass, data, k, m).entries.len() == pass.entries.len(),
        pass.status is Going ==> !(apply_entries(pass, data, k, m).status is Stopped),
    decreases m,
{
    if m > 0 {
        lemma_apply_entries_keeps(pass, data, k, (m - 1) as nat);
    }
}

/// Lets every entry have its say on the size of the field at `k`.
pub(crate) fn size_field(
    fields: &mut Vec<GrammerFields>,
    k: usize,
    entries: &mut Vec<VariableSizeEntry>,
    map: &NameMap<Vec<u8>>,
    source: &BinarySource,
    Ghost(pass): Ghost<Pass>,
) -> (r: Result<(), Error>)
    requires
        k < old(fields)@.len(),
        pass.fields == fields_view(old(fields)@),
        pass.entries == entries_view(old(entries)@),
        pass.map == bytes_of(map@),
        pass.position == source.position,
        pass.status is Going,
    ensures
        ({
            let after = apply_entries(pass, source.data@, k as int, pass.entries.len());
            &&& fields_view(final(fields)@) == after.fields
            &&& entries_view(final(entries)@) == after.entries
            &&& match after.status {
                Status::Going => r is Ok,
                Status::Stopped => false,
                Status::Failed(error) => r == Err::<(), Error>(error),
            }
        }),
{
    let total: usize = entries.len();
    let ghost data = source.data@;
    let mut m: usize = 0;
    while m < total
        invariant
            m <= total,
            total == entries@.len(),
            total == pass.entries.len(),
            k < fields@.len(),
            fields@.len() == pass.fields.len(),
            data == source.data@,
            pass.map == bytes_of(map@),
            pass.position == source.position,
            apply_entries(pass, data, k as int, m as nat) == (Pass {
                fields: fields_view(fields@),
                entries: entries_view(entries@),
                ..pass
            }),
            pass.status is Going,
        decreases total - m,
    {
        let ghost before = apply_entries(pass, data, k as int, m as nat);
        assert(before.fields[k as int] == fields@[k as int]@);
        assert(before.entries[m as int] == entries@[m as int]@);
        if fields[k].name == entries[m].var_field_name {
            let size: usize = fields[k].size;
            let measured = measure(&mut entries[m], size, map, source);
            proof {
                assert(entries_view(entries@) =~= before.entries.update(
                    m as int,
                    entries@[m as int]@,
                ));
            }
            match measured {
                Ok(resolved) => {
                    fields[k].size = resolved;
                    proof {
                        assert(fields_view(fields@) =~= before.fields.update(
                            k as int,
                            FieldView { size: resolved, ..before.fields[k as int] },
                        ));
                    }
                },
                Err(error) => {
                    proof {
                        assert(fields_view(fields@) =~= before.fields.update(
                            k as int,
                            FieldView { size: size, ..before.fields[k as int] },
                        ));
                        lemma_apply_entries_stays(
                            pass,
                            data,
                            k as int,
                            (m + 1) as nat,
                            total as nat,
                        );
                    }
                    return Err(error);
                },
            }
        }
        m = m + 1;
    }
    Ok(())
}

/// Runs the pass over all the fields.
pub(crate) fn run_pass(
    map: &mut NameMap<Vec<u8>>,
    fields: &mut Vec<GrammerFields>,
    source: &mut BinarySource,
    entries: &mut Vec<VariableSizeEntry>,
    strict: bool,
) -> (r: Result<(), Error>)
    ensures
        ({
            let start = Pass {
                position: old(source).position as int,
                fields: fields_view(old(fields)@),
                entries: entries_view(old(entries)@),
                map: bytes_of(old(map)@),
                status: Status::Going,
            };
            let end = pass_through(start, old(source).data@, old(fields)@.len(), strict);
            &&& final(source).data == old(source).data
            &&& final(source).position == end.position
            &&& fields_view(final(fields)@) == end.fields
            &&& entries_view(final(entries)@) == end.entries
            &&& bytes_of(final(map)@) == end.map
            &&& r == outcome(end.status)
        }),
{
    let ghost start = Pass {
        position: source.position as int,
        fields: fields_view(fields@),
        entries: entries_view(entries@),
        map: bytes_of(map@),
        status: Status::Going,
    };
    let ghost data = source.data@;
    let total: usize = fields.len();
    let mut k: usize = 0;
    while k < total
        invariant
            k <= total,
            total == fields@.len(),
            total == start.fields.len(),
            entries@.len() == start.entries.len(),
            data == source.data@,
            source.data == old(source).data,
            start == (Pass {
                position: old(source).position as int,
                fields: fields_view(old(fields)@),
                entries: entries_view(old(entries)@),
                map: bytes_of(old(map)@),
                status: Status::Going,
            }),
            pass_through(start, data, k as nat, strict) == (Pass {
                position: source.position as int,
                fields: fields_view(fields@),
                entries: entries_view(entries@),
                map: bytes_of(map@),
                status: Status::Going,
            }),
        decreases total - k,
    {
        let ghost before = pass_through(start, data, k as nat, strict);
        match size_field(fields, k, entries, map, source, Ghost(before)) {
            Ok(()) => {},
            Err(error) => {
                proof {
                    lemma_apply_entries_keeps(before, data, k as int, before.entries.len());
                    let failed = apply_entries(before, data, k as int, before.entries.len());
                    assert(pass_through(start, data, (k + 1) as nat, strict) == failed);
                    lemma_pass_ended_stays(start, data, (k + 1) as nat, total as nat, strict);
                }
                return Err(error);
            },
        }
        let ghost sized = apply_entries(before, data, k as int, before.entries.len());
        proof {
            lemma_apply_entries_keeps(before, data, k as int, before.entries.len());
            assert(sized == (Pass {
                fields: fields_view(fields@),
                entries: entries_view(entries@),
                ..before
            }));
        }
        let ghost after = read_field(sized, data, k as int, strict);
        assert(pass_through(start, data, (k + 1) as nat, strict) == after);
        assert(sized.fields[k as int] == fields@[k as int]@);
        match read_one(map, &fields[k], source, strict, Ghost(sized), Ghost(k as int)) {
            Ok(true) => {
                assert(after == (Pass {
                    position: source.position as int,
                    fields: fields_view(fields@),
                    entries: entries_view(entries@),
                    map: bytes_of(map@),
                    status: Status::Going,
                }));
            },
            Ok(false) => {
                proof {
                    assert(after == (Pass {
                        position: source.position as int,
                        fields: fields_view(fields@),
                        entries: entries_view(entries@),
                        map: bytes_of(map@),
                        status: Status::Stopped,
                    }));
                    lemma_pass_ended_stays(start, data, (k + 1) as nat, total as nat, strict);
                }
                return Ok(());
            },
            Err(error) => {
                proof {
                    lemma_pass_ended_stays(start, data, (k + 1) as nat, total as nat, strict);
                }
                return Err(error);
            },
        }
        k = k + 1;
    }
    Ok(())
}

} // verus!
