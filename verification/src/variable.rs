//! Variable-size directives turned into entries: which field gives the size
//! of which, and by what arithmetic.

use vstd::prelude::*;
use crate::errors::Error;
use crate::gram_parse::{fields_view, FieldView, Grammar, GrammerFields, QuadView, quad_view};
use crate::sizes::{
    ArithmeticOperators, EntryView, VariableOptions, VariableSizeArithmeticOrder,
    VariableSizeEntry,
};
use crate::text::{lowercase, parse_usize, parsed_usize, to_lowercase, trim, trimmed};

verus! {

/// The operator that `text` writes: one of `+`, `-`, `*`, `/`, alone.
pub open spec fn operator_of(text: Seq<char>) -> Option<ArithmeticOperators> {
    if text == seq!['+'] {
        Some(ArithmeticOperators::Addition)
    } else if text == seq!['-'] {
        Some(ArithmeticOperators::Subtraction)
    } else if text == seq!['*'] {
        Some(ArithmeticOperators::Multiplication)
    } else if text == seq!['/'] {
        Some(ArithmeticOperators::Division)
    } else {
        None
    }
}

/// The word that, in the operator's place, asks for a null-terminated field.
pub open spec fn null_word() -> Seq<char> {
    seq!['n', 'u', 'l', 'l']
}

/// Whether the operator part of a directive asks for a null-terminated field:
/// trimmed and in lowercase it is the word `null`.
pub open spec fn asks_null(operator_part: Seq<char>) -> bool {
    lowercase(trimmed(operator_part)) == null_word()
}

/// The entry that names no field and asks for no arithmetic.
pub open spec fn blank_entry() -> EntryView {
    EntryView {
        source_field_name: Seq::<char>::empty(),
        source_field_index: 0,
        source_field_real_size: 0,
        source_field_display: Seq::<char>::empty(),
        var_field_name: Seq::<char>::empty(),
        variable_options: VariableOptions::NoOptions,
        arithemitc_order: VariableSizeArithmeticOrder::Unset,
        arithmetic_operator: ArithmeticOperators::Addition,
        adjustment: 0,
    }
}

/// `entry` with `field`, which stands at `index`, as its source.
pub open spec fn with_source(entry: EntryView, field: FieldView, index: int) -> EntryView {
    EntryView {
        source_field_name: field.name,
        source_field_display: field.display_format,
        source_field_index: index as usize,
        ..entry
    }
}

/// `entry` with the arithmetic that an operator text and an operand text
/// write, in the given order; `None` where the operator is none of the four
/// or the operand is no unsigned number.
pub open spec fn with_arithmetic(
    entry: EntryView,
    operator_text: Seq<char>,
    operand_text: Seq<char>,
    order: VariableSizeArithmeticOrder,
) -> Option<EntryView> {
    match (operator_of(trimmed(operator_text)), parsed_usize(trimmed(operand_text))) {
        (Some(operator), Some(adjustment)) => Some(
            EntryView {
                arithmetic_operator: operator,
                adjustment: adjustment,
                arithemitc_order: order,
                ..entry
            },
        ),
        _ => None,
    }
}

/// What one field adds to the entry of a directive. A field named by the
/// first part becomes the source, with the second and third part as operator
/// and operand where both are given; else a field named by the third part
/// becomes the source, with the first and second part as operand and
/// operator where both are given; else a field named by the fourth part
/// becomes the target. `None` where the arithmetic is asked for and invalid.
pub open spec fn scan_step(
    entry: EntryView,
    field: FieldView,
    index: int,
    directive: QuadView,
    null_marker: bool,
) -> Option<EntryView> {
    if field.name == directive.0 {
        let sourced = with_source(entry, field, index);
        if directive.1.len() > 0 && directive.2.len() > 0 {
            with_arithmetic(
                sourced,
                directive.1,
                directive.2,
                VariableSizeArithmeticOrder::Forwards,
            )
        } else {
            Some(sourced)
        }
    } else if field.name == directive.2 {
        let sourced = with_source(entry, field, index);
        if directive.0.len() > 0 && directive.1.len() > 0 {
            with_arithmetic(
                sourced,
                directive.1,
                directive.0,
                VariableSizeArithmeticOrder::Backwards,
            )
        } else {
            Some(sourced)
        }
    } else if field.name == directive.3 {
        Some(
            EntryView {
                var_field_name: field.name,
                variable_options: if null_marker {
                    VariableOptions::NullChar
                } else {
                    entry.variable_options
                },
                ..entry
            },
        )
    } else {
        Some(entry)
    }
}

/// The entry of a directive after the first `n` fields, each adding to what
/// the fields before it left; `None` where one of them met invalid
/// arithmetic.
pub open spec fn scanned(
    fields: Seq<FieldView>,
    directive: QuadView,
    null_marker: bool,
    n: nat,
) -> Option<EntryView>
    decreases n,
{
    if n == 0 {
        Some(blank_entry())
    } else {
        match scanned(fields, directive, null_marker, (n - 1) as nat) {
            Some(entry) => scan_step(entry, fields[n - 1], n - 1, directive, null_marker),
            None => None,
        }
    }
}

/// The entry that a directive resolves to over `fields`; `None` where it is
/// invalid: its arithmetic is, no field is its target, or no field is its
/// source and it does not ask for a null-terminated field.
pub open spec fn resolved_entry(
    fields: Seq<FieldView>,
    directive: QuadView,
    null_marker: bool,
) -> Option<EntryView> {
    match scanned(fields, directive, null_marker, fields.len()) {
        Some(entry) => if entry.var_field_name.len() == 0 {
            None
        } else if entry.source_field_name.len() == 0 && entry.variable_options
            == VariableOptions::NoOptions {
            None
        } else {
            Some(entry)
        },
        None => None,
    }
}

/// A list of variable-size directives, as characters.
pub type QuadsView = Seq<QuadView>;

/// What a list of variable-size directives says, in order.
pub open spec fn quads_view(directives: Seq<(String, String, String, String)>) -> Seq<QuadView> {
    Seq::new(directives.len(), |i: int| quad_view(directives[i]))
}

/// What a list of entries says, in order.
pub open spec fn entries_view(entries: Seq<VariableSizeEntry>) -> Seq<EntryView> {
    Seq::new(entries.len(), |i: int| entries[i]@)
}

/// Whether the list of variable-size directives configures none: it is empty,
/// or its first tuple is the placeholder of four empty strings.
pub open spec fn no_variable_size(directives: Seq<QuadView>) -> bool {
    directives.len() == 0 || (directives[0].0.len() == 0 && directives[0].1.len() == 0
        && directives[0].2.len() == 0 && directives[0].3.len() == 0)
}

/// The entry of the directive at `index`.
pub open spec fn entry_at(fields: Seq<FieldView>, directives: Seq<QuadView>, index: int) -> Option<
    EntryView,
> {
    resolved_entry(fields, directives[index], asks_null(directives[index].1))
}

/// The entries of all the directives, one each, in order: none where no
/// directive is configured; `None` where one of them is invalid.
pub open spec fn resolved_entries(fields: Seq<FieldView>, directives: Seq<QuadView>) -> Option<
    Seq<EntryView>,
> {
    if no_variable_size(directives) {
        Some(Seq::<EntryView>::empty())
    } else if forall|i: int|
        0 <= i < directives.len() ==> (#[trigger] entry_at(fields, directives, i)) is Some {
        Some(Seq::new(directives.len(), |i: int| entry_at(fields, directives, i)->0))
    } else {
        None
    }
}

/// Once a field has met invalid arithmetic, no later field mends it.
pub proof fn lemma_scanned_fails(
    fields: Seq<FieldView>,
    directive: QuadView,
    null_marker: bool,
    k: nat,
    n: nat,
)
    requires
        k <= n,
        scanned(fields, directive, null_marker, k) is None,
    ensures
        scanned(fields, directive, null_marker, n) is None,
    decreases n,
{
    if k < n {
        lemma_scanned_fails(fields, directive, null_marker, k, (n - 1) as nat);
    }
}

/// Whether the directive names `field` as a source: by its first or its third
/// part.
pub open spec fn names_source(field: FieldView, directive: QuadView) -> bool {
    field.name == directive.0 || field.name == directive.2
}

/// Whether the directive names `field` as its target, and not as a source.
pub open spec fn names_target(field: FieldView, directive: QuadView) -> bool {
    !names_source(field, directive) && field.name == directive.3
}

/// The index of the last of the first `n` fields that the directive names as
/// a source, or `-1` where it names none of them.
pub open spec fn last_source(fields: Seq<FieldView>, directive: QuadView, n: nat) -> int
    decreases n,
{
    if n == 0 {
        -1
    } else if names_source(fields[n - 1], directive) {
        n - 1
    } else {
        last_source(fields, directive, (n - 1) as nat)
    }
}

/// Whether the directive names one of the first `n` fields as its target.
pub open spec fn has_target(fields: Seq<FieldView>, directive: QuadView, n: nat) -> bool
    decreases n,
{
    n > 0 && (names_target(fields[n - 1], directive) || has_target(
        fields,
        directive,
        (n - 1) as nat,
    ))
}

/// The last source is a field that the directive names as a source, and no
/// later field is one.
pub proof fn lemma_last_source(fields: Seq<FieldView>, directive: QuadView, n: nat)
    requires
        n <= fields.len(),
    ensures
        -1 <= last_source(fields, directive, n) < n,
        last_source(fields, directive, n) >= 0 ==> names_source(
            fields[last_source(fields, directive, n)],
            directive,
        ),
        forall|i: int|
            last_source(fields, directive, n) < i < n ==> !names_source(
                #[trigger] fields[i],
                directive,
            ),
    decreases n,
{
    if n > 0 && !names_source(fields[n - 1], directive) {
        lemma_last_source(fields, directive, (n - 1) as nat);
    }
}

/// There is a target among the first `n` fields exactly where one of them is
/// named by the fourth part of the directive and by neither its first nor
/// its third.
pub proof fn lemma_has_target(fields: Seq<FieldView>, directive: QuadView, n: nat)
    requires
        n <= fields.len(),
    ensures
        has_target(fields, directive, n) <==> exists|i: int|
            0 <= i < n && names_target(#[trigger] fields[i], directive),
    decreases n,
{
    if n > 0 {
        lemma_has_target(fields, directive, (n - 1) as nat);
        if has_target(fields, directive, n) {
            if names_target(fields[n - 1], directive) {
            } else {
                let i = choose|i: int| 0 <= i < n - 1 && names_target(#[trigger] fields[i], directive);
                assert(0 <= i < n && names_target(fields[i], directive));
            }
        }
        if exists|i: int| 0 <= i < n && names_target(#[trigger] fields[i], directive) {
            let i = choose|i: int| 0 <= i < n && names_target(#[trigger] fields[i], directive);
            if i < n - 1 {
                assert(0 <= i < n - 1 && names_target(fields[i], directive));
            }
        }
    }
}

/// What the scan of the first `n` fields leaves in an entry, where it met no
/// invalid arithmetic: the last field named as a source is the source, with
/// its name, its display format and its index; the target is the fourth part
/// of the directive where a field has that name and is no source; and the
/// field is null-terminated where there is a target and the directive asks
/// for it.
pub proof fn lemma_scanned_names(
    fields: Seq<FieldView>,
    directive: QuadView,
    null_marker: bool,
    n: nat,
)
    requires
        n <= fields.len(),
        scanned(fields, directive, null_marker, n) is Some,
    ensures
        ({
            let entry = scanned(fields, directive, null_marker, n)->0;
            let source = last_source(fields, directive, n);
            &&& entry.source_field_real_size == 0
            &&& entry.var_field_name == if has_target(fields, directive, n) {
                directive.3
            } else {
                Seq::<char>::empty()
            }
            &&& entry.variable_options == if has_target(fields, directive, n) && null_marker {
                VariableOptions::NullChar
            } else {
                VariableOptions::NoOptions
            }
            &&& source >= 0 ==> entry.source_field_name == fields[source].name
                && entry.source_field_display == fields[source].display_format
                && entry.source_field_index == source as usize
            &&& source < 0 ==> entry.source_field_name == Seq::<char>::empty()
                && entry.source_field_display == Seq::<char>::empty()
                && entry.source_field_index == 0
                && entry.arithemitc_order == VariableSizeArithmeticOrder::Unset
                && entry.arithmetic_operator == ArithmeticOperators::Addition && entry.adjustment
                == 0
        }),
    decreases n,
{
    if n > 0 {
        lemma_scanned_names(fields, directive, null_marker, (n - 1) as nat);
    }
}

/// The arithmetic of a directive whose source stands first: where no field
/// bears the third part of the directive as its name, unless it bears the
/// first too, and operator and operand are given and valid, the scan meets
/// no invalid arithmetic, and once a field is the source, the source value
/// stands on the left of the operator and the operand on its right.
pub proof fn lemma_scanned_forwards(
    fields: Seq<FieldView>,
    directive: QuadView,
    null_marker: bool,
    n: nat,
)
    requires
        n <= fields.len(),
        forall|i: int|
            0 <= i < n && (#[trigger] fields[i]).name == directive.2 ==> fields[i].name
                == directive.0,
        directive.1.len() > 0,
        directive.2.len() > 0,
        operator_of(trimmed(directive.1)) is Some,
        parsed_usize(trimmed(directive.2)) is Some,
    ensures
        scanned(fields, directive, null_marker, n) is Some,
        last_source(fields, directive, n) >= 0 ==> ({
            let entry = scanned(fields, directive, null_marker, n)->0;
            &&& entry.arithemitc_order == VariableSizeArithmeticOrder::Forwards
            &&& Some(entry.arithmetic_operator) == operator_of(trimmed(directive.1))
            &&& Some(entry.adjustment) == parsed_usize(trimmed(directive.2))
        }),
    decreases n,
{
    if n > 0 {
        lemma_scanned_forwards(fields, directive, null_marker, (n - 1) as nat);
        assert(fields[n - 1].name == directive.2 ==> fields[n - 1].name == directive.0);
    }
}

/// The arithmetic of a directive whose source stands last: where no field
/// bears the first part of the directive as its name, and operand and
/// operator are given and valid, the scan meets no invalid arithmetic, and
/// once a field is the source, the operand stands on the left of the
/// operator and the source value on its right.
pub proof fn lemma_scanned_backwards(
    fields: Seq<FieldView>,
    directive: QuadView,
    null_marker: bool,
    n: nat,
)
    requires
        n <= fields.len(),
        forall|i: int| 0 <= i < n ==> (#[trigger] fields[i]).name != directive.0,
        directive.0.len() > 0,
        directive.1.len() > 0,
        operator_of(trimmed(directive.1)) is Some,
        parsed_usize(trimmed(directive.0)) is Some,
    ensures
        scanned(fields, directive, null_marker, n) is Some,
        last_source(fields, directive, n) >= 0 ==> ({
            let entry = scanned(fields, directive, null_marker, n)->0;
            &&& entry.arithemitc_order == VariableSizeArithmeticOrder::Backwards
            &&& Some(entry.arithmetic_operator) == operator_of(trimmed(directive.1))
            &&& Some(entry.adjustment) == parsed_usize(trimmed(directive.0))
        }),
    decreases n,
{
    if n > 0 {
        lemma_scanned_backwards(fields, directive, null_marker, (n - 1) as nat);
        assert(fields[n - 1].name != directive.0);
    }
}

/// A directive without a source: where no field bears its first or its
/// third part as its name, the scan meets no invalid arithmetic, and the
/// directive resolves exactly where a field bears its fourth part as its
/// name, that name is not empty, and the directive asks for a null-terminated
/// field.
pub proof fn lemma_resolved_without_source(
    fields: Seq<FieldView>,
    directive: QuadView,
    null_marker: bool,
)
    requires
        forall|i: int| 0 <= i < fields.len() ==> !names_source(#[trigger] fields[i], directive),
    ensures
        resolved_entry(fields, directive, null_marker) is Some <==> has_target(
            fields,
            directive,
            fields.len(),
        ) && directive.3.len() > 0 && null_marker,
        resolved_entry(fields, directive, null_marker) is Some ==> resolved_entry(
            fields,
            directive,
            null_marker,
        )->0 == (EntryView {
            var_field_name: directive.3,
            variable_options: VariableOptions::NullChar,
            ..blank_entry()
        }),
{
    lemma_scanned_without_source(fields, directive, null_marker, fields.len());
    lemma_scanned_names(fields, directive, null_marker, fields.len());
    lemma_last_source(fields, directive, fields.len());
    let source = last_source(fields, directive, fields.len());
    if source >= 0 {
        assert(names_source(fields[source], directive));
    }
}

/// Fields that the directive does not name as a source ask for no
/// arithmetic.
pub proof fn lemma_scanned_without_source(
    fields: Seq<FieldView>,
    directive: QuadView,
    null_marker: bool,
    n: nat,
)
    requires
        n <= fields.len(),
        forall|i: int| 0 <= i < n ==> !names_source(#[trigger] fields[i], directive),
    ensures
        scanned(fields, directive, null_marker, n) is Some,
    decreases n,
{
    if n > 0 {
        lemma_scanned_without_source(fields, directive, null_marker, (n - 1) as nat);
        assert(!names_source(fields[n - 1], directive));
    }
}

/// The operator that `arithmetic_op_str` writes.
pub fn get_var_arithmetic_operator(arithmetic_op_str: &str) -> (r: Result<
    ArithmeticOperators,
    Error,
>)
    ensures
        match operator_of(arithmetic_op_str@) {
            Some(operator) => r == Ok::<ArithmeticOperators, Error>(operator),
            None => r == Err::<ArithmeticOperators, Error>(Error::InvalidDirective),
        },
{
    if arithmetic_op_str.unicode_len() != 1 {
        return Err(Error::InvalidDirective);
    }
    let c: char = arithmetic_op_str.get_char(0);
    assert(arithmetic_op_str@ =~= seq![c]);
    if c == '+' {
        Ok(ArithmeticOperators::Addition)
    } else if c == '-' {
        Ok(ArithmeticOperators::Subtraction)
    } else if c == '*' {
        Ok(ArithmeticOperators::Multiplication)
    } else if c == '/' {
        Ok(ArithmeticOperators::Division)
    } else {
        assert(seq!['+'][0] == '+' && seq!['-'][0] == '-' && seq!['*'][0] == '*' && seq!['/'][0]
            == '/');
        Err(Error::InvalidDirective)
    }
}

/// Sets the arithmetic of `entry` from an operator text and an operand text.
fn set_arithmetic(
    entry: &mut VariableSizeEntry,
    operator_text: &String,
    operand_text: &String,
    order: VariableSizeArithmeticOrder,
) -> (r: Result<(), Error>)
    ensures
        match with_arithmetic(old(entry)@, operator_text@, operand_text@, order) {
            Some(after) => r is Ok && final(entry)@ == after,
            None => r == Err::<(), Error>(Error::InvalidDirective),
        },
{
    let operator = get_var_arithmetic_operator(trim(operator_text.as_str()))?;
    let adjustment: usize = match parse_usize(trim(operand_text.as_str())) {
        Some(adjustment) => adjustment,
        None => {
            return Err(Error::InvalidDirective);
        },
    };
    entry.arithmetic_operator = operator;
    entry.adjustment = adjustment;
    entry.arithemitc_order = order;
    Ok(())
}

/// Whether the operator part of a directive, trimmed and in lowercase, is the
/// word `null`.
pub fn is_null_word(lowered: &str) -> (r: bool)
    ensures
        r == (lowered@ == null_word()),
{
    if lowered.unicode_len() != 4 {
        return false;
    }
    let r: bool = lowered.get_char(0) == 'n' && lowered.get_char(1) == 'u' && lowered.get_char(2)
        == 'l' && lowered.get_char(3) == 'l';
    proof {
        if r {
            assert(lowered@ =~= null_word());
        }
    }
    r
}

/// Resolves one directive over `fields`. `null_marker` says whether the
/// directive asks for a null-terminated field.
pub fn resolve_directive(
    fields: &Vec<GrammerFields>,
    directive: &(String, String, String, String),
    null_marker: bool,
) -> (r: Result<VariableSizeEntry, Error>)
    ensures
        match resolved_entry(fields_view(fields@), quad_view(*directive), null_marker) {
            Some(entry) => r is Ok && r->Ok_0@ == entry,
            None => r is Err && r->Err_0 == Error::InvalidDirective,
        },
{
    let ghost views = fields_view(fields@);
    let ghost quad = quad_view(*directive);
    let mut entry = VariableSizeEntry::new();
    let mut index: usize = 0;
    while index < fields.len()
        invariant
            index <= fields.len(),
            views == fields_view(fields@),
            quad == quad_view(*directive),
            scanned(views, quad, null_marker, index as nat) == Some(entry@),
        decreases fields.len() - index,
    {
        let field = &fields[index];
        assert(views[index as int] == field@);
        if field.name == directive.0 {
            entry.source_field_name = field.name.clone();
            entry.source_field_display = field.display_format.clone();
            entry.source_field_index = index;
            if !directive.1.as_str().is_empty() && !directive.2.as_str().is_empty() {
                let set = set_arithmetic(
                    &mut entry,
                    &directive.1,
                    &directive.2,
                    VariableSizeArithmeticOrder::Forwards,
                );
                if set.is_err() {
                    proof {
                        lemma_scanned_fails(
                            views,
                            quad,
                            null_marker,
                            (index + 1) as nat,
                            views.len(),
                        );
                    }
                    return Err(Error::InvalidDirective);
                }
            }
        } else if field.name == directive.2 {
            entry.source_field_name = field.name.clone();
            entry.source_field_display = field.display_format.clone();
            entry.source_field_index = index;
            if !directive.0.as_str().is_empty() && !directive.1.as_str().is_empty() {
                let set = set_arithmetic(
                    &mut entry,
                    &directive.1,
                    &directive.0,
                    VariableSizeArithmeticOrder::Backwards,
                );
                if set.is_err() {
                    proof {
                        lemma_scanned_fails(
                            views,
                            quad,
                            null_marker,
                            (index + 1) as nat,
                            views.len(),
                        );
                    }
                    return Err(Error::InvalidDirective);
                }
            }
        } else if field.name == directive.3 {
            entry.var_field_name = field.name.clone();
            if null_marker {
                entry.variable_options = VariableOptions::NullChar;
            }
        }
        index = index + 1;
    }
    if entry.var_field_name.as_str().is_empty() {
        return Err(Error::InvalidDirective);
    }
    if entry.source_field_name.as_str().is_empty() {
        match entry.variable_options {
            VariableOptions::NullChar => {},
            VariableOptions::NoOptions => {
                return Err(Error::InvalidDirective);
            },
        }
    }
    Ok(entry)
}

impl Grammar {
    /// What the variable-size directives of this grammar say, in order.
    pub open spec fn variable_directives(&self) -> Seq<QuadView> {
        quads_view(self.metadata.variable_size_fields@)
    }

    /// Resolves every variable-size directive into an entry and hands the
    /// entries out through `var_size_entry_vec`, one for each directive, in
    /// order; none where no directive is configured. An invalid directive
    /// is refused and leaves `var_size_entry_vec` as it was.
    pub fn create_var_size_entry_vector(
        &mut self,
        var_size_entry_vec: &mut Vec<VariableSizeEntry>,
    ) -> (r: Result<(), Error>)
        ensures
            *final(self) == *old(self),
            match resolved_entries(old(self).field_views(), old(self).variable_directives()) {
                Some(entries) => r is Ok && entries_view(final(var_size_entry_vec)@) == entries,
                None => r == Err::<(), Error>(Error::InvalidDirective)
                    && *final(var_size_entry_vec) == *old(var_size_entry_vec),
            },
    {
        let ghost views = self.field_views();
        let ghost directives = self.variable_directives();
        let total: usize = self.metadata.variable_size_fields.len();
        if total == 0 || (self.metadata.variable_size_fields[0].0.as_str().is_empty()
            && self.metadata.variable_size_fields[0].1.as_str().is_empty()
            && self.metadata.variable_size_fields[0].2.as_str().is_empty()
            && self.metadata.variable_size_fields[0].3.as_str().is_empty()) {
            *var_size_entry_vec = Vec::new();
            assert(entries_view(var_size_entry_vec@) =~= Seq::<EntryView>::empty());
            return Ok(());
        }
        let mut variable_size_vector: Vec<VariableSizeEntry> = Vec::new();
        let mut k: usize = 0;
        while k < total
            invariant
                k <= total,
                total == directives.len(),
                *self == *old(self),
                *var_size_entry_vec == *old(var_size_entry_vec),
                views == self.field_views(),
                directives == self.variable_directives(),
                !no_variable_size(directives),
                variable_size_vector@.len() == k,
                forall|i: int|
                    0 <= i < k ==> entry_at(views, directives, i) == Some(
                        #[trigger] variable_size_vector@[i]@,
                    ),
            decreases total - k,
        {
            let directive = &self.metadata.variable_size_fields[k];
            assert(directives[k as int] == quad_view(*directive));
            let lowered: String = to_lowercase(trim(directive.1.as_str()));
            let null_marker: bool = is_null_word(lowered.as_str());
            match resolve_directive(&self.fields, directive, null_marker) {
                Ok(entry) => {
                    variable_size_vector.push(entry);
                },
                Err(_) => {
                    assert(entry_at(views, directives, k as int) is None);
                    return Err(Error::InvalidDirective);
                },
            }
            k = k + 1;
        }
        proof {
            assert forall|i: int| 0 <= i < directives.len() implies (#[trigger] entry_at(
                views,
                directives,
                i,
            )) is Some by {
                assert(entry_at(views, directives, i) == Some(variable_size_vector@[i]@));
            }
            assert(entries_view(variable_size_vector@) =~= resolved_entries(views, directives)->0);
        }
        *var_size_entry_vec = variable_size_vector;
        Ok(())
    }
}

} // verus!
