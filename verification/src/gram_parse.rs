//! The grammar model: metadata, field declarations, and what is derived from
//! them (the total size, multiplied fields, variable-size entries).

use vstd::prelude::*;

pub use crate::multiply::FieldMultiply;
pub use crate::sizes::{
    ArithmeticOperators, ConvertEndianess, VariableOptions, VariableSizeArithmeticOrder,
    VariableSizeEntry,
};
pub use crate::variable::get_var_arithmetic_operator;

verus! {

/// One field declaration of a grammar.
#[derive(Clone, Debug)]
pub struct GrammerFields {
    /// The name of the field.
    pub name: String,
    /// How large the field is in bytes.
    pub size: usize,
    /// The data type of the field, for display only.
    pub data_type: String,
    /// The display format of the field.
    pub display_format: String,
    /// The description of the field, for display only.
    pub description: String,
}

/// What a field declaration says.
pub struct FieldView {
    pub name: Seq<char>,
    pub size: usize,
    pub data_type: Seq<char>,
    pub display_format: Seq<char>,
    pub description: Seq<char>,
}

impl View for GrammerFields {
    type V = FieldView;

    open spec fn view(&self) -> FieldView {
        FieldView {
            name: self.name@,
            size: self.size,
            data_type: self.data_type@,
            display_format: self.display_format@,
            description: self.description@,
        }
    }
}

/// What a list of field declarations says, in order.
pub open spec fn fields_view(fields: Seq<GrammerFields>) -> Seq<FieldView> {
    Seq::new(fields.len(), |i: int| fields[i]@)
}

/// The metadata of a grammar: its name and its directives.
#[derive(Clone, Debug)]
pub struct GrammerMetadata {
    /// The name of the data structure.
    pub name: String,
    /// The variable-size directives: source, operator, operand, target. The
    /// tuple of four empty strings in first place means that there is none.
    pub variable_size_fields: Vec<(String, String, String, String)>,
    /// The multiply directives: a field name and a count, in either order.
    /// The tuple of two empty strings in first place means that there is none.
    pub multiply_fields: Vec<(String, String)>,
}

/// A grammar: metadata and the fields in the order of their bytes.
#[derive(Clone, Debug)]
pub struct Grammar {
    pub metadata: GrammerMetadata,
    pub fields: Vec<GrammerFields>,
}

/// The sum of the sizes of `fields`.
pub open spec fn total_size(fields: Seq<FieldView>) -> nat
    decreases fields.len(),
{
    if fields.len() == 0 {
        0
    } else {
        total_size(fields.drop_last()) + fields.last().size as nat
    }
}

/// A directive of two parts, as characters.
pub type PairView = (Seq<char>, Seq<char>);

/// A directive of four parts, as characters.
pub type QuadView = (Seq<char>, Seq<char>, Seq<char>, Seq<char>);

/// What a multiply directive says.
pub open spec fn pair_view(d: (String, String)) -> PairView {
    (d.0@, d.1@)
}

/// What a variable-size directive says.
pub open spec fn quad_view(d: (String, String, String, String)) -> QuadView {
    (d.0@, d.1@, d.2@, d.3@)
}

impl GrammerFields {
    /// A copy of this declaration that says the same.
    pub fn duplicate(&self) -> (r: GrammerFields)
        ensures
            r@ == self@,
    {
        GrammerFields {
            name: self.name.clone(),
            size: self.size,
            data_type: self.data_type.clone(),
            display_format: self.display_format.clone(),
            description: self.description.clone(),
        }
    }
}

impl GrammerMetadata {
    /// Metadata with an empty name and no directive.
    pub fn new() -> (r: GrammerMetadata)
        ensures
            r.name@ == Seq::<char>::empty(),
            r.variable_size_fields@ == Seq::<(String, String, String, String)>::empty(),
            r.multiply_fields@ == Seq::<(String, String)>::empty(),
    {
        GrammerMetadata {
            name: String::new(),
            variable_size_fields: Vec::new(),
            multiply_fields: Vec::new(),
        }
    }
}

impl Grammar {
    /// What the fields of this grammar say, in order.
    pub open spec fn field_views(&self) -> Seq<FieldView> {
        fields_view(self.fields@)
    }

    /// The grammar without a name, a directive or a field.
    pub fn new() -> (r: Grammar)
        ensures
            r.metadata.name@ == Seq::<char>::empty(),
            r.metadata.variable_size_fields@ == Seq::<(String, String, String, String)>::empty(),
            r.metadata.multiply_fields@ == Seq::<(String, String)>::empty(),
            r.fields@ == Seq::<GrammerFields>::empty(),
    {
        Grammar { metadata: GrammerMetadata::new(), fields: Vec::new() }
    }

    /// The total size in bytes of all the fields, where it fits in `usize`.
    pub fn checked_struct_size(&self) -> (r: Option<usize>)
        ensures
            r == if total_size(self.field_views()) <= usize::MAX {
                Some(total_size(self.field_views()) as usize)
            } else {
                None
            },
    {
        let mut struct_size: usize = 0;
        let mut i: usize = 0;
        while i < self.fields.len()
            invariant
                i <= self.fields.len(),
                struct_size == total_size(self.field_views().take(i as int)),
            decreases self.fields.len() - i,
        {
            proof {
                let v = self.field_views();
                assert(v.take(i + 1).drop_last() == v.take(i as int));
                assert(v.take(i + 1).last() == v[i as int]);
                lemma_total_size_prefix(v, i + 1);
            }
            match struct_size.checked_add(self.fields[i].size) {
                Some(sum) => {
                    struct_size = sum;
                },
                None => {
                    return None;
                },
            }
            i = i + 1;
        }
        proof {
            assert(self.field_views().take(i as int) == self.field_views());
        }
        Some(struct_size)
    }

    /// The total size in bytes of all the fields.
    pub fn get_struct_size(&self) -> (r: usize)
        requires
            total_size(self.field_views()) <= usize::MAX,
        ensures
            r == total_size(self.field_views()),
    {
        match self.checked_struct_size() {
            Some(size) => size,
            None => 0,
        }
    }
}

/// The sizes of the first `n` fields sum to no more than those of all.
pub proof fn lemma_total_size_prefix(fields: Seq<FieldView>, n: int)
    requires
        0 <= n <= fields.len(),
    ensures
        total_size(fields.take(n)) <= total_size(fields),
    decreases fields.len() - n,
{
    if n < fields.len() {
        lemma_total_size_prefix(fields, n + 1);
        assert(fields.take(n + 1).drop_last() == fields.take(n));
    } else {
        assert(fields.take(n) == fields);
    }
}

} // verus!
