//! Multiply directives: a field declaration repeated in place.

use vstd::prelude::*;
use crate::errors::Error;
use crate::gram_parse::{fields_view, FieldView, Grammar, GrammerFields, PairView, pair_view};
use crate::text::{parse_i32, parsed_i32};

verus! {

/// Whether one of the two parts of the directive is the name of `field`.
pub open spec fn names_field(field: FieldView, directive: PairView) -> bool {
    field.name == directive.0 || field.name == directive.1
}

/// Whether `index` is the first field that the directive names.
pub open spec fn first_named(fields: Seq<FieldView>, directive: PairView, index: int) -> bool {
    &&& 0 <= index < fields.len()
    &&& names_field(fields[index], directive)
    &&& forall|j: int| 0 <= j < index ==> !names_field(#[trigger] fields[j], directive)
}

/// The count that the directive gives for `field`: the part that is not its
/// name, read as a signed decimal number.
pub open spec fn multiplier_of(field: FieldView, directive: PairView) -> Option<i32> {
    if field.name == directive.0 {
        parsed_i32(directive.1)
    } else {
        parsed_i32(directive.0)
    }
}

/// `fields` with the field at `index` standing `count` times in a row.
pub open spec fn repeated(fields: Seq<FieldView>, index: int, count: int) -> Seq<FieldView> {
    fields.take(index) + Seq::new(count as nat, |k: int| fields[index]) + fields.skip(index + 1)
}

/// `fields` after one multiply directive, or `None` where the directive is
/// invalid: it names no field, the field it names has an empty name, the
/// count is no number, or the count is zero. A count below one leaves the
/// fields as they are.
pub open spec fn multiplied(fields: Seq<FieldView>, directive: PairView) -> Option<
    Seq<FieldView>,
> {
    if exists|i: int| first_named(fields, directive, i) {
        let index = choose|i: int| first_named(fields, directive, i);
        match multiplier_of(fields[index], directive) {
            Some(count) => if fields[index].name.len() == 0 || count == 0 {
                None
            } else if count < 1 {
                Some(fields)
            } else {
                Some(repeated(fields, index, count as int))
            },
            None => None,
        }
    } else {
        None
    }
}

/// `fields` after the first `n` of the directives, each applied to what the
/// one before left; `None` where one of them is invalid.
pub open spec fn multiplied_through(
    fields: Seq<FieldView>,
    directives: Seq<PairView>,
    n: nat,
) -> Option<Seq<FieldView>>
    decreases n,
{
    if n == 0 {
        Some(fields)
    } else {
        match multiplied_through(fields, directives, (n - 1) as nat) {
            Some(before) => multiplied(before, directives[n - 1]),
            None => None,
        }
    }
}

/// What a list of multiply directives says, in order.
pub open spec fn pairs_view(directives: Seq<(String, String)>) -> Seq<PairView> {
    Seq::new(directives.len(), |i: int| pair_view(directives[i]))
}

/// Whether the list of multiply directives configures none: it is empty, or
/// its first tuple is the placeholder of two empty strings.
pub open spec fn no_multiply(directives: Seq<PairView>) -> bool {
    directives.len() == 0 || (directives[0].0.len() == 0 && directives[0].1.len() == 0)
}

/// At most one index is the first that a directive names.
pub proof fn lemma_first_named_unique(
    fields: Seq<FieldView>,
    directive: PairView,
    i: int,
    j: int,
)
    requires
        first_named(fields, directive, i),
        first_named(fields, directive, j),
    ensures
        i == j,
{
    if i < j {
        assert(!names_field(fields[i], directive));
    } else if j < i {
        assert(!names_field(fields[j], directive));
    }
}

/// Multiplying a field by `count` puts `count` identical declarations in a
/// row where the one declaration stood, and leaves the declarations before
/// and after it as they were, in order.
pub proof fn lemma_multiply_yields_copies(
    fields: Seq<FieldView>,
    directive: PairView,
    index: int,
    count: i32,
)
    requires
        first_named(fields, directive, index),
        fields[index].name.len() > 0,
        multiplier_of(fields[index], directive) == Some(count),
        count >= 1,
    ensures
        multiplied(fields, directive) is Some,
        ({
            let after = multiplied(fields, directive)->0;
            &&& after.len() == fields.len() + count - 1
            &&& forall|k: int| 0 <= k < index ==> after[k] == fields[k]
            &&& forall|k: int| index <= k < index + count ==> after[k] == fields[index]
            &&& forall|k: int|
                index + count <= k < after.len() ==> after[k] == fields[k - count + 1]
        }),
{
    let chosen = choose|i: int| first_named(fields, directive, i);
    lemma_first_named_unique(fields, directive, index, chosen);
}

/// A count of one leaves the fields as they are.
pub proof fn lemma_multiply_by_one(fields: Seq<FieldView>, directive: PairView, index: int)
    requires
        first_named(fields, directive, index),
        fields[index].name.len() > 0,
        multiplier_of(fields[index], directive) == Some(1i32),
    ensures
        multiplied(fields, directive) == Some(fields),
{
    let chosen = choose|i: int| first_named(fields, directive, i);
    lemma_first_named_unique(fields, directive, index, chosen);
    assert(repeated(fields, index, 1) =~= fields);
}

/// Once a directive is invalid, so is every longer run of directives.
pub proof fn lemma_multiplied_through_fails(
    fields: Seq<FieldView>,
    directives: Seq<PairView>,
    k: nat,
    n: nat,
)
    requires
        k <= n,
        multiplied_through(fields, directives, k) is None,
    ensures
        multiplied_through(fields, directives, n) is None,
    decreases n,
{
    if k < n {
        lemma_multiplied_through_fails(fields, directives, k, (n - 1) as nat);
    }
}

/// What the multiply directives make of `fields`: the fields themselves
/// where none is configured, else the fields after all of them, or `None`
/// where one is invalid.
pub open spec fn resolved_multipliers(fields: Seq<FieldView>, directives: Seq<PairView>) -> Option<
    Seq<FieldView>,
> {
    if no_multiply(directives) {
        Some(fields)
    } else {
        multiplied_through(fields, directives, directives.len())
    }
}

/// What a multiply directive asks for.
#[derive(Debug)]
pub struct FieldMultiply {
    /// The name of the field that is multiplied.
    pub field_name: String,
    /// The index of that field among the fields of the grammar.
    pub field_index: usize,
    /// How many times the field stands in the end.
    pub multiplier: i32,
}

impl FieldMultiply {
    /// A request that names no field, with a count of zero.
    pub fn new() -> (r: FieldMultiply)
        ensures
            r.field_name@.len() == 0,
            r.field_index == 0,
            r.multiplier == 0,
    {
        FieldMultiply { field_name: String::new(), field_index: 0, multiplier: 0 }
    }

    /// What the directive of the parts `a` and `b` asks for over `fields`:
    /// the first field that one part names, and the count that the other
    /// part writes. A directive that names no field, or whose count is no
    /// number, is refused.
    pub fn resolve(fields: &Vec<GrammerFields>, a: &String, b: &String) -> (r: Result<
        FieldMultiply,
        Error,
    >)
        ensures
            match r {
                Ok(request) => {
                    &&& first_named(fields_view(fields@), (a@, b@), request.field_index as int)
                    &&& request.field_name@ == fields@[request.field_index as int].name@
                    &&& multiplier_of(fields@[request.field_index as int]@, (a@, b@)) == Some(
                        request.multiplier,
                    )
                },
                Err(error) => {
                    &&& error == Error::InvalidDirective
                    &&& forall|i: int| #[trigger]
                        first_named(fields_view(fields@), (a@, b@), i) ==> multiplier_of(
                            fields@[i]@,
                            (a@, b@),
                        ) is None
                },
            },
    {
        let mut field_multiply = FieldMultiply::new();
        let index: usize = match find_named(fields, a, b) {
            Some(i) => i,
            None => {
                return Err(Error::InvalidDirective);
            },
        };
        field_multiply.field_name = fields[index].name.clone();
        field_multiply.field_index = index;
        let count_text: &String = if fields[index].name == *a {
            b
        } else {
            a
        };
        match parse_i32(count_text.as_str()) {
            Some(count) => {
                field_multiply.multiplier = count;
            },
            None => {
                assert forall|i: int| #[trigger]
                    first_named(fields_view(fields@), (a@, b@), i) implies multiplier_of(
                    fields@[i]@,
                    (a@, b@),
                ) is None by {
                    lemma_first_named_unique(fields_view(fields@), (a@, b@), i, index as int);
                }
                return Err(Error::InvalidDirective);
            },
        }
        Ok(field_multiply)
    }
}

/// Whether `after` is what the directives left of `fields` when they stopped
/// at one that is invalid: the fields as the directives before that one left
/// them.
pub open spec fn stopped_at_invalid(
    fields: Seq<FieldView>,
    directives: Seq<PairView>,
    after: Seq<FieldView>,
) -> bool {
    exists|k: nat|
        k < directives.len() && #[trigger] multiplied_through(fields, directives, k) == Some(after)
            && multiplied(after, directives[k as int]) is None
}

/// The index of the first field whose name is `a` or `b`.
fn find_named(fields: &Vec<GrammerFields>, a: &String, b: &String) -> (r: Option<usize>)
    ensures
        match r {
            Some(i) => first_named(fields_view(fields@), (a@, b@), i as int),
            None => forall|i: int| !first_named(fields_view(fields@), (a@, b@), i),
        },
{
    let mut i: usize = 0;
    while i < fields.len()
        invariant
            i <= fields.len(),
            forall|j: int|
                0 <= j < i ==> !names_field(#[trigger] fields_view(fields@)[j], (a@, b@)),
        decreases fields.len() - i,
    {
        if fields[i].name == *a || fields[i].name == *b {
            return Some(i);
        }
        i = i + 1;
    }
    None
}

/// Puts `extra` more copies of the field at `index` before it.
fn insert_copies(fields: &mut Vec<GrammerFields>, index: usize, extra: u32)
    requires
        index < old(fields)@.len(),
    ensures
        fields_view(final(fields)@) == repeated(fields_view(old(fields)@), index as int, extra + 1),
{
    let mut done: u32 = 0;
    assert(fields_view(fields@) =~= repeated(fields_view(old(fields)@), index as int, 1));
    while done < extra
        invariant
            done <= extra,
            index < old(fields)@.len(),
            index < fields@.len(),
            fields_view(fields@) == repeated(fields_view(old(fields)@), index as int, done + 1),
        decreases extra - done,
    {
        let copy = fields[index].duplicate();
        let ghost before = fields@;
        fields.insert(index, copy);
        proof {
            let first = fields_view(old(fields)@);
            assert(fields_view(fields@) =~= fields_view(before).insert(index as int, copy@));
            assert(fields_view(before)[index as int] == first[index as int]);
            assert(fields_view(before).insert(index as int, copy@) =~= repeated(
                first,
                index as int,
                done + 2,
            ));
        }
        done = done + 1;
    }
}

impl Grammar {
    /// Applies one multiply directive of the parts `a` and `b`: the first
    /// field that one part names is repeated as often as the other part
    /// says. An invalid directive leaves the fields as they were.
    pub fn multiply_field(&mut self, a: &String, b: &String) -> (r: Result<(), Error>)
        ensures
            final(self).metadata == old(self).metadata,
            match multiplied(old(self).field_views(), (a@, b@)) {
                Some(after) => r is Ok && final(self).field_views() == after,
                None => r == Err::<(), Error>(Error::InvalidDirective) && final(self).fields
                    == old(self).fields,
            },
    {
        let ghost fields = self.field_views();
        let ghost directive = (a@, b@);
        let field_multiply = match FieldMultiply::resolve(&self.fields, a, b) {
            Ok(field_multiply) => field_multiply,
            Err(error) => {
                return Err(error);
            },
        };
        proof {
            let chosen = choose|i: int| first_named(fields, directive, i);
            lemma_first_named_unique(fields, directive, field_multiply.field_index as int, chosen);
        }
        if field_multiply.field_name.as_str().is_empty() || field_multiply.multiplier == 0 {
            return Err(Error::InvalidDirective);
        }
        if field_multiply.multiplier > 1 {
            insert_copies(
                &mut self.fields,
                field_multiply.field_index,
                (field_multiply.multiplier - 1) as u32,
            );
        }
        Ok(())
    }
    /// Applies every multiply directive in order, each to the fields that
    /// the one before left. At the first invalid directive it stops, and the
    /// fields stay as the directives before it left them.
    pub fn multiply_fields(&mut self) -> (r: Result<(), Error>)
        ensures
            final(self).metadata == old(self).metadata,
            ({
                let directives = pairs_view(old(self).metadata.multiply_fields@);
                match multiplied_through(old(self).field_views(), directives, directives.len()) {
                    Some(after) => r is Ok && final(self).field_views() == after,
                    None => r == Err::<(), Error>(Error::InvalidDirective) && stopped_at_invalid(
                        old(self).field_views(),
                        directives,
                        final(self).field_views(),
                    ),
                }
            }),
    {
        let ghost directives = pairs_view(self.metadata.multiply_fields@);
        let ghost start = self.field_views();
        let total: usize = self.metadata.multiply_fields.len();
        let mut k: usize = 0;
        while k < total
            invariant
                k <= total,
                total == directives.len(),
                start == old(self).field_views(),
                self.metadata == old(self).metadata,
                directives == pairs_view(self.metadata.multiply_fields@),
                multiplied_through(start, directives, k as nat) == Some(self.field_views()),
            decreases total - k,
        {
            let a: String = self.metadata.multiply_fields[k].0.clone();
            let b: String = self.metadata.multiply_fields[k].1.clone();
            assert(directives[k as int] == (a@, b@));
            match self.multiply_field(&a, &b) {
                Ok(()) => {},
                Err(e) => {
                    proof {
                        assert(multiplied_through(start, directives, k as nat) == Some(
                            self.field_views(),
                        ));
                        assert(multiplied(self.field_views(), directives[k as int]) is None);
                        assert(multiplied_through(start, directives, (k + 1) as nat) is None);
                        lemma_multiplied_through_fails(
                            start,
                            directives,
                            (k + 1) as nat,
                            total as nat,
                        );
                    }
                    return Err(e);
                },
            }
            k = k + 1;
        }
        Ok(())
    }

    /// Resolves the multiply directives, unless none is configured.
    pub fn post_parse_toml(&mut self) -> (r: Result<&mut Self, Error>)
        ensures
            ({
                let directives = pairs_view(old(self).metadata.multiply_fields@);
                match r {
                    Ok(grammar) => {
                        &&& resolved_multipliers(old(self).field_views(), directives) == Some(
                            grammar.field_views(),
                        )
                        &&& grammar.metadata == old(self).metadata
                        &&& *final(grammar) == *final(self)
                    },
                    Err(e) => {
                        &&& e == Error::InvalidDirective
                        &&& resolved_multipliers(old(self).field_views(), directives) is None
                        &&& stopped_at_invalid(
                            old(self).field_views(),
                            directives,
                            final(self).field_views(),
                        )
                        &&& final(self).metadata == old(self).metadata
                    },
                }
            }),
    {
        let none_configured: bool = self.metadata.multiply_fields.len() == 0 || (
        self.metadata.multiply_fields[0].0.as_str().is_empty()
            && self.metadata.multiply_fields[0].1.as_str().is_empty());
        if !none_configured {
            self.multiply_fields()?;
        }
        Ok(self)
    }
}

} // verus!
