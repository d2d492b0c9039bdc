//! Variable-size entries: how the size of a field is computed from the bytes
//! of another field.

use vstd::prelude::*;
use crate::errors::Error;

verus! {

/// The byte order in which the bytes of a source field are read.
#[derive(Clone, Copy, Debug, PartialEq, Eq, Structural)]
pub enum ConvertEndianess {
    BigEndian,
    LittleEndian,
}

/// How the size of a variable field is found.
#[derive(Clone, Copy, Debug, PartialEq, Eq, Structural)]
pub enum VariableOptions {
    /// By arithmetic on the value of a source field.
    NoOptions,
    /// By looking for the end of a run of zero bytes.
    NullChar,
}

/// On which side of the operator the value of the source field stands.
#[derive(Clone, Copy, Debug, PartialEq, Eq, Structural)]
pub enum VariableSizeArithmeticOrder {
    /// Source value, operator, adjustment.
    Forwards,
    /// Adjustment, operator, source value.
    Backwards,
    /// No arithmetic: the source value is the size.
    Unset,
}

/// The four operators of size arithmetic.
#[derive(Clone, Copy, Debug, PartialEq, Eq, Structural)]
pub enum ArithmeticOperators {
    Addition,
    Subtraction,
    Multiplication,
    Division,
}

/// `256` to the power `n`.
pub open spec fn pow256(n: nat) -> nat
    decreases n,
{
    if n == 0 {
        1
    } else {
        256 * pow256((n - 1) as nat)
    }
}

/// The number that `bytes` write, most significant byte first.
pub open spec fn unsigned_be(bytes: Seq<u8>) -> nat
    decreases bytes.len(),
{
    if bytes.len() == 0 {
        0
    } else {
        unsigned_be(bytes.drop_last()) * 256 + bytes.last() as nat
    }
}

/// `bytes` with the most significant byte first.
pub open spec fn big_endian_order(bytes: Seq<u8>, endianess: ConvertEndianess) -> Seq<u8> {
    match endianess {
        ConvertEndianess::BigEndian => bytes,
        ConvertEndianess::LittleEndian => bytes.reverse(),
    }
}

/// The unsigned number that `bytes` write in the given byte order.
pub open spec fn unsigned_value(bytes: Seq<u8>, endianess: ConvertEndianess) -> nat {
    unsigned_be(big_endian_order(bytes, endianess))
}

/// The signed (two's complement) number that `bytes` write in the given byte
/// order, in the width of `bytes`.
pub open spec fn signed_value(bytes: Seq<u8>, endianess: ConvertEndianess) -> int {
    let unsigned = unsigned_value(bytes, endianess);
    let full = pow256(bytes.len());
    if 2 * unsigned >= full {
        unsigned - full
    } else {
        unsigned as int
    }
}

/// `value` brought into the range of `usize` as a cast does: the value itself
/// where it fits, else the value modulo `usize::MAX + 1`.
pub open spec fn wrapped(value: int) -> usize {
    if 0 <= value <= usize::MAX {
        value as usize
    } else {
        (value % (usize::MAX as int + 1)) as usize
    }
}

/// Whether a source field of `len` bytes can be decoded.
pub open spec fn supported_width(len: nat) -> bool {
    len == 2 || len == 4 || len == 8 || len == 16
}

/// The size that the bytes of a source field stand for: their signed value,
/// wrapped into `usize`.
pub open spec fn decoded_size(bytes: Seq<u8>, endianess: ConvertEndianess) -> usize {
    wrapped(signed_value(bytes, endianess))
}

/// `left`, `operator`, `right` over the unsigned integers of `usize`: `None`
/// where the result is negative or too large, or the divisor is zero.
pub open spec fn applied(operator: ArithmeticOperators, left: usize, right: usize) -> Option<
    usize,
> {
    match operator {
        ArithmeticOperators::Addition => if left + right <= usize::MAX {
            Some((left + right) as usize)
        } else {
            None
        },
        ArithmeticOperators::Subtraction => if left >= right {
            Some((left - right) as usize)
        } else {
            None
        },
        ArithmeticOperators::Multiplication => if left * right <= usize::MAX {
            Some((left * right) as usize)
        } else {
            None
        },
        ArithmeticOperators::Division => if right != 0 {
            Some(left / right)
        } else {
            None
        },
    }
}

/// The size of a variable field whose source value is `source`: the source
/// value itself, or the source value and the adjustment under the operator, in
/// the order given.
pub open spec fn variable_size(
    order: VariableSizeArithmeticOrder,
    operator: ArithmeticOperators,
    source: usize,
    adjustment: usize,
) -> Option<usize> {
    match order {
        VariableSizeArithmeticOrder::Unset => Some(source),
        VariableSizeArithmeticOrder::Forwards => applied(operator, source, adjustment),
        VariableSizeArithmeticOrder::Backwards => applied(operator, adjustment, source),
    }
}

/// How the size of one variable field is computed.
#[derive(Debug)]
pub struct VariableSizeEntry {
    /// The name of the field whose value gives the size.
    pub source_field_name: String,
    /// The index of the source field among the fields of the grammar.
    pub source_field_index: usize,
    /// The value read from the bytes of the source field.
    pub source_field_real_size: usize,
    /// The display format of the source field.
    pub source_field_display: String,
    /// The name of the variable field.
    pub var_field_name: String,
    /// How the size is found.
    pub variable_options: VariableOptions,
    /// The side of the operator on which the source value stands.
    pub arithemitc_order: VariableSizeArithmeticOrder,
    /// The operator.
    pub arithmetic_operator: ArithmeticOperators,
    /// The number on the other side of the operator.
    pub adjustment: usize,
}

/// What a variable-size entry says.
pub struct EntryView {
    pub source_field_name: Seq<char>,
    pub source_field_index: usize,
    pub source_field_real_size: usize,
    pub source_field_display: Seq<char>,
    pub var_field_name: Seq<char>,
    pub variable_options: VariableOptions,
    pub arithemitc_order: VariableSizeArithmeticOrder,
    pub arithmetic_operator: ArithmeticOperators,
    pub adjustment: usize,
}

impl View for VariableSizeEntry {
    type V = EntryView;

    open spec fn view(&self) -> EntryView {
        EntryView {
            source_field_name: self.source_field_name@,
            source_field_index: self.source_field_index,
            source_field_real_size: self.source_field_real_size,
            source_field_display: self.source_field_display@,
            var_field_name: self.var_field_name@,
            variable_options: self.variable_options,
            arithemitc_order: self.arithemitc_order,
            arithmetic_operator: self.arithmetic_operator,
            adjustment: self.adjustment,
        }
    }
}

impl EntryView {
    /// The size that this entry gives to its variable field.
    pub open spec fn size(self) -> Option<usize> {
        variable_size(
            self.arithemitc_order,
            self.arithmetic_operator,
            self.source_field_real_size,
            self.adjustment,
        )
    }
}

/// The numbers of `n` bytes lie below `256` to the power `n`.
pub proof fn lemma_unsigned_be_bound(bytes: Seq<u8>)
    ensures
        unsigned_be(bytes) < pow256(bytes.len()),
    decreases bytes.len(),
{
    if bytes.len() > 0 {
        lemma_unsigned_be_bound(bytes.drop_last());
    }
}

/// The number that two bytes write, and the number that four bytes write,
/// most significant byte first.
pub proof fn lemma_unsigned_be_bytes(bytes: Seq<u8>)
    ensures
        bytes.len() == 2 ==> unsigned_be(bytes) == 0x100 * bytes[0] + bytes[1],
        bytes.len() == 4 ==> unsigned_be(bytes) == 0x100_0000 * bytes[0] + 0x1_0000 * bytes[1]
            + 0x100 * bytes[2] + bytes[3],
{
    reveal_with_fuel(unsigned_be, 5);
    if bytes.len() == 2 {
        assert(bytes.drop_last().drop_last().len() == 0);
    }
    if bytes.len() == 4 {
        let three = bytes.drop_last();
        let two = three.drop_last();
        let one = two.drop_last();
        assert(one.drop_last().len() == 0);
        assert(one.last() == bytes[0] && two.last() == bytes[1] && three.last() == bytes[2]);
    }
}

/// The powers of `256` for the widths that can be decoded.
pub proof fn lemma_pow256_values()
    ensures
        pow256(0) == 1,
        pow256(1) == 0x100,
        pow256(2) == 0x1_0000,
        pow256(4) == 0x1_0000_0000,
        pow256(8) == 0x1_0000_0000_0000_0000,
        pow256(15) == 0x1_0000_0000_0000_0000_0000_0000_0000_00,
        pow256(16) == 0x1_0000_0000_0000_0000_0000_0000_0000_0000,
{
    reveal_with_fuel(pow256, 17);
}

/// `256` to the power `n` grows with `n`.
pub proof fn lemma_pow256_monotonic(a: nat, b: nat)
    requires
        a <= b,
    ensures
        pow256(a) <= pow256(b),
        pow256(a) >= 1,
    decreases b,
{
    if a < b {
        lemma_pow256_monotonic(a, (b - 1) as nat);
    } else if a > 0 {
        lemma_pow256_monotonic((a - 1) as nat, (b - 1) as nat);
    }
}

/// The unsigned number that `bytes` write in the given byte order.
fn read_unsigned(bytes: &[u8], endianess: ConvertEndianess) -> (r: u128)
    requires
        bytes@.len() <= 16,
    ensures
        r == unsigned_value(bytes@, endianess),
{
    let n: usize = bytes.len();
    let ghost ordered = big_endian_order(bytes@, endianess);
    let mut acc: u128 = 0;
    let mut i: usize = 0;
    while i < n
        invariant
            n == bytes@.len(),
            n <= 16,
            i <= n,
            ordered == big_endian_order(bytes@, endianess),
            ordered.len() == n,
            acc == unsigned_be(ordered.take(i as int)),
        decreases n - i,
    {
        let byte: u8 = match endianess {
            ConvertEndianess::BigEndian => bytes[i],
            ConvertEndianess::LittleEndian => bytes[n - 1 - i],
        };
        proof {
            assert(ordered.take(i + 1).drop_last() == ordered.take(i as int));
            assert(ordered.take(i + 1).last() == byte);
            lemma_unsigned_be_bound(ordered.take(i as int));
            lemma_pow256_monotonic(i as nat, 15);
            lemma_pow256_values();
        }
        acc = acc * 256 + byte as u128;
        i = i + 1;
    }
    proof {
        assert(ordered.take(n as int) == ordered);
    }
    acc
}

/// A signed number of `width` bytes whose unsigned reading is `unsigned`,
/// wrapped into `usize`, is that reading plus what extends the sign, modulo
/// `usize::MAX + 1`.
pub proof fn lemma_wrapped_signed(unsigned: nat, width: nat)
    requires
        supported_width(width),
        unsigned < pow256(width),
    ensures
        ({
            let modulus = usize::MAX as int + 1;
            let full = pow256(width) as int;
            let signed = if 2 * unsigned >= full {
                unsigned - full
            } else {
                unsigned as int
            };
            &&& full < modulus && 2 * unsigned >= full ==> wrapped(signed) == modulus - full
                + unsigned
            &&& full < modulus && 2 * unsigned < full ==> wrapped(signed) == unsigned
            &&& full >= modulus ==> wrapped(signed) == unsigned as int % modulus
        }),
{
    lemma_pow256_values();
    let modulus = usize::MAX as int + 1;
    let full = pow256(width) as int;
    assert(usize::MAX == 0xFFFF_FFFF || usize::MAX == 0xFFFF_FFFF_FFFF_FFFF);
    let signed = if 2 * unsigned >= full {
        unsigned - full
    } else {
        unsigned as int
    };
    if full < modulus {
        if 2 * unsigned >= full {
            vstd::arithmetic::div_mod::lemma_mod_add_multiples_vanish(signed, modulus);
            vstd::arithmetic::div_mod::lemma_small_mod((modulus + signed) as nat, modulus as nat);
        } else {
            vstd::arithmetic::div_mod::lemma_small_mod(unsigned, modulus as nat);
        }
    } else {
        if 2 * unsigned >= full {
            let factor: int = if modulus == 0x1_0000_0000 {
                if width == 4 {
                    1
                } else if width == 8 {
                    0x1_0000_0000
                } else {
                    0x1_0000_0000_0000_0000_0000_0000
                }
            } else {
                if width == 8 {
                    1
                } else {
                    0x1_0000_0000_0000_0000
                }
            };
            assert(full == modulus * factor);
            vstd::arithmetic::div_mod::lemma_mod_multiples_vanish(
                -factor,
                unsigned as int,
                modulus,
            );
            assert(modulus * (-factor) + unsigned == signed) by (nonlinear_arith)
                requires
                    signed == unsigned - full,
                    full == modulus * factor,
            ;
        }
    }
}

/// The size that `bytes` stand for, where their length is supported.
pub fn decode_size(bytes: &[u8], endianess: ConvertEndianess) -> (r: Option<usize>)
    ensures
        r == if supported_width(bytes@.len()) {
            Some(decoded_size(bytes@, endianess))
        } else {
            None
        },
{
    let n: usize = bytes.len();
    if n != 2 && n != 4 && n != 8 && n != 16 {
        return None;
    }
    let unsigned: u128 = read_unsigned(bytes, endianess);
    let modulus: u128 = usize::MAX as u128 + 1;
    proof {
        lemma_unsigned_be_bound(big_endian_order(bytes@, endianess));
        lemma_pow256_values();
        lemma_wrapped_signed(unsigned as nat, n as nat);
        assert(usize::MAX == 0xFFFF_FFFF || usize::MAX == 0xFFFF_FFFF_FFFF_FFFF);
    }
    let value: u128 = if n == 2 {
        if unsigned >= 0x8000 {
            modulus - 0x1_0000 + unsigned
        } else {
            unsigned
        }
    } else if n == 4 && modulus > 0x1_0000_0000 {
        if unsigned >= 0x8000_0000 {
            modulus - 0x1_0000_0000 + unsigned
        } else {
            unsigned
        }
    } else {
        unsigned % modulus
    };
    Some(value as usize)
}

impl VariableSizeEntry {
    /// An entry that names no field and asks for no arithmetic.
    pub fn new() -> (r: VariableSizeEntry)
        ensures
            r@ == (EntryView {
                source_field_name: Seq::<char>::empty(),
                source_field_index: 0,
                source_field_real_size: 0,
                source_field_display: Seq::<char>::empty(),
                var_field_name: Seq::<char>::empty(),
                variable_options: VariableOptions::NoOptions,
                arithemitc_order: VariableSizeArithmeticOrder::Unset,
                arithmetic_operator: ArithmeticOperators::Addition,
                adjustment: 0,
            }),
    {
        VariableSizeEntry {
            source_field_name: String::new(),
            source_field_index: 0,
            source_field_real_size: 0,
            source_field_display: String::new(),
            var_field_name: String::new(),
            variable_options: VariableOptions::NoOptions,
            arithemitc_order: VariableSizeArithmeticOrder::Unset,
            arithmetic_operator: ArithmeticOperators::Addition,
            adjustment: 0,
        }
    }

    /// Reads the bytes of the source field as a signed integer of their width
    /// (2, 4, 8 or 16 bytes) in the given byte order and keeps its value,
    /// wrapped into `usize`, as the source value. Bytes of another length
    /// are refused and leave the entry as it was.
    pub fn convert_field_size(&mut self, raw_field_data: &[u8], endianess: ConvertEndianess) -> (r:
        Result<(), Error>)
        ensures
            r is Ok <==> supported_width(raw_field_data@.len()),
            r is Err ==> r == Err::<(), Error>(Error::UnsupportedSize) && *final(self) == *old(
                self,
            ),
            r is Ok ==> final(self)@ == (EntryView {
                source_field_real_size: decoded_size(raw_field_data@, endianess),
                ..old(self)@
            }),
    {
        match decode_size(raw_field_data, endianess) {
            Some(value) => {
                self.source_field_real_size = value;
                Ok(())
            },
            None => Err(Error::UnsupportedSize),
        }
    }

    /// The size of the variable field, or `None` where the arithmetic leaves
    /// the range of `usize` or divides by zero.
    pub fn checked_variable_size(&self) -> (r: Option<usize>)
        ensures
            r == self@.size(),
    {
        let source: usize = self.source_field_real_size;
        let adjustment: usize = self.adjustment;
        let (left, right) = match self.arithemitc_order {
            VariableSizeArithmeticOrder::Unset => {
                return Some(source);
            },
            VariableSizeArithmeticOrder::Forwards => (source, adjustment),
            VariableSizeArithmeticOrder::Backwards => (adjustment, source),
        };
        match self.arithmetic_operator {
            ArithmeticOperators::Addition => left.checked_add(right),
            ArithmeticOperators::Subtraction => left.checked_sub(right),
            ArithmeticOperators::Multiplication => left.checked_mul(right),
            ArithmeticOperators::Division => left.checked_div(right),
        }
    }

    /// The size of the variable field: the source value, or the source value
    /// and the adjustment under the operator, in the order of the directive.
    /// The arithmetic has to stay within `usize` and may not divide by zero;
    /// `checked_variable_size` tells whether it does.
    pub fn calculate_variable_size(&mut self) -> (r: usize)
        requires
            old(self)@.size() is Some,
        ensures
            Some(r) == old(self)@.size(),
            *final(self) == *old(self),
    {
        match self.checked_variable_size() {
            Some(size) => size,
            None => 0,
        }
    }
}

} // verus!
