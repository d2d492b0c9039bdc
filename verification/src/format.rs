//! Raw bytes rendered in the display formats.

use vstd::prelude::*;
use vstd::slice::slice_subrange;
use vstd::string::StringExecFns;
use crate::errors::Error;
use crate::hex_text::{hex_upper, upper_hex};
use crate::text::{chars_of, push_char, string_of};

verus! {

/// Bytes shown as hex digits, last byte first.
pub const HEXLE_TYPE: &'static str = "hexle";

/// Bytes shown as the characters whose codes they are.
pub const ASCII_TYPE: &'static str = "ascii";

/// Four bytes shown as an IPv4 address, first byte first.
pub const IPV4BE_TYPE: &'static str = "ipv4be";

/// Four bytes shown as an IPv4 address, last byte first.
pub const IPV4LE_TYPE: &'static str = "ipv4le";

/// The display format under which bytes are shown as UTF-16 text whose code
/// units have their low byte first.
pub const UTF16LE_TYPE: &'static str = "utf16be";

/// The display format under which bytes are shown as UTF-16 text whose code
/// units have their high byte first.
pub const UTF16BE_TYPE: &'static str = "utf16le";

/// Bytes shown as x86 instructions.
pub const X86_TYPE: &'static str = "x86_32";

/// The display formats, as a grammar names them by its tags.
#[derive(Clone, Copy, Debug, PartialEq, Eq, Structural)]
pub enum DisplayFormat {
    /// Hex digits, last byte first.
    HexLE,
    /// The characters whose codes the bytes are.
    Ascii,
    /// An IPv4 address, first byte first.
    Ipv4BE,
    /// An IPv4 address, last byte first.
    Ipv4LE,
    /// UTF-16 text whose code units have their high byte first.
    Utf16BE,
    /// UTF-16 text whose code units have their low byte first.
    Utf16LE,
    /// x86 instructions.
    X86,
    /// Any other tag: the hex digits of the raw bytes.
    Unknown,
}

/// The display format that a tag names.
pub open spec fn format_of(tag: Seq<char>) -> DisplayFormat {
    if tag == HEXLE_TYPE@ {
        DisplayFormat::HexLE
    } else if tag == ASCII_TYPE@ {
        DisplayFormat::Ascii
    } else if tag == IPV4BE_TYPE@ {
        DisplayFormat::Ipv4BE
    } else if tag == IPV4LE_TYPE@ {
        DisplayFormat::Ipv4LE
    } else if tag == UTF16BE_TYPE@ {
        DisplayFormat::Utf16BE
    } else if tag == UTF16LE_TYPE@ {
        DisplayFormat::Utf16LE
    } else if tag == X86_TYPE@ {
        DisplayFormat::X86
    } else {
        DisplayFormat::Unknown
    }
}

/// Whether `a` and `b` hold the same characters.
fn same_text(a: &str, b: &str) -> (r: bool)
    ensures
        r == (a@ == b@),
{
    a.to_owned() == b.to_owned()
}

/// The display format that `tag` names.
pub fn display_format(tag: &str) -> (r: DisplayFormat)
    ensures
        r == format_of(tag@),
{
    if same_text(tag, HEXLE_TYPE) {
        DisplayFormat::HexLE
    } else if same_text(tag, ASCII_TYPE) {
        DisplayFormat::Ascii
    } else if same_text(tag, IPV4BE_TYPE) {
        DisplayFormat::Ipv4BE
    } else if same_text(tag, IPV4LE_TYPE) {
        DisplayFormat::Ipv4LE
    } else if same_text(tag, UTF16BE_TYPE) {
        DisplayFormat::Utf16BE
    } else if same_text(tag, UTF16LE_TYPE) {
        DisplayFormat::Utf16LE
    } else if same_text(tag, X86_TYPE) {
        DisplayFormat::X86
    } else {
        DisplayFormat::Unknown
    }
}

/// The character of a decimal digit.
pub open spec fn digit_char(digit: nat) -> char {
    if digit == 0 {
        '0'
    } else if digit == 1 {
        '1'
    } else if digit == 2 {
        '2'
    } else if digit == 3 {
        '3'
    } else if digit == 4 {
        '4'
    } else if digit == 5 {
        '5'
    } else if digit == 6 {
        '6'
    } else if digit == 7 {
        '7'
    } else if digit == 8 {
        '8'
    } else {
        '9'
    }
}

/// `n` in decimal digits, without leading zeros.
pub open spec fn decimal(n: nat) -> Seq<char>
    decreases n,
{
    if n < 10 {
        seq![digit_char(n)]
    } else {
        decimal(n / 10).push(digit_char(n % 10))
    }
}

/// Four bytes as an IPv4 address: each in decimal, with dots between them.
pub open spec fn dotted(bytes: Seq<u8>) -> Seq<char> {
    decimal(bytes[0] as nat) + seq!['.'] + decimal(bytes[1] as nat) + seq!['.'] + decimal(
        bytes[2] as nat,
    ) + seq!['.'] + decimal(bytes[3] as nat)
}

/// The character of a decimal digit.
fn digit_of(digit: u8) -> (r: char)
    requires
        digit < 10,
    ensures
        r == digit_char(digit as nat),
{
    if digit == 0 {
        '0'
    } else if digit == 1 {
        '1'
    } else if digit == 2 {
        '2'
    } else if digit == 3 {
        '3'
    } else if digit == 4 {
        '4'
    } else if digit == 5 {
        '5'
    } else if digit == 6 {
        '6'
    } else if digit == 7 {
        '7'
    } else if digit == 8 {
        '8'
    } else {
        '9'
    }
}

/// Appends `n` in decimal to `text`.
fn push_decimal(text: &mut String, n: u8)
    ensures
        final(text)@ == old(text)@ + decimal(n as nat),
{
    let ghost before = text@;
    if n >= 100 {
        push_char(text, digit_of(n / 100));
        push_char(text, digit_of((n / 10) % 10));
        push_char(text, digit_of(n % 10));
        proof {
            let tens = (n / 10) as nat;
            assert(decimal(tens / 10) == seq![digit_char(tens / 10)]);
            assert(decimal(tens) == decimal(tens / 10).push(digit_char(tens % 10)));
            assert(decimal(n as nat) == decimal(tens).push(digit_char(n as nat % 10)));
            assert(text@ =~= before + decimal(n as nat));
        }
    } else if n >= 10 {
        push_char(text, digit_of(n / 10));
        push_char(text, digit_of(n % 10));
        proof {
            let tens = (n / 10) as nat;
            assert(decimal(tens) == seq![digit_char(tens)]);
            assert(decimal(n as nat) == decimal(tens).push(digit_char(n as nat % 10)));
            assert(text@ =~= before + decimal(n as nat));
        }
    } else {
        push_char(text, digit_of(n));
        assert(text@ =~= before + decimal(n as nat));
    }
}

/// Four bytes as the text of an IPv4 address. Bytes of another number are
/// refused.
pub fn ipv4_string(ipv4_bytes: &[u8]) -> (r: Result<String, Error>)
    ensures
        r is Ok <==> ipv4_bytes@.len() == 4,
        r is Ok ==> r->Ok_0@ == dotted(ipv4_bytes@),
        r is Err ==> r->Err_0 == Error::InvalidFieldData,
{
    if ipv4_bytes.len() != 4 {
        return Err(Error::InvalidFieldData);
    }
    let mut text: String = String::new();
    push_decimal(&mut text, ipv4_bytes[0]);
    push_char(&mut text, '.');
    push_decimal(&mut text, ipv4_bytes[1]);
    push_char(&mut text, '.');
    push_decimal(&mut text, ipv4_bytes[2]);
    push_char(&mut text, '.');
    push_decimal(&mut text, ipv4_bytes[3]);
    assert(text@ =~= dotted(ipv4_bytes@));
    Ok(text)
}

/// A wide C string of 16-bit code units: a `widestring::U16CString`.
#[verifier::external_body]
pub struct WideString {
    inner: widestring::U16CString,
}

/// The code units that a wide C string holds before its terminator.
pub uninterp spec fn wide_units(wide: WideString) -> Seq<u16>;

/// The text that UTF-16 code units decode to, with the replacement character
/// in place of what is ill-formed.
pub uninterp spec fn utf16_text(units: Seq<u16>) -> Seq<char>;

/// Whether `index` holds the first zero of `units`.
pub open spec fn is_first_nul(units: Seq<u16>, index: int) -> bool {
    &&& 0 <= index < units.len()
    &&& units[index] == 0
    &&& forall|j: int| 0 <= j < index ==> units[j] != 0
}

/// `UCString::from_vec_with_nul`: the wide C string of the code units before
/// the first zero of `units`; none where `units` hold no zero.
#[verifier::external_body]
fn wide_from_vec_with_nul(units: Vec<u16>) -> (r: Option<WideString>)
    ensures
        match r {
            Some(wide) => exists|i: int|
                is_first_nul(units@, i) && wide_units(wide) == units@.take(i),
            None => forall|i: int| 0 <= i < units@.len() ==> units@[i] != 0,
        },
{
    match widestring::U16CString::from_vec_with_nul(units) {
        Ok(inner) => Some(WideString { inner }),
        Err(_) => None,
    }
}

/// `UCStr::to_string_lossy`: the text that the code units of `wide` decode
/// to.
#[verifier::external_body]
fn wide_to_string_lossy(wide: &WideString) -> (r: String)
    ensures
        r@ == utf16_text(wide_units(*wide)),
{
    wide.inner.to_string_lossy()
}

/// The 16-bit code units that `bytes` write, two bytes each in the given
/// byte order; a last odd byte is left out.
pub open spec fn code_units(bytes: Seq<u8>, little_endian: bool) -> Seq<u16> {
    Seq::new(
        bytes.len() / 2,
        |i: int|
            if little_endian {
                (bytes[2 * i] + 256 * bytes[2 * i + 1]) as u16
            } else {
                (256 * bytes[2 * i] + bytes[2 * i + 1]) as u16
            },
    )
}

/// The code units that `bytes` write.
fn read_code_units(bytes: &[u8], little_endian: bool) -> (r: Vec<u16>)
    ensures
        r@ == code_units(bytes@, little_endian),
{
    let count: usize = bytes.len() / 2;
    let mut units: Vec<u16> = Vec::new();
    let mut i: usize = 0;
    while i < count
        invariant
            i <= count,
            count == bytes@.len() / 2,
            2 * count <= bytes@.len() <= usize::MAX,
            units@ == code_units(bytes@, little_endian).take(i as int),
        decreases count - i,
    {
        let first: u16 = bytes[2 * i] as u16;
        let second: u16 = bytes[2 * i + 1] as u16;
        let unit: u16 = if little_endian {
            first + 256 * second
        } else {
            256 * first + second
        };
        units.push(unit);
        assert(units@ =~= code_units(bytes@, little_endian).take(i + 1));
        i = i + 1;
    }
    assert(units@ =~= code_units(bytes@, little_endian));
    units
}

/// Bytes as UTF-16 text that ends at the first code unit of zero, in the
/// given byte order. What is ill-formed in it becomes the replacement
/// character. Bytes without a code unit of zero are refused.
pub fn utf16_string(utf16_bytes: &[u8], little_endian: bool) -> (r: Result<String, Error>)
    ensures
        r is Ok <==> exists|i: int| is_first_nul(code_units(utf16_bytes@, little_endian), i),
        r is Ok ==> forall|i: int|
            is_first_nul(code_units(utf16_bytes@, little_endian), i) ==> r->Ok_0@ == utf16_text(
                code_units(utf16_bytes@, little_endian).take(i),
            ),
        r is Err ==> r->Err_0 == Error::InvalidFieldData,
{
    let units: Vec<u16> = read_code_units(utf16_bytes, little_endian);
    match wide_from_vec_with_nul(units) {
        Some(wide) => {
            let text: String = wide_to_string_lossy(&wide);
            proof {
                let found = choose|i: int|
                    is_first_nul(units@, i) && wide_units(wide) == units@.take(i);
                assert forall|i: int| is_first_nul(units@, i) implies i == found by {
                    if i < found {
                        assert(units@[i] != 0);
                    } else if found < i {
                        assert(units@[found] != 0);
                    }
                }
            }
            Ok(text)
        },
        None => Err(Error::InvalidFieldData),
    }
}

/// The text of the first x86 instruction of `code` as NASM writes it, with
/// `ip` as its address, and the number of bytes that it takes.
pub uninterp spec fn x86_instruction(bitness: u32, code: Seq<u8>, ip: u64) -> (Seq<char>, nat);

/// Decodes the first instruction of `code` with `iced_x86::Decoder` (made by
/// `with_ip`, read by `decode` and `position`) and writes it with
/// `iced_x86::NasmFormatter::format`: the text of the instruction, and the
/// one or more bytes of `code` that it takes.
#[verifier::external_body]
fn disassemble_first(bitness: u32, code: &[u8], ip: u64) -> (r: (String, usize))
    requires
        bitness == 16 || bitness == 32 || bitness == 64,
        code@.len() > 0,
    ensures
        r.0@ == x86_instruction(bitness, code@, ip).0,
        r.1 == x86_instruction(bitness, code@, ip).1,
        1 <= r.1 <= code@.len(),
{
    let mut decoder = iced_x86::Decoder::with_ip(bitness, code, ip, iced_x86::DecoderOptions::NONE);
    let instruction = decoder.decode();
    let mut text = String::new();
    iced_x86::Formatter::format(&mut iced_x86::NasmFormatter::new(), &instruction, &mut text);
    (text, decoder.position())
}

/// The instructions of `code` from `position` on, one on each line.
pub open spec fn listing(bitness: u32, code: Seq<u8>, position: nat) -> Seq<char>
    decreases code.len() - position,
{
    if position >= code.len() {
        Seq::<char>::empty()
    } else {
        let (text, taken) = x86_instruction(bitness, code.skip(position as int), position as u64);
        if 1 <= taken <= code.len() - position {
            text + seq!['\n'] + listing(bitness, code, position + taken)
        } else {
            Seq::<char>::empty()
        }
    }
}

/// The number of instructions of `code` from `position` on.
pub open spec fn listed(bitness: u32, code: Seq<u8>, position: nat) -> nat
    decreases code.len() - position,
{
    if position >= code.len() {
        0
    } else {
        let (text, taken) = x86_instruction(bitness, code.skip(position as int), position as u64);
        if 1 <= taken <= code.len() - position {
            1 + listed(bitness, code, position + taken)
        } else {
            0
        }
    }
}

/// There are no more instructions than bytes.
pub proof fn lemma_listed_bound(bitness: u32, code: Seq<u8>, position: nat)
    requires
        position <= code.len(),
    ensures
        listed(bitness, code, position) <= code.len() - position,
    decreases code.len() - position,
{
    if position < code.len() {
        let (text, taken) = x86_instruction(bitness, code.skip(position as int), position as u64);
        if 1 <= taken <= code.len() - position {
            lemma_listed_bound(bitness, code, position + taken);
        }
    }
}

/// The instructions of `machine_code`, one on each line in NASM syntax, and
/// their number.
pub fn disassemble(bitness: u32, machine_code: &[u8]) -> (r: (String, usize))
    requires
        bitness == 16 || bitness == 32 || bitness == 64,
    ensures
        r.0@ == listing(bitness, machine_code@, 0),
        r.1 == listed(bitness, machine_code@, 0),
{
    let total: usize = machine_code.len();
    let mut output: String = String::new();
    let mut line_count: usize = 0;
    let mut position: usize = 0;
    proof {
        assert(usize::MAX <= u64::MAX);
    }
    while position < total
        invariant
            position <= total,
            total == machine_code@.len(),
            bitness == 16 || bitness == 32 || bitness == 64,
            total <= u64::MAX,
            output@ + listing(bitness, machine_code@, position as nat) == listing(
                bitness,
                machine_code@,
                0,
            ),
            line_count + listed(bitness, machine_code@, position as nat) == listed(
                bitness,
                machine_code@,
                0,
            ),
        decreases total - position,
    {
        let rest: &[u8] = slice_subrange(machine_code, position, total);
        assert(rest@ =~= machine_code@.skip(position as int));
        let (text, taken) = disassemble_first(bitness, rest, position as u64);
        let ghost before = output@;
        proof {
            lemma_listed_bound(bitness, machine_code@, 0);
            lemma_listed_bound(bitness, machine_code@, (position + taken) as nat);
        }
        output.append(text.as_str());
        push_char(&mut output, '\n');
        proof {
            assert(output@ + listing(bitness, machine_code@, (position + taken) as nat) =~= before
                + listing(bitness, machine_code@, position as nat));
        }
        line_count = line_count + 1;
        position = position + taken;
    }
    proof {
        assert(output@ =~= listing(bitness, machine_code@, 0));
    }
    (output, line_count)
}

/// Disassembled machine code: its text and the number of its lines.
#[derive(Debug)]
pub struct DissassOutput {
    /// The instructions, one on each line.
    pub output: String,
    /// The number of instructions.
    pub line_count: u32,
}

impl DissassOutput {
    /// No text and no line.
    pub fn new() -> (r: DissassOutput)
        ensures
            r.output@.len() == 0,
            r.line_count == 0,
    {
        DissassOutput { output: String::new(), line_count: 0 }
    }

    /// Appends the instructions of `machine_code`, one on each line in NASM
    /// syntax, and counts them. The first instruction has the address zero.
    pub fn format_x86(&mut self, bitness: u32, machine_code: &[u8])
        requires
            bitness == 16 || bitness == 32 || bitness == 64,
            old(self).line_count + machine_code@.len() <= u32::MAX,
        ensures
            final(self).output@ == old(self).output@ + listing(bitness, machine_code@, 0),
            final(self).line_count == old(self).line_count + listed(bitness, machine_code@, 0),
    {
        let (text, lines) = disassemble(bitness, machine_code);
        proof {
            lemma_listed_bound(bitness, machine_code@, 0);
        }
        self.output.append(text.as_str());
        self.line_count = self.line_count + lines as u32;
    }
}

/// The raw bytes of a field as the tables show them: in uppercase
/// hexadecimal digits, cut after 25 digits with three dots.
pub open spec fn raw_text(bytes: Seq<u8>) -> Seq<char> {
    let digits = hex_upper(bytes);
    if digits.len() > 25 {
        digits.take(25) + seq!['.', '.', '.']
    } else {
        digits
    }
}

/// Each byte as the character whose code it is.
pub open spec fn latin(bytes: Seq<u8>) -> Seq<char> {
    Seq::new(bytes.len(), |i: int| bytes[i] as char)
}

/// Bytes as UTF-16 text up to the first code unit of zero, if there is one.
pub open spec fn utf16_shown(bytes: Seq<u8>, little_endian: bool) -> Option<Seq<char>> {
    let units = code_units(bytes, little_endian);
    if exists|i: int| is_first_nul(units, i) {
        Some(utf16_text(units.take(choose|i: int| is_first_nul(units, i))))
    } else {
        None
    }
}

/// Bytes as 16-bit x86 instructions, or a note where there are more than
/// five of them.
pub open spec fn x86_shown(bytes: Seq<u8>) -> Seq<char> {
    if listed(16, bytes, 0) > 5 {
        "See table above ;)"@
    } else {
        listing(16, bytes, 0)
    }
}

/// The bytes of a field in a display format; `None` where they do not fit
/// it. The unknown display format shows the digits of the raw bytes, last
/// byte first where `swap`.
pub open spec fn shown(format: DisplayFormat, bytes: Seq<u8>, swap: bool) -> Option<Seq<char>> {
    match format {
        DisplayFormat::HexLE => Some(hex_upper(bytes.reverse())),
        DisplayFormat::Ascii => Some(latin(bytes)),
        DisplayFormat::Ipv4BE => if bytes.len() == 4 {
            Some(dotted(bytes))
        } else {
            None
        },
        DisplayFormat::Ipv4LE => if bytes.len() == 4 {
            Some(dotted(bytes.reverse()))
        } else {
            None
        },
        DisplayFormat::Utf16BE => utf16_shown(bytes, false),
        DisplayFormat::Utf16LE => utf16_shown(bytes, true),
        DisplayFormat::X86 => Some(x86_shown(bytes)),
        DisplayFormat::Unknown => if swap {
            Some(hex_upper(bytes.reverse()))
        } else {
            Some(raw_text(bytes))
        },
    }
}

/// The bytes of a field in the display format that its tag names.
pub open spec fn formatted(display_format: Seq<char>, bytes: Seq<u8>, swap: bool) -> Option<
    Seq<char>,
> {
    shown(format_of(display_format), bytes, swap)
}

/// `bytes`, last byte first.
pub fn reversed(bytes: &[u8]) -> (r: Vec<u8>)
    ensures
        r@ == bytes@.reverse(),
{
    let mut turned: Vec<u8> = Vec::new();
    let mut i: usize = bytes.len();
    while i > 0
        invariant
            i <= bytes@.len(),
            turned@ == bytes@.reverse().take(bytes@.len() - i),
        decreases i,
    {
        i = i - 1;
        turned.push(bytes[i]);
        assert(turned@ =~= bytes@.reverse().take(bytes@.len() - i));
    }
    assert(turned@ =~= bytes@.reverse());
    turned
}

/// The raw bytes of a field as the tables show them.
pub fn raw_string(bytes: &[u8]) -> (r: String)
    ensures
        r@ == raw_text(bytes@),
{
    let digits: String = upper_hex(bytes);
    let chars: Vec<char> = chars_of(digits.as_str());
    if chars.len() > 25 {
        let mut cut: String = string_of(&chars, 0, 25);
        cut.append("...");
        proof {
            reveal_strlit("...");
            assert("..."@ =~= seq!['.', '.', '.']);
            assert(cut@ =~= raw_text(bytes@));
        }
        cut
    } else {
        digits
    }
}

/// Each byte as the character whose code it is.
pub fn latin_string(bytes: &[u8]) -> (r: String)
    ensures
        r@ == latin(bytes@),
{
    let mut text: String = String::new();
    let mut i: usize = 0;
    while i < bytes.len()
        invariant
            i <= bytes@.len(),
            text@ == latin(bytes@).take(i as int),
        decreases bytes@.len() - i,
    {
        push_char(&mut text, bytes[i] as char);
        assert(text@ =~= latin(bytes@).take(i + 1));
        i = i + 1;
    }
    assert(text@ =~= latin(bytes@));
    text
}

/// Bytes as UTF-16 text up to the first code unit of zero.
fn utf16_field(bytes: &[u8], little_endian: bool) -> (r: Result<String, Error>)
    ensures
        match utf16_shown(bytes@, little_endian) {
            Some(text) => r is Ok && r->Ok_0@ == text,
            None => r is Err && r->Err_0 == Error::InvalidFieldData,
        },
{
    utf16_string(bytes, little_endian)
}

/// The bytes of a field in a display format.
pub fn show(format: DisplayFormat, raw_field_data: &[u8], swap: bool) -> (r: Result<String, Error>)
    ensures
        match shown(format, raw_field_data@, swap) {
            Some(text) => r is Ok && r->Ok_0@ == text,
            None => r is Err && r->Err_0 == Error::InvalidFieldData,
        },
{
    match format {
        DisplayFormat::HexLE => {
            let turned: Vec<u8> = reversed(raw_field_data);
            Ok(upper_hex(turned.as_slice()))
        },
        DisplayFormat::Ascii => Ok(latin_string(raw_field_data)),
        DisplayFormat::Ipv4BE => ipv4_string(raw_field_data),
        DisplayFormat::Ipv4LE => {
            let turned: Vec<u8> = reversed(raw_field_data);
            ipv4_string(turned.as_slice())
        },
        DisplayFormat::Utf16BE => utf16_field(raw_field_data, false),
        DisplayFormat::Utf16LE => utf16_field(raw_field_data, true),
        DisplayFormat::X86 => {
            let (text, lines) = disassemble(16, raw_field_data);
            if lines > 5 {
                Ok("See table above ;)".to_owned())
            } else {
                Ok(text)
            }
        },
        DisplayFormat::Unknown => if swap {
            let turned: Vec<u8> = reversed(raw_field_data);
            Ok(upper_hex(turned.as_slice()))
        } else {
            Ok(raw_string(raw_field_data))
        },
    }
}

/// The bytes of a field in the display format that its tag names.
pub fn format_field(display_format: &str, raw_field_data: &[u8], swap: bool) -> (r: Result<
    String,
    Error,
>)
    ensures
        match formatted(display_format@, raw_field_data@, swap) {
            Some(text) => r is Ok && r->Ok_0@ == text,
            None => r is Err && r->Err_0 == Error::InvalidFieldData,
        },
{
    show(self::display_format(display_format), raw_field_data, swap)
}

} // verus!
