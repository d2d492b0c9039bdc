use memgram::errors::Error;
use memgram::format::{
    disassemble, display_format, format_field, ipv4_string, latin_string, raw_string, reversed,
    show, utf16_string, DisplayFormat, DissassOutput, ASCII_TYPE, HEXLE_TYPE, IPV4BE_TYPE,
    IPV4LE_TYPE, UTF16BE_TYPE, UTF16LE_TYPE, X86_TYPE,
};
use memgram::hex_text::{hex_padded, hex_with_prefix, upper_hex};

#[test]
fn display_formats_have_their_names() {
    assert_eq!(HEXLE_TYPE, "hexle");
    assert_eq!(ASCII_TYPE, "ascii");
    assert_eq!(IPV4BE_TYPE, "ipv4be");
    assert_eq!(IPV4LE_TYPE, "ipv4le");
    assert_eq!(UTF16LE_TYPE, "utf16be");
    assert_eq!(UTF16BE_TYPE, "utf16le");
    assert_eq!(X86_TYPE, "x86_32");
}

#[test]
fn ipv4_is_dotted_decimal() {
    assert_eq!(ipv4_string(&[192, 168, 0, 1]).unwrap(), "192.168.0.1");
    assert_eq!(ipv4_string(&[0, 0, 0, 0]).unwrap(), "0.0.0.0");
    assert_eq!(ipv4_string(&[255, 255, 255, 255]).unwrap(), "255.255.255.255");
    assert_eq!(ipv4_string(&[10, 99, 100, 101]).unwrap(), "10.99.100.101");
    assert_eq!(ipv4_string(&[9, 10, 109, 200]).unwrap(), "9.10.109.200");
}

#[test]
fn ipv4_wants_four_bytes() {
    assert_eq!(ipv4_string(&[1, 2, 3]), Err(Error::InvalidFieldData));
    assert_eq!(ipv4_string(&[1, 2, 3, 4, 5]), Err(Error::InvalidFieldData));
    assert_eq!(ipv4_string(&[]), Err(Error::InvalidFieldData));
}

#[test]
fn utf16_text_ends_at_the_first_zero() {
    let le = [b'H', 0, b'i', 0, 0, 0, b'x', 0];
    assert_eq!(utf16_string(&le, true).unwrap(), "Hi");
    let be = [0, b'H', 0, b'i', 0, 0, 0, b'x'];
    assert_eq!(utf16_string(&be, false).unwrap(), "Hi");
    assert_eq!(utf16_string(&[0, 0], true).unwrap(), "");
}

#[test]
fn utf16_text_reads_surrogates_and_replaces_what_is_ill_formed() {
    let pair = [0x3D, 0xD8, 0x00, 0xDE, 0, 0];
    assert_eq!(utf16_string(&pair, true).unwrap(), "\u{1F600}");
    let lone = [0x3D, 0xD8, b'a', 0, 0, 0];
    assert_eq!(utf16_string(&lone, true).unwrap(), "\u{FFFD}a");
}

#[test]
fn utf16_text_without_a_zero_is_refused() {
    assert_eq!(utf16_string(&[b'H', 0, b'i', 0], true), Err(Error::InvalidFieldData));
    assert_eq!(utf16_string(&[], true), Err(Error::InvalidFieldData));
    assert_eq!(utf16_string(&[b'H', 0, 0], true), Err(Error::InvalidFieldData));
}

#[test]
fn x86_code_is_listed_line_by_line() {
    let mut out = DissassOutput::new();
    assert_eq!(out.output, "");
    assert_eq!(out.line_count, 0);
    out.format_x86(32, &[0x90, 0xC3]);
    assert_eq!(out.output, "nop\nret\n");
    assert_eq!(out.line_count, 2);
    out.format_x86(32, &[0xCC]);
    assert_eq!(out.output, "nop\nret\nint3\n");
    assert_eq!(out.line_count, 3);
}

#[test]
fn x86_code_depends_on_the_bitness() {
    let (text16, lines16) = disassemble(16, &[0x31, 0xC0]);
    assert_eq!(text16, "xor ax,ax\n");
    assert_eq!(lines16, 1);
    let (text32, _) = disassemble(32, &[0x31, 0xC0]);
    assert_eq!(text32, "xor eax,eax\n");
    let (text64, lines64) = disassemble(64, &[0x48, 0x31, 0xC0, 0x90]);
    assert_eq!(text64, "xor rax,rax\nnop\n");
    assert_eq!(lines64, 2);
}

fn one_decoder(bitness: u32, code: &[u8]) -> (String, usize) {
    let mut decoder = iced_x86::Decoder::new(bitness, code, iced_x86::DecoderOptions::NONE);
    let mut formatter = iced_x86::NasmFormatter::new();
    let mut instruction = iced_x86::Instruction::default();
    let mut output = String::new();
    let mut lines = 0;
    while decoder.can_decode() {
        decoder.decode_out(&mut instruction);
        iced_x86::Formatter::format(&mut formatter, &instruction, &mut output);
        output.push_str("\n");
        lines += 1;
    }
    (output, lines)
}

#[test]
fn x86_branch_targets_count_from_the_first_instruction() {
    let mut code = vec![0x90u8; 20];
    code.extend([0xEB, 0xFE, 0xE8, 0x00, 0x01, 0x00, 0x00, 0x74, 0x10]);
    let (text, lines) = disassemble(32, &code);
    assert_eq!(lines, 23);
    assert_eq!(&text[80..], "jmp short 00000014h\ncall 0000011Bh\nje short 0000002Dh\n");
    assert_eq!((text, lines), one_decoder(32, &code));
}

#[test]
fn x86_listing_is_that_of_one_decoder_over_the_whole_code() {
    let mut code: Vec<u8> = Vec::new();
    let mut seed: u32 = 12345;
    for _ in 0..600 {
        seed = seed.wrapping_mul(1103515245).wrapping_add(12345);
        code.push((seed >> 16) as u8);
    }
    for bitness in [16, 32, 64] {
        for len in [0usize, 1, 2, 7, 15, 16, 100, 600] {
            assert_eq!(disassemble(bitness, &code[..len]), one_decoder(bitness, &code[..len]));
        }
    }
}

#[test]
fn x86_code_that_ends_early_is_listed_as_bad() {
    let (text, lines) = disassemble(32, &[0x90, 0xB8, 0x01]);
    assert_eq!(lines, 2);
    assert_eq!(text, "nop\n(bad)\n");
    let (text, lines) = disassemble(32, &[]);
    assert_eq!(lines, 0);
    assert_eq!(text, "");
}

#[test]
fn bytes_are_written_in_capital_hex_digits() {
    assert_eq!(upper_hex(&[0x00, 0x1f, 0xAB, 0xff]), "001FABFF");
    assert_eq!(upper_hex(&[]), "");
    assert_eq!(upper_hex(&[0x9a, 0xbc, 0xde]), "9ABCDE");
}

#[test]
fn numbers_are_written_in_capital_hex_digits() {
    assert_eq!(hex_with_prefix(0), "0x0");
    assert_eq!(hex_with_prefix(255), "0xFF");
    assert_eq!(hex_with_prefix(0x1A2B), "0x1A2B");
    assert_eq!(hex_with_prefix(usize::MAX), format!("{:#X}", usize::MAX));
    assert_eq!(hex_padded(0), "000");
    assert_eq!(hex_padded(0xA), "00A");
    assert_eq!(hex_padded(0x10), "010");
    assert_eq!(hex_padded(0xFF), "0FF");
    assert_eq!(hex_padded(0x100), "100");
    assert_eq!(hex_padded(0xABCDE), "ABCDE");
}

#[test]
fn raw_text_is_cut_after_25_digits() {
    assert_eq!(raw_string(&[0xAB; 12]), "ABABABABABABABABABABABAB");
    assert_eq!(raw_string(&[0xAB; 13]), "ABABABABABABABABABABABABA...");
    assert_eq!(raw_string(&[0x01; 20]), "0101010101010101010101010...");
    assert_eq!(raw_string(&[]), "");
}

#[test]
fn bytes_turn_around() {
    assert_eq!(reversed(&[1, 2, 3]), vec![3, 2, 1]);
    assert_eq!(reversed(&[]), Vec::<u8>::new());
}

#[test]
fn bytes_become_the_characters_of_their_codes() {
    assert_eq!(latin_string(b"abc"), "abc");
    assert_eq!(latin_string(&[0x41, 0xE9, 0x00]), "A\u{E9}\u{0}");
}

#[test]
fn fields_are_shown_in_their_display_format() {
    assert_eq!(format_field("hexle", &[1, 2, 0xAB], false).unwrap(), "AB0201");
    assert_eq!(format_field("ascii", b"hey", true).unwrap(), "hey");
    assert_eq!(format_field("ipv4be", &[127, 0, 0, 1], false).unwrap(), "127.0.0.1");
    assert_eq!(format_field("ipv4le", &[127, 0, 0, 1], false).unwrap(), "1.0.0.127");
    assert_eq!(format_field("utf16be", &[b'o', 0, b'k', 0, 0, 0], false).unwrap(), "ok");
    assert_eq!(format_field("utf16le", &[0, b'o', 0, b'k', 0, 0], false).unwrap(), "ok");
    assert_eq!(format_field("x86_32", &[0x90, 0xC3], false).unwrap(), "nop\nret\n");
    assert_eq!(format_field("x86_32", &[0x90; 6], false).unwrap(), "See table above ;)");
    assert_eq!(format_field("x86_32", &[0x90; 5], false).unwrap(), "nop\nnop\nnop\nnop\nnop\n");
}

#[test]
fn unknown_display_formats_show_the_raw_digits() {
    assert_eq!(format_field("hex", &[1, 2, 0xAB], false).unwrap(), "0102AB");
    assert_eq!(format_field("hex", &[1, 2, 0xAB], true).unwrap(), "AB0201");
    assert_eq!(format_field("", &[0x11; 13], false).unwrap(), "1111111111111111111111111...");
    assert_eq!(format_field("", &[0x11; 13], true).unwrap(), "11111111111111111111111111");
}

#[test]
fn bytes_that_do_not_fit_the_format_are_refused() {
    assert_eq!(format_field("ipv4be", &[1, 2, 3], false), Err(Error::InvalidFieldData));
    assert_eq!(format_field("ipv4le", &[1, 2, 3, 4, 5], false), Err(Error::InvalidFieldData));
    assert_eq!(format_field("utf16le", &[0, b'o'], false), Err(Error::InvalidFieldData));
    assert_eq!(format_field("utf16be", &[b'o', 0], false), Err(Error::InvalidFieldData));
}

#[test]
fn tags_name_their_display_formats() {
    assert_eq!(display_format("hexle"), DisplayFormat::HexLE);
    assert_eq!(display_format("ascii"), DisplayFormat::Ascii);
    assert_eq!(display_format("ipv4be"), DisplayFormat::Ipv4BE);
    assert_eq!(display_format("ipv4le"), DisplayFormat::Ipv4LE);
    assert_eq!(display_format("utf16le"), DisplayFormat::Utf16BE);
    assert_eq!(display_format("utf16be"), DisplayFormat::Utf16LE);
    assert_eq!(display_format("x86_32"), DisplayFormat::X86);
    for tag in ["hex", "", "HEXLE", "hexle ", "x86_64", "utf16"] {
        assert_eq!(display_format(tag), DisplayFormat::Unknown);
    }
}

#[test]
fn display_formats_show_bytes() {
    assert_eq!(show(DisplayFormat::HexLE, &[1, 2], false).unwrap(), "0201");
    assert_eq!(show(DisplayFormat::Utf16BE, &[0, b'a', 0, 0], false).unwrap(), "a");
    assert_eq!(show(DisplayFormat::Utf16LE, &[b'a', 0, 0, 0], false).unwrap(), "a");
    assert_eq!(show(DisplayFormat::Unknown, &[1, 2], true).unwrap(), "0201");
    assert_eq!(show(DisplayFormat::Unknown, &[1, 2], false).unwrap(), "0102");
    assert_eq!(show(DisplayFormat::Ipv4BE, &[1], false), Err(Error::InvalidFieldData));
}
