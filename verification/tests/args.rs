use memgram::arg_parse::{
    starts_with_dash, CMDArgParse, RunOptions, BINARY_FILE_FLAG, CSTRUCT_FILE_FLAG,
    DESCRIPTION_FLAG, FMT_ENDIAN_FLAG, GRAMMER_FILE_FLAG, HELP_FLAG, HEX_ENDIAN_FLAG,
    OUTPUT_FILE_FLAG, STRUCT_OFFSET_FLAG,
};
use memgram::errors::Error;
use memgram::file_parse::FileData;

fn args(list: &[&str]) -> CMDArgParse {
    let mut parsed = CMDArgParse::new(list.iter().map(|a| a.to_string()).collect());
    assert!(parsed.parse_cmd_args().is_ok());
    parsed
}

#[test]
fn flags_have_their_letters() {
    assert_eq!(GRAMMER_FILE_FLAG, "-g");
    assert_eq!(CSTRUCT_FILE_FLAG, "-c");
    assert_eq!(OUTPUT_FILE_FLAG, "-o");
    assert_eq!(BINARY_FILE_FLAG, "-b");
    assert_eq!(STRUCT_OFFSET_FLAG, "-s");
    assert_eq!(FMT_ENDIAN_FLAG, "-e");
    assert_eq!(HEX_ENDIAN_FLAG, "-E");
    assert_eq!(DESCRIPTION_FLAG, "-d");
    assert_eq!(HELP_FLAG, "-h");
}

#[test]
fn new_command_line_has_read_nothing() {
    let c = CMDArgParse::new(vec!["memgram".to_string(), "-h".to_string()]);
    assert_eq!(c.raw_args, vec!["memgram", "-h"]);
    assert!(!c.arg_map.contains_key("-h"));
    assert_eq!(c.grammer_filepath, "");
    assert_eq!(c.binary_filepath, "");
    assert_eq!(c.cstruct_filepath, "");
    assert_eq!(c.output_filepath, "");
    assert_eq!(c.struct_offset, 0);
    assert!(!c.description && !c.fmt_endian && !c.hex_endian && !c.help_flag);
}

#[test]
fn name_alone_is_refused() {
    let mut c = CMDArgParse::new(vec!["memgram".to_string()]);
    assert_eq!(c.parse_cmd_args().err(), Some(Error::NoArguments));
}

#[test]
fn switches_take_the_argument_after_them() {
    let c = args(&["memgram", "-g", "a.toml", "-e", "-b", "a.bin", "stray", "-s", "12"]);
    assert_eq!(c.arg_map.get("-g"), Some(&Some("a.toml".to_string())));
    assert_eq!(c.arg_map.get("-e"), Some(&None));
    assert_eq!(c.arg_map.get("-b"), Some(&Some("a.bin".to_string())));
    assert_eq!(c.arg_map.get("-s"), Some(&Some("12".to_string())));
    assert_eq!(c.arg_map.get("stray"), None);
    assert_eq!(c.arg_map.get("memgram"), None);
    assert_eq!(c.arg_map.get("a.toml"), None);
}

#[test]
fn a_switch_given_again_takes_the_later_value() {
    let c = args(&["memgram", "-g", "a.toml", "-g", "b.toml"]);
    assert_eq!(c.arg_map.get("-g"), Some(&Some("b.toml".to_string())));
    let c = args(&["memgram", "-g", "a.toml", "-g"]);
    assert_eq!(c.arg_map.get("-g"), Some(&None));
}

#[test]
fn empty_arguments_are_no_switches() {
    assert!(starts_with_dash("-x"));
    assert!(starts_with_dash("-"));
    assert!(!starts_with_dash(""));
    assert!(!starts_with_dash("x-"));
    assert!(!starts_with_dash("\u{2014}g"));
    let c = args(&["memgram", "", "-g", ""]);
    assert_eq!(c.arg_map.get("-g"), Some(&Some(String::new())));
    assert_eq!(c.arg_map.get(""), None);
}

#[test]
fn flag_values_are_looked_up() {
    let c = args(&["memgram", "-g", "a.toml", "-e"]);
    assert_eq!(c.flag_value("-g"), Ok("a.toml".to_string()));
    assert_eq!(c.flag_value("-e"), Err(Error::InvalidFlagValue));
    assert_eq!(c.flag_value("-b"), Err(Error::MissingFlag));
}

#[test]
fn file_flags_fill_their_paths() {
    let mut c = args(&["memgram", "-g", "g.toml", "-b", "b.bin", "-c", "s.h", "-o", "out.toml"]);
    assert!(c.parse_file_arg("-g", true).is_ok());
    assert!(c.parse_file_arg("-b", true).is_ok());
    assert!(c.parse_file_arg("-c", true).is_ok());
    assert!(c.parse_file_arg("-o", false).is_ok());
    assert_eq!(c.grammer_filepath, "g.toml");
    assert_eq!(c.binary_filepath, "b.bin");
    assert_eq!(c.cstruct_filepath, "s.h");
    assert_eq!(c.output_filepath, "out.toml");
}

#[test]
fn file_flags_chain() {
    let mut c = args(&["memgram", "-g", "g.toml", "-b", "b.bin"]);
    let r = c.parse_file_arg("-g", true).and_then(|c| c.parse_file_arg("-b", true));
    assert!(r.is_ok());
    assert_eq!(c.grammer_filepath, "g.toml");
    assert_eq!(c.binary_filepath, "b.bin");
}

#[test]
fn missing_files_are_refused_but_for_the_output() {
    let mut c = args(&["memgram", "-g", "g.toml", "-e"]);
    assert_eq!(c.parse_file_arg("-g", false).err(), Some(Error::FileNotFound));
    assert_eq!(c.grammer_filepath, "");
    assert_eq!(c.parse_file_arg("-b", true).err(), Some(Error::MissingFlag));
    assert_eq!(c.parse_file_arg("-e", true).err(), Some(Error::InvalidFlagValue));
}

#[test]
fn other_flags_with_values_fill_no_path() {
    let mut c = args(&["memgram", "-s", "12"]);
    assert!(c.parse_file_arg("-s", true).is_ok());
    assert_eq!(c.grammer_filepath, "");
    assert_eq!(c.binary_filepath, "");
    assert_eq!(c.cstruct_filepath, "");
    assert_eq!(c.output_filepath, "");
}

#[test]
fn offset_is_read_in_decimal() {
    let mut c = args(&["memgram", "-s", "244"]);
    assert_eq!(c.parse_offset_flag("-s").unwrap().struct_offset, 244);
    let mut c = args(&["memgram", "-s", "18446744073709551615"]);
    assert_eq!(c.parse_offset_flag("-s").unwrap().struct_offset, u64::MAX);
    let mut c = args(&["memgram", "-s", "+7"]);
    assert_eq!(c.parse_offset_flag("-s").unwrap().struct_offset, 7);
}

#[test]
fn offset_is_zero_without_the_flag() {
    let mut c = args(&["memgram", "-e"]);
    c.struct_offset = 9;
    assert_eq!(c.parse_offset_flag("-s").unwrap().struct_offset, 0);
}

#[test]
fn bad_offsets_are_refused() {
    for bad in ["0x10", "-1", "", "18446744073709551616", "1 ", "ten"] {
        let mut c = args(&["memgram", "-s", bad]);
        assert_eq!(c.parse_offset_flag("-s").err(), Some(Error::InvalidFlagValue));
        assert_eq!(c.struct_offset, 0);
    }
    let mut c = args(&["memgram", "-s"]);
    assert_eq!(c.parse_offset_flag("-s").err(), Some(Error::InvalidFlagValue));
}

#[test]
fn help_and_bool_flags_switch_on() {
    let mut c = args(&["memgram", "-h", "-E", "-d"]);
    assert!(c.parse_help_flag("-h").help_flag);
    c.parse_bool_flags("-e", "-E", "-d");
    assert!(!c.fmt_endian);
    assert!(c.hex_endian);
    assert!(c.description);
    let mut c = args(&["memgram", "-e"]);
    assert!(!c.parse_help_flag("-h").help_flag);
    assert!(c.parse_bool_flags("-e", "-E", "-d").fmt_endian);
}

#[test]
fn run_options_follow_the_flags() {
    assert_eq!(args(&["m", "-g", "g", "-b", "b"]).run_cmds(), Ok(RunOptions::DisplayNormal));
    assert_eq!(args(&["m", "-g", "g", "-b", "b", "-s", "1", "-o", "x"]).run_cmds(), Ok(RunOptions::DisplayNormal));
    assert_eq!(args(&["m", "-c", "c", "-o", "o"]).run_cmds(), Ok(RunOptions::CStructConvertWrite));
    assert_eq!(args(&["m", "-c", "c", "-o", "o", "-g", "g"]).run_cmds(), Ok(RunOptions::CStructConvertWrite));
    assert_eq!(args(&["m", "-c", "c", "-b", "b", "-s", "4"]).run_cmds(), Ok(RunOptions::CStructConvertDisplay));
    assert_eq!(args(&["m", "-c", "c", "-b", "b", "-g", "g"]).run_cmds(), Err(Error::UnsupportedFlags));
    assert_eq!(args(&["m", "-c", "c", "-o", "o", "-s", "1"]).run_cmds(), Err(Error::UnsupportedFlags));
    assert_eq!(args(&["m", "-c", "c", "-o", "o", "-b", "b"]).run_cmds(), Err(Error::UnsupportedFlags));
    assert_eq!(args(&["m", "-g", "g"]).run_cmds(), Err(Error::UnsupportedFlags));
    assert_eq!(args(&["m", "-h"]).run_cmds(), Err(Error::UnsupportedFlags));
}

#[test]
fn new_file_data_is_empty() {
    assert_eq!(FileData::new().grammar_contents, "");
}

#[test]
fn every_failure_has_its_cause_in_words() {
    let all = [
        Error::InvalidDirective,
        Error::UnsupportedSize,
        Error::ArithmeticFault,
        Error::MissingSourceField,
        Error::StructureTooLarge,
        Error::OpenFileError,
        Error::NoArguments,
        Error::MissingFlag,
        Error::FileNotFound,
        Error::InvalidFlagValue,
        Error::UnsupportedFlags,
        Error::MissingField,
        Error::InvalidFieldData,
        Error::UnprintableText,
        Error::InvalidStruct,
        Error::UnsupportedType,
        Error::GrammarParseError,
    ];
    for (i, a) in all.iter().enumerate() {
        assert!(!a.message().is_empty());
        for b in &all[i + 1..] {
            assert_ne!(a.message(), b.message());
        }
    }
    assert_eq!(Error::StructureTooLarge.message(), "The structure is larger than the file");
    assert_eq!(Error::UnsupportedFlags.message(), "Unsupported flag combination");
}
