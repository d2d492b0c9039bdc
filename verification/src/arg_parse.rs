//! The command line: switches, their values, and what they ask for.

use vstd::prelude::*;
use crate::errors::Error;
use crate::name_map::NameMap;
use crate::text::{parse_u64, parsed_u64};

verus! {

/// The switch of the grammar file.
pub const GRAMMER_FILE_FLAG: &'static str = "-g";

/// The switch of the file that holds a C struct.
pub const CSTRUCT_FILE_FLAG: &'static str = "-c";

/// The switch of the grammar file that a conversion writes.
pub const OUTPUT_FILE_FLAG: &'static str = "-o";

/// The switch of the binary file.
pub const BINARY_FILE_FLAG: &'static str = "-b";

/// The switch of the offset at which the structure starts.
pub const STRUCT_OFFSET_FLAG: &'static str = "-s";

/// The switch that reverses the bytes of formatted data.
pub const FMT_ENDIAN_FLAG: &'static str = "-e";

/// The switch that reverses the bytes in the hex view.
pub const HEX_ENDIAN_FLAG: &'static str = "-E";

/// The switch that shows the description table.
pub const DESCRIPTION_FLAG: &'static str = "-d";

/// The switch that shows the usage.
pub const HELP_FLAG: &'static str = "-h";

/// The arguments of the command line and what was read from them.
#[derive(Debug)]
pub struct CMDArgParse {
    /// The arguments as they were given, the program's name first.
    pub raw_args: Vec<String>,
    /// Every switch that was given, with the value after it if there was one.
    pub arg_map: NameMap<Option<String>>,
    /// The path of the grammar file.
    pub grammer_filepath: String,
    /// The path of the binary file.
    pub binary_filepath: String,
    /// The path of the file that holds a C struct.
    pub cstruct_filepath: String,
    /// The path of the grammar file that a conversion writes.
    pub output_filepath: String,
    /// The offset into the binary file at which the structure starts.
    pub struct_offset: u64,
    /// Whether the description table is shown.
    pub description: bool,
    /// Whether the bytes of formatted data are reversed.
    pub fmt_endian: bool,
    /// Whether the bytes in the hex view are reversed.
    pub hex_endian: bool,
    /// Whether the usage is shown.
    pub help_flag: bool,
}

/// What a run does.
#[derive(Clone, Copy, Debug, PartialEq, Eq, Structural)]
pub enum RunOptions {
    /// Converts a C struct to a grammar file and shows nothing.
    CStructConvertWrite,
    /// Converts a C struct and shows the binary file under it.
    CStructConvertDisplay,
    /// Shows the binary file under a grammar.
    DisplayNormal,
}

/// Whether `arg` is a switch: it starts with a dash.
pub open spec fn is_switch(arg: Seq<char>) -> bool {
    arg.len() > 0 && arg[0] == '-'
}

/// The switches and values of a command line, as characters.
pub type SwitchMap = Map<Seq<char>, Option<Seq<char>>>;

/// `map` after the argument at `i`: a switch enters the map without a value;
/// an argument that follows a switch becomes the value of that switch.
pub open spec fn with_arg(map: SwitchMap, args: Seq<Seq<char>>, i: int) -> SwitchMap {
    if is_switch(args[i]) {
        map.insert(args[i], None)
    } else if i > 0 && is_switch(args[i - 1]) {
        map.insert(args[i - 1], Some(args[i]))
    } else {
        map
    }
}

/// `map` after the first `n` arguments, in order.
pub open spec fn with_args(map: SwitchMap, args: Seq<Seq<char>>, n: nat) -> SwitchMap
    decreases n,
{
    if n == 0 {
        map
    } else {
        with_arg(with_args(map, args, (n - 1) as nat), args, n - 1)
    }
}

/// The arguments as characters.
pub open spec fn args_view(args: Seq<String>) -> Seq<Seq<char>> {
    Seq::new(args.len(), |i: int| args[i]@)
}

/// The switches of a map with their values as characters.
pub open spec fn switches_of(map: Map<Seq<char>, Option<String>>) -> SwitchMap {
    Map::new(
        |name: Seq<char>| map.contains_key(name),
        |name: Seq<char>|
            match map[name] {
                Some(value) => Some(value@),
                None => None,
            },
    )
}

/// What the switches given ask for, if they make sense together. A grammar
/// and a binary file without a C struct show the file under the grammar. Else
/// an output file and a C struct, without offset and binary file, convert the
/// struct. Else a binary file and a C struct, without output and grammar
/// file, show the file under the struct.
pub open spec fn run_option(switches: Set<Seq<char>>) -> Option<RunOptions> {
    let grammar = switches.contains(GRAMMER_FILE_FLAG@);
    let cstruct = switches.contains(CSTRUCT_FILE_FLAG@);
    let output = switches.contains(OUTPUT_FILE_FLAG@);
    let binary = switches.contains(BINARY_FILE_FLAG@);
    let offset = switches.contains(STRUCT_OFFSET_FLAG@);
    if !cstruct && grammar && binary {
        Some(RunOptions::DisplayNormal)
    } else if output && cstruct && !offset && !binary {
        Some(RunOptions::CStructConvertWrite)
    } else if binary && cstruct && !output && !grammar {
        Some(RunOptions::CStructConvertDisplay)
    } else {
        None
    }
}

/// After the first `n` arguments, the map holds the names that it held
/// before and every switch among those arguments, and no other name.
pub proof fn lemma_with_args_names(map: SwitchMap, args: Seq<Seq<char>>, n: nat, name: Seq<char>)
    requires
        n <= args.len(),
    ensures
        with_args(map, args, n).contains_key(name) <==> map.contains_key(name) || (is_switch(name)
            && exists|i: int| 0 <= i < n && #[trigger] args[i] == name),
    decreases n,
{
    if n > 0 {
        lemma_with_args_names(map, args, (n - 1) as nat, name);
        let before = with_args(map, args, (n - 1) as nat);
        if is_switch(name) && exists|i: int| 0 <= i < n && #[trigger] args[i] == name {
            let i = choose|i: int| 0 <= i < n && #[trigger] args[i] == name;
            if i < n - 1 {
                assert(0 <= i < n - 1 && args[i] == name);
            }
        }
        if with_args(map, args, n).contains_key(name) && !before.contains_key(name) {
            if is_switch(args[n - 1]) {
                assert(args[n - 1] == name);
            } else {
                assert(args[n - 2] == name);
            }
        }
    }
}

/// After the first `n` arguments, a switch that stands at `index`, and not
/// again after it, has the value that follows it, if an argument follows it
/// that is no switch.
pub proof fn lemma_with_args_value(map: SwitchMap, args: Seq<Seq<char>>, n: nat, index: int)
    requires
        0 <= index < n <= args.len(),
        is_switch(args[index]),
        forall|j: int| index < j < n ==> #[trigger] args[j] != args[index],
    ensures
        with_args(map, args, n).contains_key(args[index]),
        with_args(map, args, n)[args[index]] == if index + 1 < n && !is_switch(args[index + 1]) {
            Some(args[index + 1])
        } else {
            None::<Seq<char>>
        },
    decreases n,
{
    if index < n - 1 {
        lemma_with_args_value(map, args, (n - 1) as nat, index);
        assert(args[n - 1] != args[index]);
        if index < n - 2 {
            assert(args[n - 2] != args[index]);
        }
    }
}

/// Whether `arg` is a switch.
pub fn starts_with_dash(arg: &str) -> (r: bool)
    ensures
        r == is_switch(arg@),
{
    arg.unicode_len() > 0 && arg.get_char(0) == '-'
}

impl CMDArgParse {
    /// The switches that were read so far, with their values as characters.
    pub open spec fn switches(&self) -> SwitchMap {
        switches_of(self.arg_map@)
    }

    /// A command line of the given arguments, with nothing read from them.
    pub fn new(raw_args: Vec<String>) -> (r: CMDArgParse)
        ensures
            r.raw_args == raw_args,
            r.arg_map@ == Map::<Seq<char>, Option<String>>::empty(),
            r.grammer_filepath@.len() == 0,
            r.binary_filepath@.len() == 0,
            r.cstruct_filepath@.len() == 0,
            r.output_filepath@.len() == 0,
            r.struct_offset == 0,
            !r.description,
            !r.fmt_endian,
            !r.hex_endian,
            !r.help_flag,
    {
        CMDArgParse {
            raw_args,
            arg_map: NameMap::new(),
            grammer_filepath: String::new(),
            binary_filepath: String::new(),
            cstruct_filepath: String::new(),
            output_filepath: String::new(),
            struct_offset: 0,
            description: false,
            fmt_endian: false,
            hex_endian: false,
            help_flag: false,
        }
    }

    /// Whether `other` is this command line with another switch map.
    pub open spec fn differs_in_switches_only(&self, other: CMDArgParse) -> bool {
        other == (CMDArgParse { arg_map: other.arg_map, ..*self })
    }

    /// Reads the switches and their values from the arguments into the switch
    /// map. A command line of the program's name alone is refused.
    pub fn parse_cmd_args(&mut self) -> (r: Result<&mut Self, Error>)
        ensures
            match r {
                Ok(parsed) => {
                    &&& old(self).raw_args@.len() != 1
                    &&& old(self).differs_in_switches_only(*parsed)
                    &&& parsed.switches() == with_args(
                        old(self).switches(),
                        args_view(old(self).raw_args@),
                        old(self).raw_args@.len(),
                    )
                    &&& *final(parsed) == *final(self)
                },
                Err(error) => {
                    &&& old(self).raw_args@.len() == 1
                    &&& error == Error::NoArguments
                    &&& *final(self) == *old(self)
                },
            },
    {
        let total: usize = self.raw_args.len();
        if total == 1 {
            return Err(Error::NoArguments);
        }
        let ghost args = args_view(self.raw_args@);
        let ghost start = self.switches();
        let mut index: usize = 0;
        while index < total
            invariant
                index <= total,
                total == self.raw_args@.len(),
                args == args_view(self.raw_args@),
                start == old(self).switches(),
                old(self).differs_in_switches_only(*self),
                self.switches() == with_args(start, args, index as nat),
            decreases total - index,
        {
            let ghost before = self.arg_map@;
            if starts_with_dash(self.raw_args[index].as_str()) {
                let name: String = self.raw_args[index].clone();
                self.arg_map.insert(name, None);
                proof {
                    assert(self.switches() =~= switches_of(before).insert(
                        args[index as int],
                        None,
                    ));
                }
            } else if index != 0 && starts_with_dash(self.raw_args[index - 1].as_str()) {
                let name: String = self.raw_args[index - 1].clone();
                let value: String = self.raw_args[index].clone();
                self.arg_map.insert(name, Some(value));
                proof {
                    assert(self.switches() =~= switches_of(before).insert(
                        args[index - 1],
                        Some(args[index as int]),
                    ));
                }
            }
            index = index + 1;
        }
        Ok(self)
    }

    /// The value that was given for `flag`.
    pub fn flag_value(&self, flag: &str) -> (r: Result<String, Error>)
        ensures
            match r {
                Ok(value) => self.switches().contains_key(flag@) && self.switches()[flag@]
                    == Some(value@),
                Err(error) => if self.switches().contains_key(flag@) {
                    self.switches()[flag@] is None && error == Error::InvalidFlagValue
                } else {
                    error == Error::MissingFlag
                },
            },
    {
        match self.arg_map.get(flag) {
            Some(found) => match found {
                Some(value) => Ok(value.clone()),
                None => Err(Error::InvalidFlagValue),
            },
            None => Err(Error::MissingFlag),
        }
    }

    /// Whether `after` is this command line with `path` as the path that
    /// `flag` stands for: a flag that stands for no path changes nothing.
    pub open spec fn with_path(self, flag: Seq<char>, path: Seq<char>, after: CMDArgParse) -> bool {
        &&& after.raw_args == self.raw_args
        &&& after.arg_map == self.arg_map
        &&& after.struct_offset == self.struct_offset
        &&& after.description == self.description
        &&& after.fmt_endian == self.fmt_endian
        &&& after.hex_endian == self.hex_endian
        &&& after.help_flag == self.help_flag
        &&& after.grammer_filepath@ == if flag == GRAMMER_FILE_FLAG@ {
            path
        } else {
            self.grammer_filepath@
        }
        &&& after.binary_filepath@ == if flag == BINARY_FILE_FLAG@ {
            path
        } else {
            self.binary_filepath@
        }
        &&& after.cstruct_filepath@ == if flag == CSTRUCT_FILE_FLAG@ {
            path
        } else {
            self.cstruct_filepath@
        }
        &&& after.output_filepath@ == if flag == OUTPUT_FILE_FLAG@ {
            path
        } else {
            self.output_filepath@
        }
    }

    /// Takes the value of `flag` as the path that the flag stands for.
    /// `file_exists` says whether a file lies at that path: only the path of
    /// the output file may name a file that does not exist yet.
    pub fn parse_file_arg(&mut self, flag: &str, file_exists: bool) -> (r: Result<
        &mut Self,
        Error,
    >)
        ensures
            match r {
                Ok(parsed) => {
                    &&& old(self).switches().contains_key(flag@)
                    &&& old(self).switches()[flag@] is Some
                    &&& file_exists || flag@ == OUTPUT_FILE_FLAG@
                    &&& old(self).with_path(flag@, old(self).switches()[flag@]->0, *parsed)
                    &&& *final(parsed) == *final(self)
                },
                Err(error) => {
                    &&& *final(self) == *old(self)
                    &&& error == if !old(self).switches().contains_key(flag@) {
                        Error::MissingFlag
                    } else if old(self).switches()[flag@] is None {
                        Error::InvalidFlagValue
                    } else {
                        Error::FileNotFound
                    }
                    &&& error == Error::FileNotFound ==> !file_exists && flag@
                        != OUTPUT_FILE_FLAG@
                },
            },
    {
        let file_path: String = match self.flag_value(flag) {
            Ok(value) => value,
            Err(error) => {
                return Err(error);
            },
        };
        proof {
            reveal_strlit("-g");
            reveal_strlit("-b");
            reveal_strlit("-c");
            reveal_strlit("-o");
            assert(GRAMMER_FILE_FLAG@[1] == 'g' && BINARY_FILE_FLAG@[1] == 'b'
                && CSTRUCT_FILE_FLAG@[1] == 'c' && OUTPUT_FILE_FLAG@[1] == 'o');
        }
        let wanted: String = flag.to_owned();
        let is_output: bool = wanted == OUTPUT_FILE_FLAG.to_owned();
        if !file_exists && !is_output {
            return Err(Error::FileNotFound);
        }
        if wanted == GRAMMER_FILE_FLAG.to_owned() {
            self.grammer_filepath = file_path;
        } else if wanted == BINARY_FILE_FLAG.to_owned() {
            self.binary_filepath = file_path;
        } else if wanted == CSTRUCT_FILE_FLAG.to_owned() {
            self.cstruct_filepath = file_path;
        } else if is_output {
            self.output_filepath = file_path;
        }
        Ok(self)
    }

    /// Reads the offset of the structure from the value of `offset_flag`;
    /// without the flag the offset is zero.
    pub fn parse_offset_flag(&mut self, offset_flag: &str) -> (r: Result<&mut Self, Error>)
        ensures
            match r {
                Ok(parsed) => {
                    &&& *parsed == (CMDArgParse { struct_offset: parsed.struct_offset, ..*old(self) })
                    &&& if old(self).switches().contains_key(offset_flag@) {
                        &&& old(self).switches()[offset_flag@] is Some
                        &&& parsed_u64(old(self).switches()[offset_flag@]->0) == Some(
                            parsed.struct_offset,
                        )
                    } else {
                        parsed.struct_offset == 0
                    }
                    &&& *final(parsed) == *final(self)
                },
                Err(error) => {
                    &&& error == Error::InvalidFlagValue
                    &&& *final(self) == *old(self)
                    &&& old(self).switches().contains_key(offset_flag@)
                    &&& old(self).switches()[offset_flag@] matches Some(text) ==> parsed_u64(text)
                        is None
                },
            },
    {
        match self.arg_map.get(offset_flag) {
            Some(found) => match found {
                Some(offset) => match parse_u64(offset.as_str()) {
                    Some(value) => {
                        self.struct_offset = value;
                    },
                    None => {
                        return Err(Error::InvalidFlagValue);
                    },
                },
                None => {
                    return Err(Error::InvalidFlagValue);
                },
            },
            None => {
                self.struct_offset = 0;
            },
        }
        Ok(self)
    }

    /// Asks for the usage where `help_flag` was given.
    pub fn parse_help_flag(&mut self, help_flag: &str) -> (r: &mut Self)
        ensures
            *r == (CMDArgParse {
                help_flag: old(self).help_flag || old(self).switches().contains_key(help_flag@),
                ..*old(self)
            }),
            *final(r) == *final(self),
    {
        if self.arg_map.contains_key(help_flag) {
            self.help_flag = true;
        }
        self
    }

    /// Switches on what the three flags stand for, each where it was given.
    pub fn parse_bool_flags(
        &mut self,
        fmt_endian_flag: &str,
        hex_endian_flag: &str,
        description_flag: &str,
    ) -> (r: &mut Self)
        ensures
            *r == (CMDArgParse {
                fmt_endian: old(self).fmt_endian || old(self).switches().contains_key(
                    fmt_endian_flag@,
                ),
                hex_endian: old(self).hex_endian || old(self).switches().contains_key(
                    hex_endian_flag@,
                ),
                description: old(self).description || old(self).switches().contains_key(
                    description_flag@,
                ),
                ..*old(self)
            }),
            *final(r) == *final(self),
    {
        if self.arg_map.contains_key(fmt_endian_flag) {
            self.fmt_endian = true;
        }
        if self.arg_map.contains_key(hex_endian_flag) {
            self.hex_endian = true;
        }
        if self.arg_map.contains_key(description_flag) {
            self.description = true;
        }
        self
    }

    /// What the switches given ask for.
    pub fn run_cmds(&mut self) -> (r: Result<RunOptions, Error>)
        ensures
            *final(self) == *old(self),
            match run_option(old(self).switches().dom()) {
                Some(option) => r == Ok::<RunOptions, Error>(option),
                None => r == Err::<RunOptions, Error>(Error::UnsupportedFlags),
            },
    {
        let grammar: bool = self.arg_map.contains_key(GRAMMER_FILE_FLAG);
        let cstruct: bool = self.arg_map.contains_key(CSTRUCT_FILE_FLAG);
        let output: bool = self.arg_map.contains_key(OUTPUT_FILE_FLAG);
        let binary: bool = self.arg_map.contains_key(BINARY_FILE_FLAG);
        let offset: bool = self.arg_map.contains_key(STRUCT_OFFSET_FLAG);
        if !cstruct && grammar && binary {
            Ok(RunOptions::DisplayNormal)
        } else if output && cstruct && !offset && !binary {
            Ok(RunOptions::CStructConvertWrite)
        } else if binary && cstruct && !output && !grammar {
            Ok(RunOptions::CStructConvertDisplay)
        } else {
            Err(Error::UnsupportedFlags)
        }
    }
}

} // verus!
