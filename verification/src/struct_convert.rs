//! A C struct declaration turned into the text of a grammar.

use vstd::prelude::*;
use vstd::string::StringExecFns;
use crate::errors::Error;
use crate::text::{
    chars_of, find, find_word_end, first_occurrence, is_ascii_space,
    lemma_first_occurrence_unique, lowercase, string_of,
    to_lowercase, trim, trimmed, word_end,
};

verus! {

/// The fields of a C struct and the grammar text made of them.
#[derive(Debug)]
pub struct CStruct {
    /// The name of the struct, which is the name of the grammar.
    pub name: String,
    /// The fields: C type, then field name.
    pub fields: Vec<(String, String)>,
    /// The text of the grammar.
    pub grammar_contents: String,
}

/// The size, as the grammar text writes it, of a basic C type whose name is
/// given in lowercase: a `char` has one byte, an `int` four, and so on.
pub open spec fn size_text(lowered: Seq<char>) -> Option<Seq<char>> {
    if lowered == "char"@ || lowered == "signed char"@ || lowered == "unsigned char"@ {
        Some("0x01"@)
    } else if lowered == "short"@ || lowered == "short int"@ || lowered == "signed short"@
        || lowered == "signed short int"@ || lowered == "unsigned short"@ || lowered
        == "unsigned short int"@ {
        Some("0x02"@)
    } else if lowered == "float"@ || lowered == "int"@ || lowered == "signed"@ || lowered
        == "signed int"@ || lowered == "unsigned"@ || lowered == "unsigned int"@ || lowered
        == "long"@ || lowered == "long int"@ || lowered == "signed long"@ || lowered
        == "signed long int"@ || lowered == "unsigned long"@ || lowered == "unsigned long int"@ {
        Some("0x04"@)
    } else if lowered == "double"@ || lowered == "long long"@ || lowered == "long long int"@
        || lowered == "signed long long"@ || lowered == "signed long long int"@ || lowered
        == "unsigned long long"@ || lowered == "unsigned long long int"@ {
        Some("0x08"@)
    } else if lowered == "long double"@ {
        Some("0x10"@)
    } else {
        None
    }
}

/// The first lines of a grammar text: the metadata of a grammar of the given
/// name, without directives.
pub open spec fn header_text(name: Seq<char>) -> Seq<char> {
    "[metadata]\r\n"@ + "\tname = '"@ + name + "'\r\n"@
        + "\tvariable_size_fields = [['','','','']]\r\n"@ + "\tmultiply_fields = [['','']]\r\n"@
}

/// The lines of a field up to its size.
pub open spec fn field_opening(field_name: Seq<char>) -> Seq<char> {
    "\r\n[[fields]]\r\n"@ + "\tname = '"@ + field_name + "'\r\n"@
}

/// The lines of a field from its size on.
pub open spec fn field_closing(field_type: Seq<char>, size: Seq<char>) -> Seq<char> {
    "\tsize = "@ + size + "\r\n"@ + "\tdata_type = '"@ + field_type + "'\r\n"@
        + "\tdisplay_format = 'hex'\r\n"@ + "\tdescription = 'N/A'\r\n"@
}

/// The lines of the first `n` fields, whose types are all known.
pub open spec fn fields_text(fields: Seq<(Seq<char>, Seq<char>)>, n: nat) -> Seq<char>
    decreases n,
{
    if n == 0 {
        Seq::<char>::empty()
    } else {
        fields_text(fields, (n - 1) as nat) + field_opening(fields[n - 1].1) + field_closing(
            fields[n - 1].0,
            size_text(lowercase(fields[n - 1].0))->0,
        )
    }
}

/// Whether the type of the field at `k` is the first that is not known.
pub open spec fn first_unknown_type(fields: Seq<(Seq<char>, Seq<char>)>, k: int) -> bool {
    &&& 0 <= k < fields.len()
    &&& size_text(lowercase(fields[k].0)) is None
    &&& forall|j: int| 0 <= j < k ==> size_text(lowercase(#[trigger] fields[j].0)) is Some
}

/// The fields of a C struct as characters.
pub open spec fn c_fields_view(fields: Seq<(String, String)>) -> Seq<(Seq<char>, Seq<char>)> {
    Seq::new(fields.len(), |i: int| (fields[i].0@, fields[i].1@))
}

/// The fields declared so far by the words of a struct body.
pub struct Declared {
    /// The fields: C type, then field name.
    pub fields: Seq<(Seq<char>, Seq<char>)>,
    /// The index of the field that the next word belongs to.
    pub entry: nat,
    /// Whether a field name came without a type before it.
    pub failed: bool,
}

/// The fields after one more word. A word that ends in a semicolon, without
/// the semicolon, is the name of the current field and closes it; it fails
/// where the current field has no type yet. Any other word opens the current
/// field as its type, or is added to its type after a space.
pub open spec fn with_word(state: Declared, word: Seq<char>) -> Declared {
    if word.len() > 0 && word.last() == ';' {
        if state.entry < state.fields.len() {
            let field = state.fields[state.entry as int];
            Declared {
                fields: state.fields.update(
                    state.entry as int,
                    (field.0, field.1 + word.drop_last()),
                ),
                entry: state.entry + 1,
                ..state
            }
        } else {
            Declared { failed: true, ..state }
        }
    } else if state.entry < state.fields.len() {
        let field = state.fields[state.entry as int];
        Declared {
            fields: state.fields.update(state.entry as int, (field.0 + seq![' '] + word, field.1)),
            ..state
        }
    } else {
        Declared { fields: state.fields.push((word, Seq::<char>::empty())), ..state }
    }
}

/// The fields after the words of `body` from `index` on, which ASCII white
/// space parts, up to the first failure.
pub open spec fn with_words(body: Seq<char>, state: Declared, index: int) -> Declared
    decreases body.len() - index,
{
    if index < 0 || index >= body.len() || state.failed {
        state
    } else if is_ascii_space(body[index]) {
        with_words(body, state, index + 1)
    } else {
        let end = word_end(body, index);
        if index < end <= body.len() {
            with_words(body, with_word(state, body.subrange(index, end)), end)
        } else {
            state
        }
    }
}

/// Whether `text` holds a struct whose name starts at `name_start`, right
/// after the first `struct ` of the text, whose body opens at the first brace
/// after that, at `brace`, and closes at the first `};` after that, at
/// `close`.
pub open spec fn laid_out(text: Seq<char>, name_start: int, brace: int, close: int) -> bool {
    &&& first_occurrence(text, "struct "@, 0, name_start - 7)
    &&& first_occurrence(text, "{"@, name_start, brace)
    &&& first_occurrence(text, "};"@, brace, close)
}

/// Whether `a` and `b` hold the same characters.
fn same_text(a: &str, b: &str) -> (r: bool)
    ensures
        r == (a@ == b@),
{
    a.to_owned() == b.to_owned()
}

/// The size of a basic C type whose name is given in lowercase.
pub fn lowered_type_size(lowered: &str) -> (r: Result<&'static str, Error>)
    ensures
        match size_text(lowered@) {
            Some(size) => r is Ok && r->Ok_0@ == size,
            None => r is Err && r->Err_0 == Error::UnsupportedType,
        },
{
    if same_text(lowered, "char") || same_text(lowered, "signed char") || same_text(
        lowered,
        "unsigned char",
    ) {
        Ok("0x01")
    } else if same_text(lowered, "short") || same_text(lowered, "short int") || same_text(
        lowered,
        "signed short",
    ) || same_text(lowered, "signed short int") || same_text(lowered, "unsigned short")
        || same_text(lowered, "unsigned short int") {
        Ok("0x02")
    } else if same_text(lowered, "float") || same_text(lowered, "int") || same_text(
        lowered,
        "signed",
    ) || same_text(lowered, "signed int") || same_text(lowered, "unsigned") || same_text(
        lowered,
        "unsigned int",
    ) || same_text(lowered, "long") || same_text(lowered, "long int") || same_text(
        lowered,
        "signed long",
    ) || same_text(lowered, "signed long int") || same_text(lowered, "unsigned long")
        || same_text(lowered, "unsigned long int") {
        Ok("0x04")
    } else if same_text(lowered, "double") || same_text(lowered, "long long") || same_text(
        lowered,
        "long long int",
    ) || same_text(lowered, "signed long long") || same_text(lowered, "signed long long int")
        || same_text(lowered, "unsigned long long") || same_text(
        lowered,
        "unsigned long long int",
    ) {
        Ok("0x08")
    } else if same_text(lowered, "long double") {
        Ok("0x10")
    } else {
        Err(Error::UnsupportedType)
    }
}

/// The size of a basic C type, whatever the case of its letters. A `char` is
/// taken to have one byte, an `int` four, and so on.
pub fn get_field_size(field_type: &str) -> (r: Result<&'static str, Error>)
    ensures
        match size_text(lowercase(field_type@)) {
            Some(size) => r is Ok && r->Ok_0@ == size,
            None => r is Err && r->Err_0 == Error::UnsupportedType,
        },
{
    let l_field_type: String = to_lowercase(field_type);
    lowered_type_size(l_field_type.as_str())
}

impl CStruct {
    /// A struct without name, fields or grammar text.
    pub fn new() -> (r: CStruct)
        ensures
            r.name@.len() == 0,
            r.fields@.len() == 0,
            r.grammar_contents@.len() == 0,
    {
        CStruct { name: String::new(), fields: Vec::new(), grammar_contents: String::new() }
    }

    /// Appends the text of a grammar to the grammar text: the metadata, then
    /// each field with the size of its type, `hex` as display format and no
    /// description. At the first field whose type is not known it stops,
    /// after the opening lines of that field.
    pub fn build_grammar_contents(&mut self) -> (r: Result<&mut Self, Error>)
        ensures
            ({
                let fields = c_fields_view(old(self).fields@);
                let start = old(self).grammar_contents@ + header_text(old(self).name@);
                match r {
                    Ok(built) => {
                        &&& forall|j: int|
                            0 <= j < fields.len() ==> size_text(
                                lowercase(#[trigger] fields[j].0),
                            ) is Some
                        &&& built.grammar_contents@ == start + fields_text(fields, fields.len())
                        &&& built.name == old(self).name
                        &&& built.fields == old(self).fields
                        &&& *final(built) == *final(self)
                    },
                    Err(error) => {
                        &&& error == Error::UnsupportedType
                        &&& final(self).name == old(self).name
                        &&& final(self).fields == old(self).fields
                        &&& exists|k: int|
                            first_unknown_type(fields, k) && final(self).grammar_contents@
                                == start + #[trigger] fields_text(fields, k as nat) + field_opening(
                                fields[k].1,
                            )
                    },
                }
            }),
    {
        let ghost fields = c_fields_view(self.fields@);
        let ghost start = self.grammar_contents@ + header_text(self.name@);
        self.grammar_contents.append("[metadata]\r\n");
        self.grammar_contents.append("\tname = '");
        self.grammar_contents.append(self.name.as_str());
        self.grammar_contents.append("'\r\n");
        self.grammar_contents.append("\tvariable_size_fields = [['','','','']]\r\n");
        self.grammar_contents.append("\tmultiply_fields = [['','']]\r\n");
        assert(self.grammar_contents@ =~= start);
        let total: usize = self.fields.len();
        let mut k: usize = 0;
        while k < total
            invariant
                k <= total,
                total == self.fields@.len(),
                self.name == old(self).name,
                self.fields == old(self).fields,
                fields == c_fields_view(self.fields@),
                start == old(self).grammar_contents@ + header_text(old(self).name@),
                forall|j: int| 0 <= j < k ==> size_text(lowercase(#[trigger] fields[j].0)) is Some,
                self.grammar_contents@ == start + fields_text(fields, k as nat),
            decreases total - k,
        {
            let ghost before = self.grammar_contents@;
            self.grammar_contents.append("\r\n[[fields]]\r\n");
            self.grammar_contents.append("\tname = '");
            self.grammar_contents.append(self.fields[k].1.as_str());
            self.grammar_contents.append("'\r\n");
            assert(self.grammar_contents@ =~= before + field_opening(fields[k as int].1));
            let size: &str = match get_field_size(self.fields[k].0.as_str()) {
                Ok(size) => size,
                Err(error) => {
                    assert(first_unknown_type(fields, k as int));
                    return Err(error);
                },
            };
            self.grammar_contents.append("\tsize = ");
            self.grammar_contents.append(size);
            self.grammar_contents.append("\r\n");
            self.grammar_contents.append("\tdata_type = '");
            self.grammar_contents.append(self.fields[k].0.as_str());
            self.grammar_contents.append("'\r\n");
            self.grammar_contents.append("\tdisplay_format = 'hex'\r\n");
            self.grammar_contents.append("\tdescription = 'N/A'\r\n");
            assert(self.grammar_contents@ =~= before + field_opening(fields[k as int].1)
                + field_closing(fields[k as int].0, size@));
            assert(self.grammar_contents@ =~= start + fields_text(fields, (k + 1) as nat));
            k = k + 1;
        }
        Ok(self)
    }

    /// Whether `after` is this struct after the declaration in `text` was
    /// read, with success or without.
    pub open spec fn parsed_as(self, text: Seq<char>, after: CStruct, success: bool) -> bool {
        &&& after.grammar_contents == self.grammar_contents
        &&& (forall|a: int, b: int, c: int| !laid_out(text, a, b, c)) ==> !success && after
            == self
        &&& forall|a: int, b: int, c: int| #[trigger]
            laid_out(text, a, b, c) ==> {
                let start = Declared {
                    fields: c_fields_view(self.fields@),
                    entry: 0,
                    failed: false,
                };
                let end = with_words(text.take(c), start, b + 1);
                &&& success == !end.failed
                &&& c_fields_view(after.fields@) == end.fields
                &&& after.name@ == trimmed(text.subrange(a, b))
            }
    }

    /// Reads the declaration of a C struct from `struct_string`: the name
    /// between `struct ` and the opening brace, trimmed, and from the words
    /// between the braces the fields, each a type of one or more words and
    /// a name that ends in a semicolon. The fields are added to those that
    /// the struct has, from the first of them on.
    ///
    /// A text without `struct `, without a brace after it or without `};`
    /// after that is refused and changes nothing. A name without a type
    /// before it is refused, with the fields read so far.
    #[verifier::loop_isolation(false)]
    pub fn parse_c_struct(&mut self, struct_string: &str) -> (r: Result<&mut Self, Error>)
        ensures
            match r {
                Ok(parsed) => old(self).parsed_as(struct_string@, *parsed, true) && *final(parsed)
                    == *final(self),
                Err(error) => error == Error::InvalidStruct && old(self).parsed_as(
                    struct_string@,
                    *final(self),
                    false,
                ),
            },
    {
        let chars: Vec<char> = chars_of(struct_string);
        let keyword: Vec<char> = chars_of("struct ");
        let opening: Vec<char> = chars_of("{");
        let closing: Vec<char> = chars_of("};");
        proof {
            reveal_strlit("struct ");
            reveal_strlit("{");
            reveal_strlit("};");
            assert(keyword@.len() == 7 && opening@.len() == 1 && closing@.len() == 2);
            assert(chars.len() == chars@.len());
        }
        let name_start: usize = match find(&chars, &keyword, 0) {
            Some(found) => found + 7,
            None => {
                return Err(Error::InvalidStruct);
            },
        };
        let brace: usize = match find(&chars, &opening, name_start) {
            Some(found) => found,
            None => {
                assert forall|a: int, b: int, c: int| !laid_out(struct_string@, a, b, c) by {
                    if laid_out(struct_string@, a, b, c) {
                        lemma_first_occurrence_unique(
                            struct_string@,
                            "struct "@,
                            0,
                            name_start - 7,
                            a - 7,
                        );
                    }
                }
                return Err(Error::InvalidStruct);
            },
        };
        let close: usize = match find(&chars, &closing, brace) {
            Some(found) => found,
            None => {
                assert forall|a: int, b: int, c: int| !laid_out(struct_string@, a, b, c) by {
                    if laid_out(struct_string@, a, b, c) {
                        lemma_first_occurrence_unique(
                            struct_string@,
                            "struct "@,
                            0,
                            name_start - 7,
                            a - 7,
                        );
                        lemma_first_occurrence_unique(
                            struct_string@,
                            "{"@,
                            name_start as int,
                            brace as int,
                            b,
                        );
                    }
                }
                return Err(Error::InvalidStruct);
            },
        };
        proof {
            assert forall|a: int, b: int, c: int| #[trigger]
                laid_out(struct_string@, a, b, c) implies a == name_start && b == brace && c
                == close by {
                lemma_first_occurrence_unique(struct_string@, "struct "@, 0, name_start - 7, a - 7);
                lemma_first_occurrence_unique(
                    struct_string@,
                    "{"@,
                    name_start as int,
                    brace as int,
                    b,
                );
                lemma_first_occurrence_unique(
                    struct_string@,
                    "};"@,
                    brace as int,
                    close as int,
                    c,
                );
            }
            assert(laid_out(struct_string@, name_start as int, brace as int, close as int));
            assert(chars@.subrange(brace as int, brace + 1)[0] == '{');
            assert(chars@.subrange(close as int, close + 2)[0] == '}');
            assert(brace < close);
        }
        let struct_name: String = string_of(&chars, name_start, brace);
        self.name = trim(struct_name.as_str()).to_owned();
        let ghost body = chars@.take(close as int);
        let ghost start = Declared {
            fields: c_fields_view(old(self).fields@),
            entry: 0,
            failed: false,
        };
        let mut entry_num: usize = 0;
        let mut index: usize = brace + 1;
        while index < close
            invariant
                brace < index <= close <= chars@.len(),
                body == chars@.take(close as int),
                entry_num <= self.fields@.len(),
                self.name@ == trimmed(struct_string@.subrange(name_start as int, brace as int)),
                chars@ == struct_string@,
                start == (Declared {
                    fields: c_fields_view(old(self).fields@),
                    entry: 0,
                    failed: false,
                }),
                self.grammar_contents == old(self).grammar_contents,
                with_words(body, start, brace + 1) == with_words(
                    body,
                    Declared {
                        fields: c_fields_view(self.fields@),
                        entry: entry_num as nat,
                        failed: false,
                    },
                    index as int,
                ),
            decreases chars@.len() - index,
        {
            let ghost state = Declared {
                fields: c_fields_view(self.fields@),
                entry: entry_num as nat,
                failed: false,
            };
            assert(body[index as int] == chars@[index as int]);
            let end: usize = find_word_end(&chars, index, close);
            if end == index {
                index = index + 1;
            } else {
                let ghost word = body.subrange(index as int, end as int);
                assert(word =~= chars@.subrange(index as int, end as int));
                let ghost before = self.fields@;
                if chars[end - 1] == ';' {
                    assert(word.last() == ';');
                    if entry_num < self.fields.len() {
                        let name_part: String = string_of(&chars, index, end - 1);
                        assert(name_part@ =~= word.drop_last());
                        self.fields[entry_num].1.append(name_part.as_str());
                        proof {
                            assert(c_fields_view(self.fields@) =~= with_word(state, word).fields);
                        }
                        entry_num = entry_num + 1;
                    } else {
                        proof {
                            let failed = with_word(state, word);
                            assert(failed.failed);
                            assert(!is_ascii_space(body[index as int]));
                            assert(with_words(body, state, index as int) == with_words(
                                body,
                                failed,
                                end as int,
                            ));
                            assert(with_words(body, failed, end as int) == failed);
                        }
                        return Err(Error::InvalidStruct);
                    }
                } else {
                    assert(word.last() != ';');
                    let whole: String = string_of(&chars, index, end);
                    if entry_num < self.fields.len() {
                        self.fields[entry_num].0.append(" ");
                        self.fields[entry_num].0.append(whole.as_str());
                        proof {
                            reveal_strlit(" ");
                            assert(" "@ =~= seq![' ']);
                            assert(c_fields_view(self.fields@) =~= with_word(state, word).fields);
                        }
                    } else {
                        self.fields.push((whole, String::new()));
                        proof {
                            assert(c_fields_view(self.fields@) =~= with_word(state, word).fields);
                        }
                    }
                }
                index = end;
            }
        }
        Ok(self)
    }
}

} // verus!
