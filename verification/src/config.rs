//! Where the registry comes from: the built-in types and the lines of a
//! configuration file.
//!
//! A line of such a file registers a type: its name, a space, and its
//! pattern, which is the rest of the line. A line without a space says
//! nothing.

use crate::parse::{chars_of, lemma_pieces_step, pieces, verbatim};
use crate::pattern::pattern_compiles;
use crate::types::{anchored, registered_all, Type, TypeDef, TypeList};
use crate::Error;
use vstd::prelude::*;

verus! {

/// Which types a registry is made of.
pub enum ConfigFileType {
    /// The built-in types, and after them those of the configuration file
    /// with the given text.
    Append(String),
    /// The types of the configuration file with the given text.
    ReplaceDefault(String),
    /// The built-in types.
    Defaults,
}

/// The built-in types: anything at all, decimal numbers with or without a
/// fraction, and whole numbers, the numbers with or without a sign.
pub open spec fn default_types() -> Seq<TypeDef> {
    seq![
        TypeDef { name: "string"@, pattern: anchored(".*"@) },
        TypeDef { name: "float"@, pattern: anchored(r"[-+]?(?:(?:\d+(?:\.\d*)?)|\.\d+)"@) },
        TypeDef { name: "int"@, pattern: anchored(r"[-+]?\d+"@) },
    ]
}

/// How many characters of `line` stand before its first space, or how many
/// it has if it has no space.
pub open spec fn name_len(line: Seq<char>) -> int
    decreases line.len(),
{
    if line.len() == 0 || line[0] == ' ' {
        0
    } else {
        1 + name_len(line.skip(1))
    }
}

/// Whether `line` registers a type: it has a space.
pub open spec fn is_entry(line: Seq<char>) -> bool {
    name_len(line) < line.len()
}

/// The type that `line` registers: the name before the first space, and the
/// pattern behind it.
pub open spec fn entry_of(line: Seq<char>) -> TypeDef {
    TypeDef {
        name: line.take(name_len(line)),
        pattern: anchored(line.skip(name_len(line) + 1)),
    }
}

/// The types that `lines` register, in their order.
pub open spec fn entries_of(lines: Seq<Seq<char>>) -> Seq<TypeDef> {
    lines.filter(|line: Seq<char>| is_entry(line)).map_values(|line: Seq<char>| entry_of(line))
}

/// The types that a configuration file with the given text registers.
pub open spec fn config_types(text: Seq<char>) -> Seq<TypeDef> {
    entries_of(pieces(text, |at: int| text[at] == '\n'))
}

/// Whether the pattern of every type of `types` compiles.
pub open spec fn all_compile(types: Seq<TypeDef>) -> bool {
    forall|i: int| 0 <= i < types.len() ==> pattern_compiles(#[trigger] types[i].pattern)
}

impl ConfigFileType {
    /// The types to register, in their order.
    pub open spec fn types(self) -> Seq<TypeDef> {
        match self {
            ConfigFileType::Append(text) => default_types() + config_types(text@),
            ConfigFileType::ReplaceDefault(text) => config_types(text@),
            ConfigFileType::Defaults => default_types(),
        }
    }
}

/// The place of the first space is the length of the name.
proof fn lemma_name_len(line: Seq<char>, space: int)
    requires
        0 <= space <= line.len(),
        forall|i: int| 0 <= i < space ==> line[i] != ' ',
        space < line.len() ==> line[space] == ' ',
    ensures
        name_len(line) == space,
    decreases space,
{
    if space > 0 {
        lemma_name_len(line.skip(1), space - 1);
    }
}

/// What one more line adds to the types that lines register.
proof fn lemma_entries_push(lines: Seq<Seq<char>>, line: Seq<char>)
    ensures
        entries_of(lines.push(line)) == if is_entry(line) {
            entries_of(lines).push(entry_of(line))
        } else {
            entries_of(lines)
        },
        all_compile(entries_of(lines.push(line))) == (all_compile(entries_of(lines)) && (is_entry(
            line,
        ) ==> pattern_compiles(entry_of(line).pattern))),
{
    let registers = |line: Seq<char>| is_entry(line);
    let registered = |line: Seq<char>| entry_of(line);
    lines.lemma_filter_push(line, registers);
    lines.filter(registers).lemma_push_map_commute(registered, line);
    let fewer = entries_of(lines);
    let more = entries_of(lines.push(line));
    if is_entry(line) {
        assert(more[more.len() - 1] == entry_of(line));
        if all_compile(more) {
            assert forall|i: int| 0 <= i < fewer.len() implies pattern_compiles(
                #[trigger] fewer[i].pattern,
            ) by {
                assert(more[i] == fewer[i]);
            }
        }
        if all_compile(fewer) && pattern_compiles(entry_of(line).pattern) {
            assert forall|i: int| 0 <= i < more.len() implies pattern_compiles(
                #[trigger] more[i].pattern,
            ) by {}
        }
    }
}

/// The type that the line `chars[from..to]` registers, if it registers one.
///
/// Fails with [`Error::Compile`] where it registers one whose pattern does
/// not compile.
fn entry(chars: &[char], from: usize, to: usize) -> (made: Result<Option<Type>, Error>)
    requires
        from <= to <= chars.len(),
    ensures
        ({
            let line = chars@.subrange(from as int, to as int);
            match made {
                Ok(Some(t)) => is_entry(line) && pattern_compiles(entry_of(line).pattern) && t@
                    == entry_of(line),
                Ok(None) => !is_entry(line),
                Err(e) => is_entry(line) && !pattern_compiles(entry_of(line).pattern) && e
                    == Error::Compile,
            }
        }),
{
    let ghost line = chars@.subrange(from as int, to as int);
    let mut space = from;
    while space < to && chars[space] != ' '
        invariant
            from <= space <= to <= chars.len(),
            forall|i: int| from <= i < space ==> chars[i] != ' ',
        decreases to - space,
    {
        space += 1;
    }
    proof {
        lemma_name_len(line, space - from);
    }
    if space == to {
        return Ok(None);
    }
    let name = verbatim(chars, from, space);
    let pattern = verbatim(chars, space + 1, to);
    proof {
        assert(line.take(space - from) =~= chars@.subrange(from as int, space as int));
        assert(line.skip(space - from + 1) =~= chars@.subrange(space + 1, to as int));
    }
    match Type::try_new(name.as_str(), pattern.as_str()) {
        Ok(t) => Ok(Some(t)),
        Err(e) => Err(e),
    }
}

/// Adds to `list` the type that the line `chars[from..to]` registers, unless
/// something went wrong before. Returns whether all is still well.
fn add_entry(chars: &[char], from: usize, to: usize, list: &mut Vec<Type>, sound: bool, Ghost(lines): Ghost<Seq<Seq<char>>>) -> (still_sound: bool)
    requires
        from <= to <= chars.len(),
        sound == all_compile(entries_of(lines)),
        sound ==> old(list).deep_view() == entries_of(lines),
    ensures
        still_sound == all_compile(entries_of(lines.push(chars@.subrange(from as int, to as int)))),
        still_sound ==> final(list).deep_view() == entries_of(
            lines.push(chars@.subrange(from as int, to as int)),
        ),
{
    proof {
        lemma_entries_push(lines, chars@.subrange(from as int, to as int));
    }
    match entry(chars, from, to) {
        Ok(Some(t)) => {
            if sound {
                list.push(t);
            }
            sound
        },
        Ok(None) => sound,
        Err(_) => false,
    }
}

/// The types that a configuration file with the given text registers.
///
/// Fails with [`Error::Compile`] where the pattern of one of them does not
/// compile, and only then.
pub fn parse_config(text: &str) -> (parsed: Result<Vec<Type>, Error>)
    ensures
        match parsed {
            Ok(list) => all_compile(config_types(text@)) && list.deep_view() == config_types(
                text@,
            ),
            Err(e) => !all_compile(config_types(text@)) && e == Error::Compile,
        },
{
    let chars = chars_of(text);
    let chars = chars.as_slice();
    let mut list: Vec<Type> = Vec::new();
    let mut sound = true;
    let mut line_start: usize = 0;
    let mut index: usize = 0;
    let ghost cut = |at: int| text@[at] == '\n';
    let ghost mut lines: Seq<Seq<char>> = Seq::empty();
    proof {
        assert(chars@.take(0) =~= Seq::empty());
    }
    while index < chars.len()
        invariant
            line_start <= index <= chars.len(),
            chars@ == text@,
            cut == |at: int| text@[at] == '\n',
            pieces(chars@.take(index as int), cut) == lines.push(
                chars@.subrange(line_start as int, index as int),
            ),
            sound == all_compile(entries_of(lines)),
            sound ==> list.deep_view() == entries_of(lines),
        decreases chars.len() - index,
    {
        proof {
            lemma_pieces_step(chars@, cut, lines, line_start as int, index as int);
        }
        if chars[index] == '\n' {
            sound = add_entry(chars, line_start, index, &mut list, sound, Ghost(lines));
            proof {
                lines = lines.push(chars@.subrange(line_start as int, index as int));
            }
            line_start = index + 1;
        }
        index += 1;
    }
    sound = add_entry(chars, line_start, index, &mut list, sound, Ghost(lines));
    proof {
        assert(chars@.take(index as int) =~= chars@);
    }
    if sound {
        Ok(list)
    } else {
        Err(Error::Compile)
    }
}

/// The built-in types.
///
/// Fails with [`Error::Compile`] where the pattern of one of them does not
/// compile, and only then.
pub fn default_config() -> (made: Result<Vec<Type>, Error>)
    ensures
        match made {
            Ok(list) => all_compile(default_types()) && list.deep_view() == default_types(),
            Err(e) => !all_compile(default_types()) && e == Error::Compile,
        },
{
    let ghost wanted = default_types();
    let anything = match Type::try_new("string", ".*") {
        Ok(t) => t,
        Err(e) => {
            assert(!pattern_compiles(wanted[0].pattern));
            return Err(e);
        },
    };
    let decimal = match Type::try_new("float", r"[-+]?(?:(?:\d+(?:\.\d*)?)|\.\d+)") {
        Ok(t) => t,
        Err(e) => {
            assert(!pattern_compiles(wanted[1].pattern));
            return Err(e);
        },
    };
    let whole = match Type::try_new("int", r"[-+]?\d+") {
        Ok(t) => t,
        Err(e) => {
            assert(!pattern_compiles(wanted[2].pattern));
            return Err(e);
        },
    };
    let list = vec![anything, decimal, whole];
    Ok(list)
}

/// The registry made of the types that `config_file` names, registered in
/// their order.
///
/// Fails with [`Error::Compile`] where the pattern of one of them does not
/// compile, and only then.
pub fn get_config(config_file: ConfigFileType) -> (made: Result<TypeList, Error>)
    ensures
        match made {
            Ok(type_list) => all_compile(config_file.types()) && type_list@ == registered_all(
                Seq::empty(),
                config_file.types(),
            ),
            Err(e) => !all_compile(config_file.types()) && e == Error::Compile,
        },
{
    match config_file {
        ConfigFileType::Defaults => match default_config() {
            Ok(list) => Ok(TypeList::from(list)),
            Err(e) => Err(e),
        },
        ConfigFileType::ReplaceDefault(file) => match parse_config(file.as_str()) {
            Ok(list) => Ok(TypeList::from(list)),
            Err(e) => Err(e),
        },
        ConfigFileType::Append(file) => {
            let ghost built_in = default_types();
            let ghost custom = config_types(file@);
            let mut default = match default_config() {
                Ok(list) => list,
                Err(e) => {
                    proof {
                        let i = choose|i: int|
                            0 <= i < built_in.len() && !pattern_compiles(
                                #[trigger] built_in[i].pattern,
                            );
                        assert((built_in + custom)[i] == built_in[i]);
                    }
                    return Err(e);
                },
            };
            let mut file = match parse_config(file.as_str()) {
                Ok(list) => list,
                Err(e) => {
                    proof {
                        let i = choose|i: int|
                            0 <= i < custom.len() && !pattern_compiles(
                                #[trigger] custom[i].pattern,
                            );
                        assert((built_in + custom)[built_in.len() + i] == custom[i]);
                    }
                    return Err(e);
                },
            };
            let ghost first = default.deep_view();
            let ghost second = file.deep_view();
            default.append(&mut file);
            proof {
                assert(default.deep_view() =~= first + second);
            }
            Ok(TypeList::from(default))
        },
    }
}

} // verus!
