//! From the names of the expected types, as a user writes them, to the types.
//!
//! The names stand in one line with `,` between them; blanks around a name
//! do not count.

use crate::parse::{chars_of, lemma_pieces_step, pieces, verbatim};
use crate::text::{char_is_whitespace, is_whitespace};
use crate::types::{lookup, Type, TypeDef, TypeList};
use crate::Error;
use vstd::prelude::*;

verus! {

/// `text` without the white space at its start and at its end.
pub open spec fn trimmed(text: Seq<char>) -> Seq<char>
    decreases text.len(),
{
    if text.len() > 0 && is_whitespace(text[0]) {
        trimmed(text.skip(1))
    } else if text.len() > 0 && is_whitespace(text.last()) {
        trimmed(text.drop_last())
    } else {
        text
    }
}

/// The names written in `text`.
pub open spec fn names_of(text: Seq<char>) -> Seq<Seq<char>> {
    pieces(text, |at: int| text[at] == ',').map_values(|name: Seq<char>| trimmed(name))
}

/// Whether `types` holds a type under each of `names`.
pub open spec fn all_defined(types: Seq<TypeDef>, names: Seq<Seq<char>>) -> bool {
    forall|i: int| 0 <= i < names.len() ==> lookup(types, #[trigger] names[i]) is Some
}

/// The types that `types` holds under `names`, name by name.
pub open spec fn types_named(types: Seq<TypeDef>, names: Seq<Seq<char>>) -> Seq<TypeDef> {
    names.map_values(|name: Seq<char>| lookup(types, name)->0)
}

/// `chars[from..to]` without the white space at its start and at its end.
fn trim(chars: &[char], from: usize, to: usize) -> (name: String)
    requires
        from <= to <= chars.len(),
    ensures
        name@ == trimmed(chars@.subrange(from as int, to as int)),
{
    let mut first = from;
    let mut end = to;
    while first < end && char_is_whitespace(chars[first])
        invariant
            from <= first <= end == to <= chars.len(),
            trimmed(chars@.subrange(first as int, end as int)) == trimmed(
                chars@.subrange(from as int, to as int),
            ),
        decreases end - first,
    {
        proof {
            assert(chars@.subrange(first as int, end as int).skip(1) =~= chars@.subrange(
                first + 1,
                end as int,
            ));
        }
        first += 1;
    }
    while first < end && char_is_whitespace(chars[end - 1])
        invariant
            from <= first <= end <= to <= chars.len(),
            first < end ==> !is_whitespace(chars[first as int]),
            trimmed(chars@.subrange(first as int, end as int)) == trimmed(
                chars@.subrange(from as int, to as int),
            ),
        decreases end - first,
    {
        proof {
            assert(chars@.subrange(first as int, end as int).drop_last() =~= chars@.subrange(
                first as int,
                end - 1,
            ));
        }
        end -= 1;
    }
    verbatim(chars, first, end)
}

/// The names written in `text`: what stands between its commas, each
/// without the white space around it.
pub fn split_names(text: &str) -> (names: Vec<String>)
    ensures
        names.deep_view() == names_of(text@),
{
    let chars = chars_of(text);
    let chars = chars.as_slice();
    let mut names: Vec<String> = Vec::new();
    let mut name_start: usize = 0;
    let mut index: usize = 0;
    let ghost cut = |at: int| text@[at] == ',';
    let ghost trimming = |name: Seq<char>| trimmed(name);
    let ghost mut written: Seq<Seq<char>> = Seq::empty();
    proof {
        assert(chars@.take(0) =~= Seq::empty());
    }
    while index < chars.len()
        invariant
            name_start <= index <= chars.len(),
            chars@ == text@,
            cut == |at: int| text@[at] == ',',
            trimming == |name: Seq<char>| trimmed(name),
            pieces(chars@.take(index as int), cut) == written.push(
                chars@.subrange(name_start as int, index as int),
            ),
            names.deep_view() == written.map_values(trimming),
        decreases chars.len() - index,
    {
        proof {
            lemma_pieces_step(chars@, cut, written, name_start as int, index as int);
        }
        if chars[index] == ',' {
            let name = trim(chars, name_start, index);
            let ghost before = names.deep_view();
            names.push(name);
            proof {
                let piece = chars@.subrange(name_start as int, index as int);
                assert(names.deep_view() =~= before.push(name@));
                written = written.push(piece);
            }
            name_start = index + 1;
        }
        index += 1;
    }
    let name = trim(chars, name_start, index);
    let ghost before = names.deep_view();
    names.push(name);
    proof {
        let piece = chars@.subrange(name_start as int, index as int);
        assert(names.deep_view() =~= before.push(name@));
        assert(chars@.take(index as int) =~= chars@);
    }
    names
}

/// The types that `type_list` holds under `names`, name by name.
///
/// Fails with [`Error::UndefinedType`] where it holds none under one of the
/// names, and only then.
pub fn resolve_types(type_list: &TypeList, names: &[String]) -> (resolved: Result<Vec<Type>, Error>)
    ensures
        match resolved {
            Ok(types) => all_defined(type_list@, names.deep_view()) && types.deep_view()
                == types_named(type_list@, names.deep_view()),
            Err(e) => !all_defined(type_list@, names.deep_view()) && e == Error::UndefinedType,
        },
{
    let mut types: Vec<Type> = Vec::new();
    let mut index: usize = 0;
    while index < names.len()
        invariant
            index <= names.len(),
            types.len() == index,
            forall|i: int|
                0 <= i < index ==> lookup(type_list@, #[trigger] names.deep_view()[i]) == Some(
                    types[i]@,
                ),
        decreases names.len() - index,
    {
        proof {
            assert(names.deep_view()[index as int] == names[index as int]@);
        }
        match type_list.lookup_by_name(names[index].as_str()) {
            Some(found) => {
                types.push(found.clone());
            },
            None => {
                return Err(Error::UndefinedType);
            },
        }
        index += 1;
    }
    Ok(types)
}

/// The types that `type_list` holds under the names written in
/// `asserted_types`, one for each column of a table.
///
/// Fails with [`Error::UndefinedType`] where it holds none under one of the
/// names, and only then.
pub fn expected_types(type_list: &TypeList, asserted_types: &str) -> (resolved: Result<
    Vec<Type>,
    Error,
>)
    ensures
        match resolved {
            Ok(types) => all_defined(type_list@, names_of(asserted_types@)) && types.deep_view()
                == types_named(type_list@, names_of(asserted_types@)),
            Err(e) => !all_defined(type_list@, names_of(asserted_types@)) && e
                == Error::UndefinedType,
        },
{
    let names = split_names(asserted_types);
    resolve_types(type_list, names.as_slice())
}

} // verus!
