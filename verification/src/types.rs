//! Named patterns ("types") and the registry that holds them.

use crate::pattern::{compile, is_match, pattern_compiles, pattern_found, Compiled};
use crate::sequences::{lemma_filter_agree, lemma_filter_all, lemma_filter_none, lemma_filter_twice};
use crate::Error;
use vstd::hash_map::StringHashMap;
use vstd::pervasive::unreached;
use vstd::prelude::*;
use vstd::string::*;

verus! {

/// What a [`Type`] is: a name and the full-match pattern behind it.
pub struct TypeDef {
    pub name: Seq<char>,
    pub pattern: Seq<char>,
}

/// `pattern` wrapped so that it has to match a value from its first
/// character to its last.
pub open spec fn anchored(pattern: Seq<char>) -> Seq<char> {
    seq!['^'] + pattern + seq!['$']
}

impl TypeDef {
    /// Whether `value` is of this type.
    pub open spec fn accepts(self, value: Seq<char>) -> bool {
        pattern_found(self.pattern, value)
    }

    /// Whether every value of `column` is of this type.
    pub open spec fn accepts_all(self, column: Seq<Seq<char>>) -> bool {
        forall|i: int| 0 <= i < column.len() ==> self.accepts(#[trigger] column[i])
    }
}

/// A named pattern. The pattern is kept anchored, and compiled.
#[derive(Debug, PartialEq)]
pub struct Type {
    pattern: Compiled,
    name: String,
}

impl View for Type {
    type V = TypeDef;

    closed spec fn view(&self) -> TypeDef {
        TypeDef { name: self.name@, pattern: self.pattern@ }
    }
}

impl DeepView for Type {
    type V = TypeDef;

    open spec fn deep_view(&self) -> TypeDef {
        self@
    }
}

impl Clone for Type {
    fn clone(&self) -> (copy: Self)
        ensures
            copy@ == self@,
    {
        Type { pattern: self.pattern.clone(), name: self.name.clone() }
    }
}

impl Type {
    /// The type called `name` whose values are those that `pattern` matches
    /// in full. The pattern has to compile once anchored; [`Type::try_new`]
    /// is for a pattern of which that is not known.
    pub fn new(name: &str, pattern: &str) -> (t: Self)
        requires
            pattern_compiles(anchored(pattern@)),
        ensures
            t@ == (TypeDef { name: name@, pattern: anchored(pattern@) }),
    {
        match compile(anchor(pattern).as_str()) {
            Some(compiled) => Type { pattern: compiled, name: name.to_owned() },
            None => unreached(),
        }
    }

    /// As [`Type::new`], for a pattern that may not compile.
    pub fn try_new(name: &str, pattern: &str) -> (made: Result<Self, Error>)
        ensures
            match made {
                Ok(t) => pattern_compiles(anchored(pattern@)) && t@ == (TypeDef {
                    name: name@,
                    pattern: anchored(pattern@),
                }),
                Err(e) => !pattern_compiles(anchored(pattern@)) && e == Error::Compile,
            },
    {
        match compile(anchor(pattern).as_str()) {
            Some(_) => Ok(Type::new(name, pattern)),
            None => Err(Error::Compile),
        }
    }

    /// The name of the type.
    pub fn name(&self) -> (name: &String)
        ensures
            name@ == self@.name,
    {
        &self.name
    }

    /// The anchored pattern of the type, which compiles.
    pub fn pattern(&self) -> (pattern: &String)
        ensures
            pattern@ == self@.pattern,
            pattern_compiles(self@.pattern),
    {
        self.pattern.as_string()
    }
}

/// `^`, `pattern`, `$`.
fn anchor(pattern: &str) -> (full: String)
    ensures
        full@ == anchored(pattern@),
{
    let mut full = String::from_str("^");
    full.append(pattern);
    full.append("$");
    proof {
        reveal_strlit("^");
        reveal_strlit("$");
    }
    full
}

/// Whether `value` is of the type `type_def`.
pub fn check_if_type_matches(value: &str, type_def: &Type) -> (fits: bool)
    ensures
        fits == type_def@.accepts(value@),
{
    is_match(&type_def.pattern, value)
}

/// Whether every value of `column` is of the type `type_def`. A column
/// without values is of every type.
pub fn check_if_column_matches(column: &[String], type_def: &Type) -> (fits: bool)
    ensures
        fits == type_def@.accepts_all(column.deep_view()),
{
    let mut row: usize = 0;
    while row < column.len()
        invariant
            row <= column.len(),
            forall|r: int| 0 <= r < row ==> type_def@.accepts(#[trigger] column.deep_view()[r]),
        decreases column.len() - row,
    {
        proof {
            assert(column.deep_view()[row as int] == column[row as int]@);
        }
        if !check_if_type_matches(column[row].as_str(), type_def) {
            return false;
        }
        row += 1;
    }
    true
}

/// The types of `types` that fit `column`: those of which every value of the
/// column is, in the order they have in `types`.
pub open spec fn matching_types(types: Seq<TypeDef>, column: Seq<Seq<char>>) -> Seq<TypeDef> {
    types.filter(|t: TypeDef| t.accepts_all(column))
}

/// The items of `types` at the places where `keep` says so, in their order.
pub open spec fn retained(types: Seq<TypeDef>, keep: Seq<bool>) -> Seq<TypeDef> {
    Seq::new(types.len(), |i: int| i).filter(|i: int| keep[i]).map_values(|i: int| types[i])
}

/// Keeping the items for which a test holds is filtering by that test.
pub proof fn lemma_retained_is_filter(
    types: Seq<TypeDef>,
    keep: Seq<bool>,
    test: spec_fn(TypeDef) -> bool,
)
    requires
        keep.len() == types.len(),
        forall|i: int| 0 <= i < types.len() ==> keep[i] == test(#[trigger] types[i]),
    ensures
        retained(types, keep) == types.filter(test),
    decreases types.len(),
{
    let places = Seq::new(types.len(), |i: int| i);
    let kept = |i: int| keep[i];
    if types.len() > 0 {
        let n = types.len() - 1;
        let fewer = types.drop_last();
        let fewer_keep = keep.drop_last();
        lemma_retained_is_filter(fewer, fewer_keep, test);
        let fewer_places = Seq::new(fewer.len(), |i: int| i);
        let fewer_kept = |i: int| fewer_keep[i];
        assert(places =~= fewer_places.push(n));
        fewer_places.lemma_filter_push(n, kept);
        lemma_filter_agree(fewer_places, kept, fewer_kept);
        let chosen = fewer_places.filter(fewer_kept);
        assert forall|k: int| 0 <= k < chosen.len() implies 0 <= #[trigger] chosen[k] < n by {
            fewer_places.lemma_filter_contains_rev(fewer_kept, chosen[k]);
            let j = choose|j: int| 0 <= j < fewer_places.len() && fewer_places[j] == chosen[k];
            assert(chosen[k] == j);
        }
        assert(types =~= fewer.push(types[n]));
        fewer.lemma_filter_push(types[n], test);
    }
}

/// The types at the places where `keep` says so.
pub fn retain_types(type_list: &[Type], keep: &[bool]) -> (kept: Vec<Type>)
    requires
        keep.len() == type_list.len(),
    ensures
        kept.deep_view() == retained(type_list.deep_view(), keep@),
{
    let mut kept: Vec<Type> = Vec::new();
    let ghost types = type_list.deep_view();
    let ghost places = Seq::new(types.len(), |i: int| i);
    let ghost wanted = |i: int| keep@[i];
    let ghost item = |i: int| types[i];
    let mut index: usize = 0;
    while index < type_list.len()
        invariant
            index <= type_list.len() == keep.len(),
            types == type_list.deep_view(),
            places == Seq::new(types.len(), |i: int| i),
            wanted == |i: int| keep@[i],
            item == |i: int| types[i],
            kept.deep_view() == places.take(index as int).filter(wanted).map_values(item),
        decreases type_list.len() - index,
    {
        proof {
            let seen = places.take(index as int);
            assert(places.take(index + 1) =~= seen.push(index as int));
            seen.lemma_filter_push(index as int, wanted);
            seen.filter(wanted).lemma_push_map_commute(item, index as int);
        }
        if keep[index] {
            kept.push(type_list[index].clone());
        }
        index += 1;
    }
    proof {
        assert(places.take(index as int) =~= places);
    }
    kept
}

/// The types of `type_list` that fit `column`, in the order of the list.
pub fn get_matching_types(column: &[String], type_list: &[Type]) -> (matching: Vec<Type>)
    ensures
        matching.deep_view() == matching_types(type_list.deep_view(), column.deep_view()),
{
    let mut keep: Vec<bool> = Vec::new();
    let mut index: usize = 0;
    while index < type_list.len()
        invariant
            index <= type_list.len(),
            keep.len() == index,
            forall|i: int|
                0 <= i < index ==> keep[i] == (#[trigger] type_list.deep_view()[i]).accepts_all(
                    column.deep_view(),
                ),
        decreases type_list.len() - index,
    {
        keep.push(check_if_column_matches(column, &type_list[index]));
        index += 1;
    }
    proof {
        lemma_retained_is_filter(
            type_list.deep_view(),
            keep@,
            |t: TypeDef| t.accepts_all(column.deep_view()),
        );
    }
    retain_types(type_list, keep.as_slice())
}

/// A column without values is of every type.
pub proof fn lemma_empty_column_matches_all(types: Seq<TypeDef>)
    ensures
        matching_types(types, Seq::empty()) == types,
    decreases types.len(),
{
    let fits = |t: TypeDef| t.accepts_all(Seq::<Seq<char>>::empty());
    if types.len() > 0 {
        lemma_empty_column_matches_all(types.drop_last());
        assert(types =~= types.drop_last().push(types.last()));
        types.drop_last().lemma_filter_push(types.last(), fits);
    }
}

/// `types` after `added` is registered: what bore its name before is gone,
/// and `added` stands at the end.
pub open spec fn registered(types: Seq<TypeDef>, added: TypeDef) -> Seq<TypeDef> {
    types.filter(|t: TypeDef| t.name != added.name).push(added)
}

/// `types` after the items of `added` are registered one after the other.
pub open spec fn registered_all(types: Seq<TypeDef>, added: Seq<TypeDef>) -> Seq<TypeDef>
    decreases added.len(),
{
    if added.len() == 0 {
        types
    } else {
        registered(registered_all(types, added.drop_last()), added.last())
    }
}

/// Whether no two items of `types` bear the same name.
pub open spec fn distinct_names(types: Seq<TypeDef>) -> bool {
    forall|i: int, j: int| 0 <= i < j < types.len() ==> types[i].name != types[j].name
}

/// The type that `types` holds under `name`: the last of them that bears it.
pub open spec fn lookup(types: Seq<TypeDef>, name: Seq<char>) -> Option<TypeDef> {
    let named = types.filter(|t: TypeDef| t.name == name);
    if named.len() > 0 {
        Some(named.last())
    } else {
        None
    }
}

/// What is looked up is an item of the list and bears the name asked for,
/// and nothing is found only where no item bears it.
pub proof fn lemma_lookup(types: Seq<TypeDef>, name: Seq<char>)
    ensures
        match lookup(types, name) {
            Some(found) => found.name == name && types.contains(found),
            None => forall|i: int| 0 <= i < types.len() ==> (#[trigger] types[i]).name != name,
        },
{
    let bears = |t: TypeDef| t.name == name;
    let named = types.filter(bears);
    if named.len() > 0 {
        types.lemma_filter_contains_rev(bears, named.last());
    } else {
        assert forall|i: int| 0 <= i < types.len() implies (#[trigger] types[i]).name != name by {
            if types[i].name == name {
                types.lemma_filter_contains(bears, i);
            }
        }
    }
}

/// Registering keeps the names apart.
pub proof fn lemma_registered_distinct(types: Seq<TypeDef>, added: TypeDef)
    requires
        distinct_names(types),
    ensures
        distinct_names(registered(types, added)),
{
    let others = |t: TypeDef| t.name != added.name;
    lemma_filter_distinct(types, others);
    let kept = types.filter(others);
    assert forall|i: int| 0 <= i < kept.len() implies (#[trigger] kept[i]).name != added.name by {}
}

/// Leaving items out keeps the names apart.
proof fn lemma_filter_distinct(types: Seq<TypeDef>, test: spec_fn(TypeDef) -> bool)
    requires
        distinct_names(types),
    ensures
        distinct_names(types.filter(test)),
    decreases types.len(),
{
    reveal(Seq::filter);
    if types.len() > 0 {
        let fewer = types.drop_last();
        lemma_filter_distinct(fewer, test);
        let kept = fewer.filter(test);
        assert forall|i: int| 0 <= i < kept.len() implies (#[trigger] kept[i]).name
            != types.last().name by {
            fewer.lemma_filter_contains_rev(test, kept[i]);
            let j = choose|j: int| 0 <= j < fewer.len() && fewer[j] == kept[i];
            assert(kept[i] == types[j]);
        }
    }
}

/// After a type is registered, its name leads to it, and every other name
/// leads where it led before.
pub proof fn lemma_registered_lookup(types: Seq<TypeDef>, added: TypeDef, name: Seq<char>)
    ensures
        lookup(registered(types, added), name) == if name == added.name {
            Some(added)
        } else {
            lookup(types, name)
        },
{
    let others = |t: TypeDef| t.name != added.name;
    let bears = |t: TypeDef| t.name == name;
    let kept = types.filter(others);
    kept.lemma_filter_push(added, bears);
    if name != added.name {
        lemma_filter_twice(types, others, bears);
    }
}

/// Registering a name again moves it to the end: of a type, another one and
/// a third that bears the name of the first, registered in this order, the
/// second and the third stay, in this order.
pub proof fn lemma_registered_again(first: TypeDef, other: TypeDef, again: TypeDef)
    requires
        first.name == again.name,
        other.name != first.name,
    ensures
        registered_all(Seq::empty(), seq![first, other, again]) == seq![other, again],
{
    let none = Seq::<TypeDef>::empty();
    let all = seq![first, other, again];
    assert(all.drop_last() =~= seq![first, other]);
    assert(all.drop_last().drop_last() =~= seq![first]);
    assert(seq![first].drop_last() =~= none);
    assert(registered_all(none, none) == none);
    assert(registered_all(none, seq![first]) == registered(none, first));
    assert(registered_all(none, seq![first, other]) == registered(registered(none, first), other));
    lemma_filter_none(none, |t: TypeDef| t.name != first.name);
    lemma_filter_all(seq![first], |t: TypeDef| t.name != other.name);
    let others = |t: TypeDef| t.name != again.name;
    seq![first].lemma_filter_push(other, others);
    lemma_filter_none(seq![first], others);
}

/// Whether `map` leads from every name to the type that `types` holds under
/// it, and `types` holds no name twice.
spec fn in_step(types: Seq<TypeDef>, map: Map<Seq<char>, Type>) -> bool {
    &&& distinct_names(types)
    &&& forall|name: Seq<char>| #[trigger]
        map.contains_key(name) <==> lookup(types, name) is Some
    &&& forall|name: Seq<char>| #[trigger]
        map.contains_key(name) ==> lookup(types, name) == Some(map[name]@)
}

/// The types of `list` that do not bear `name`.
fn without(list: &Vec<Type>, name: &String) -> (others: Vec<Type>)
    ensures
        others.deep_view() == list.deep_view().filter(|t: TypeDef| t.name != name@),
{
    let mut others: Vec<Type> = Vec::new();
    let ghost other = |t: TypeDef| t.name != name@;
    let mut index: usize = 0;
    while index < list.len()
        invariant
            index <= list.len(),
            other == |t: TypeDef| t.name != name@,
            others.deep_view() == list.deep_view().take(index as int).filter(other),
        decreases list.len() - index,
    {
        proof {
            let seen = list.deep_view().take(index as int);
            assert(list.deep_view().take(index + 1) =~= seen.push(list[index as int]@));
            seen.lemma_filter_push(list[index as int]@, other);
        }
        if list[index].name != *name {
            others.push(list[index].clone());
        }
        index += 1;
    }
    proof {
        assert(list.deep_view().take(index as int) =~= list.deep_view());
    }
    others
}

/// Registers `added` in the list and in the map.
fn register(list: &mut Vec<Type>, map: &mut StringHashMap<Type>, added: Type)
    requires
        in_step(old(list).deep_view(), old(map)@),
    ensures
        in_step(final(list).deep_view(), final(map)@),
        final(list).deep_view() == registered(old(list).deep_view(), added@),
{
    let ghost types = list.deep_view();
    let ghost others = |t: TypeDef| t.name != added@.name;
    if map.contains_key(added.name.as_str()) {
        let kept = without(list, &added.name);
        *list = kept;
    } else {
        proof {
            lemma_lookup(types, added@.name);
            lemma_filter_all(types, others);
        }
    }
    let ghost kept = list.deep_view();
    list.push(added.clone());
    map.insert(added.name.clone(), added);
    proof {
        assert(list.deep_view() =~= kept.push(added@));
        lemma_registered_distinct(types, added@);
        assert forall|name: Seq<char>| #[trigger]
            map@.contains_key(name) <==> lookup(list.deep_view(), name) is Some by {
            lemma_registered_lookup(types, added@, name);
        }
        assert forall|name: Seq<char>| #[trigger] map@.contains_key(name) implies lookup(
            list.deep_view(),
            name,
        ) == Some(map@[name]@) by {
            lemma_registered_lookup(types, added@, name);
        }
    }
}

/// The registry: types in the order they were registered, none of them
/// twice under one name, and a map from each name to its type.
pub struct TypeList {
    map: StringHashMap<Type>,
    list: Vec<Type>,
}

impl View for TypeList {
    type V = Seq<TypeDef>;

    closed spec fn view(&self) -> Seq<TypeDef> {
        self.list.deep_view()
    }
}

impl TypeList {
    #[verifier::type_invariant]
    spec fn consistent(self) -> bool {
        in_step(self.list.deep_view(), self.map@)
    }

    /// A registry without types.
    pub fn new() -> (empty: Self)
        ensures
            empty@ == Seq::<TypeDef>::empty(),
    {
        let list: Vec<Type> = Vec::new();
        let map: StringHashMap<Type> = StringHashMap::new();
        proof {
            assert forall|name: Seq<char>| lookup(list.deep_view(), name) is None by {}
        }
        TypeList { map, list }
    }

    /// The registry in which the types of `list` were registered in turn.
    pub fn from(list: Vec<Type>) -> (instance: Self)
        ensures
            instance@ == registered_all(Seq::empty(), list.deep_view()),
    {
        let mut instance = TypeList::new();
        let mut index: usize = 0;
        while index < list.len()
            invariant
                index <= list.len(),
                instance@ == registered_all(Seq::empty(), list.deep_view().take(index as int)),
            decreases list.len() - index,
        {
            proof {
                let upto = list.deep_view().take(index + 1);
                assert(upto.drop_last() =~= list.deep_view().take(index as int));
            }
            instance.add_type(list[index].clone());
            index += 1;
        }
        proof {
            assert(list.deep_view().take(index as int) =~= list.deep_view());
        }
        instance
    }

    /// Registers `type_config`. What the registry held under the same name
    /// leaves its place, and the new type stands last.
    pub fn add_type(&mut self, type_config: Type)
        ensures
            final(self)@ == registered(old(self)@, type_config@),
    {
        proof {
            use_type_invariant(&*self);
        }
        let mut taken = TypeList::new();
        core::mem::swap(self, &mut taken);
        let TypeList { mut map, mut list } = taken;
        register(&mut list, &mut map, type_config);
        *self = TypeList { map, list };
    }

    /// Registers under `name` the type whose values are those that `pattern`
    /// matches in full.
    ///
    /// Fails with [`Error::Compile`] where the pattern does not compile, and
    /// only then; the registry is then left as it was.
    pub fn register(&mut self, name: &str, pattern: &str) -> (done: Result<(), Error>)
        ensures
            match done {
                Ok(_) => pattern_compiles(anchored(pattern@)) && final(self)@ == registered(
                    old(self)@,
                    TypeDef { name: name@, pattern: anchored(pattern@) },
                ),
                Err(e) => {
                    &&& !pattern_compiles(anchored(pattern@))
                    &&& e == Error::Compile
                    &&& final(self)@ == old(self)@
                },
            },
    {
        match Type::try_new(name, pattern) {
            Ok(type_config) => {
                self.add_type(type_config);
                Ok(())
            },
            Err(e) => Err(e),
        }
    }

    /// The types in order: each where its name was last registered.
    pub fn get_types_vec(&self) -> (list: &Vec<Type>)
        ensures
            list.deep_view() == self@,
            distinct_names(self@),
    {
        proof {
            use_type_invariant(self);
        }
        &self.list
    }

    /// The map from each name to the type it was last registered with.
    pub fn get_types_map(&self) -> (map: &StringHashMap<Type>)
        ensures
            forall|name: Seq<char>| #[trigger]
                map@.contains_key(name) <==> lookup(self@, name) is Some,
            forall|name: Seq<char>| #[trigger]
                map@.contains_key(name) ==> lookup(self@, name) == Some(map@[name]@),
    {
        proof {
            use_type_invariant(self);
        }
        &self.map
    }

    /// The type registered under `name`, if there is one.
    pub fn lookup_by_name(&self, name: &str) -> (found: Option<&Type>)
        ensures
            match found {
                Some(t) => lookup(self@, name@) == Some(t@),
                None => lookup(self@, name@) is None,
            },
    {
        proof {
            use_type_invariant(self);
        }
        self.map.get(name)
    }
}

impl Default for TypeList {
    fn default() -> (empty: Self)
        ensures
            empty@ == Seq::<TypeDef>::empty(),
    {
        TypeList::new()
    }
}

} // verus!
