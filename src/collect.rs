use vstd::prelude::*;

use crate::ast::{derefs, Directive, Field, FragmentDefinition, Selection, SelectionSet, Value};
use crate::text::same_text;
use crate::value::GqlValue;

verus! {

broadcast use vstd::seq_lib::group_seq_properties, vstd::set_lib::group_set_properties;

/// The value of the first entry with key `key`.
pub open spec fn lookup<V>(entries: Seq<(String, V)>, key: Seq<char>) -> Option<V>
    decreases entries.len(),
{
    if entries.len() == 0 {
        None
    } else if entries[0].0@ == key {
        Some(entries[0].1)
    } else {
        lookup(entries.drop_first(), key)
    }
}

/// The first entry with key `key`.
pub fn find_key<'a, V>(entries: &'a Vec<(String, V)>, key: &str) -> (r: Option<&'a V>)
    ensures
        match r {
            Some(v) => lookup(entries@, key@) == Some(*v),
            None => lookup(entries@, key@) is None,
        },
{
    let mut i: usize = 0;
    assert(entries@.subrange(0, entries@.len() as int) =~= entries@);
    while i < entries.len()
        invariant
            i <= entries@.len(),
            lookup(entries@, key@) == lookup(entries@.subrange(i as int, entries@.len() as int), key@),
        decreases entries.len() - i,
    {
        let ghost rest = entries@.subrange(i as int, entries@.len() as int);
        assert(rest.drop_first() =~= entries@.subrange(i + 1, entries@.len() as int));
        if same_text(entries[i].0.as_str(), key) {
            return Some(&entries[i].1);
        }
        i = i + 1;
    }
    None
}

/// The boolean that a directive argument gives: a boolean literal, or a
/// variable whose value is a boolean.
pub open spec fn flag_of(v: Value, vars: Seq<(String, GqlValue)>) -> Option<bool> {
    match v {
        Value::Boolean(b) => Some(b),
        Value::Variable(n) => match lookup(vars, n@) {
            Some(GqlValue::Boolean(b)) => Some(b),
            _ => None,
        },
        _ => None,
    }
}

/// `@skip` with a true `if`, or `@include` with a false `if`.
pub open spec fn excludes(d: Directive, vars: Seq<(String, GqlValue)>) -> bool {
    let flag = match lookup(d.arguments@, "if"@) {
        Some(v) => flag_of(v, vars),
        None => None,
    };
    (d.name@ == "skip"@ && flag == Some(true)) || (d.name@ == "include"@ && flag == Some(false))
}

/// No directive of the list excludes its selection.
pub open spec fn included(dirs: Seq<Directive>, vars: Seq<(String, GqlValue)>) -> bool {
    forall|i: int| 0 <= i < dirs.len() ==> !excludes(#[trigger] dirs[i], vars)
}

/// The directives written on a selection.
pub open spec fn selection_directives(s: Selection) -> Seq<Directive> {
    match s {
        Selection::Field(f) => f.directives@,
        Selection::FragmentSpread(f) => f.directives@,
        Selection::InlineFragment(f) => f.directives@,
    }
}

fn flag(v: &Value, vars: &Vec<(String, GqlValue)>) -> (r: Option<bool>)
    ensures
        r == flag_of(*v, vars@),
{
    match v {
        Value::Boolean(b) => Some(*b),
        Value::Variable(n) => match find_key(vars, n.as_str()) {
            Some(GqlValue::Boolean(b)) => Some(*b),
            _ => None,
        },
        _ => None,
    }
}

/// Whether the directives let their selection through, for the variables
/// `vars`: `@skip(if: true)` and `@include(if: false)` leave it out.
pub fn is_included(dirs: &Vec<Directive>, vars: &Vec<(String, GqlValue)>) -> (r: bool)
    ensures
        r == included(dirs@, vars@),
{
    let mut i: usize = 0;
    while i < dirs.len()
        invariant
            i <= dirs@.len(),
            forall|j: int| 0 <= j < i ==> !excludes(#[trigger] dirs@[j], vars@),
        decreases dirs.len() - i,
    {
        let d = &dirs[i];
        let f = match find_key(&d.arguments, "if") {
            Some(v) => flag(v, vars),
            None => None,
        };
        let skip = same_text(d.name.as_str(), "skip");
        let inclusion = same_text(d.name.as_str(), "include");
        if (skip && f == Some(true)) || (inclusion && f == Some(false)) {
            assert(excludes(dirs@[i as int], vars@));
            return false;
        }
        i = i + 1;
    }
    true
}

/// The first fragment definition named `name`.
pub open spec fn fragment_named(frags: Seq<FragmentDefinition>, name: Seq<char>) -> Option<
    FragmentDefinition,
>
    decreases frags.len(),
{
    if frags.len() == 0 {
        None
    } else if frags[0].name@ == name {
        Some(frags[0])
    } else {
        fragment_named(frags.drop_first(), name)
    }
}

/// The first fragment definition named `name`.
pub fn find_fragment<'a>(frags: &'a Vec<FragmentDefinition>, name: &str) -> (r: Option<
    &'a FragmentDefinition,
>)
    ensures
        match r {
            Some(f) => fragment_named(frags@, name@) == Some(*f),
            None => fragment_named(frags@, name@) is None,
        },
{
    let mut i: usize = 0;
    assert(frags@.subrange(0, frags@.len() as int) =~= frags@);
    while i < frags.len()
        invariant
            i <= frags@.len(),
            fragment_named(frags@, name@) == fragment_named(
                frags@.subrange(i as int, frags@.len() as int),
                name@,
            ),
        decreases frags.len() - i,
    {
        let ghost rest = frags@.subrange(i as int, frags@.len() as int);
        assert(rest.drop_first() =~= frags@.subrange(i + 1, frags@.len() as int));
        if same_text(frags[i].name.as_str(), name) {
            return Some(&frags[i]);
        }
        i = i + 1;
    }
    None
}

/// The size of a selection: one, plus the sizes of an inline fragment's items.
pub open spec fn selection_size(s: Selection) -> nat
    decreases s,
{
    match s {
        Selection::InlineFragment(inl) => 1 + items_size(inl.selection_set.items@),
        _ => 1,
    }
}

/// The total size of a sequence of selections.
pub open spec fn items_size(items: Seq<Selection>) -> nat
    decreases items,
{
    if items.len() == 0 {
        0
    } else {
        selection_size(items[0]) + items_size(items.subrange(1, items.len() as int))
    }
}

/// The size of two worklists one after the other is the sum of their sizes.
pub proof fn lemma_items_size_concat(a: Seq<Selection>, b: Seq<Selection>)
    ensures
        items_size(a + b) == items_size(a) + items_size(b),
    decreases a.len(),
{
    if a.len() > 0 {
        assert((a + b).subrange(1, (a + b).len() as int) =~= a.subrange(1, a.len() as int) + b);
        lemma_items_size_concat(a.subrange(1, a.len() as int), b);
    } else {
        assert(a + b =~= b);
    }
}

/// A worklist's size is its first selection's size plus the rest's.
pub proof fn lemma_items_size_front(work: Seq<Selection>)
    requires
        work.len() > 0,
    ensures
        items_size(work) == selection_size(work[0]) + items_size(
            work.subrange(1, work.len() as int),
        ),
        selection_size(work[0]) >= 1,
        work[0] is InlineFragment ==> selection_size(work[0]) == 1 + items_size(
            work[0]->InlineFragment_0.selection_set.items@,
        ),
{
}

/// The names of the fragment definitions.
pub open spec fn fragment_names(frags: Seq<FragmentDefinition>) -> Set<Seq<char>> {
    frags.map_values(|f: FragmentDefinition| f.name@).to_set()
}

/// How many fragment names are not yet visited.
pub open spec fn unvisited(frags: Seq<FragmentDefinition>, visited: Set<Seq<char>>) -> nat {
    fragment_names(frags).difference(visited).len()
}

/// A fragment that can be found by name is among the fragment names.
pub proof fn lemma_fragment_named_in_names(frags: Seq<FragmentDefinition>, name: Seq<char>)
    requires
        fragment_named(frags, name) is Some,
    ensures
        fragment_names(frags).contains(name),
    decreases frags.len(),
{
    if frags[0].name@ == name {
        assert(frags.map_values(|f: FragmentDefinition| f.name@)[0] == name);
    } else {
        lemma_fragment_named_in_names(frags.drop_first(), name);
        let s = frags.drop_first().map_values(|f: FragmentDefinition| f.name@);
        let i = choose|i: int| 0 <= i < s.len() && s[i] == name;
        assert(frags.map_values(|f: FragmentDefinition| f.name@)[i + 1] == name);
    }
}

/// The fields that a worklist of selections yields, front first: a field
/// yields itself; an inline fragment yields its items in place; a spread of a
/// fragment not yet visited marks it visited and yields that fragment's
/// items in place; a spread of a visited fragment yields nothing, which
/// bounds the expansion even where fragments spread each other. A selection
/// that its directives exclude yields nothing.
pub open spec fn expand(
    frags: Seq<FragmentDefinition>,
    vars: Seq<(String, GqlValue)>,
    work: Seq<Selection>,
    visited: Set<Seq<char>>,
) -> Seq<Field>
    decreases unvisited(frags, visited), items_size(work),
{
    if work.len() == 0 {
        Seq::empty()
    } else {
        let head = work[0];
        let rest = work.subrange(1, work.len() as int);
        proof {
            lemma_items_size_front(work);
        }
        if !included(selection_directives(head), vars) {
            expand(frags, vars, rest, visited)
        } else {
            match head {
                Selection::Field(f) => seq![f] + expand(frags, vars, rest, visited),
                Selection::InlineFragment(inl) => {
                    proof {
                        lemma_items_size_concat(inl.selection_set.items@, rest);
                    }
                    expand(frags, vars, inl.selection_set.items@ + rest, visited)
                },
                Selection::FragmentSpread(sp) => {
                    if visited.contains(sp.fragment_name@) {
                        expand(frags, vars, rest, visited)
                    } else {
                        match fragment_named(frags, sp.fragment_name@) {
                            Some(fd) => {
                                proof {
                                    lemma_fragment_named_in_names(frags, sp.fragment_name@);
                                    fragment_names(frags).lemma_set_insert_diff_decreases(
                                        visited,
                                        sp.fragment_name@,
                                    );
                                }
                                expand(
                                    frags,
                                    vars,
                                    fd.selection_set.items@ + rest,
                                    visited.insert(sp.fragment_name@),
                                )
                            },
                            None => {
                                proof {
                                    lemma_unknown_fragment_unvisited(frags, visited, sp.fragment_name@);
                                }
                                expand(frags, vars, rest, visited.insert(sp.fragment_name@))
                            },
                        }
                    }
                },
            }
        }
    }
}

/// Marking a name that no fragment has leaves the unvisited count as it is.
pub proof fn lemma_unknown_fragment_unvisited(
    frags: Seq<FragmentDefinition>,
    visited: Set<Seq<char>>,
    name: Seq<char>,
)
    requires
        fragment_named(frags, name) is None,
    ensures
        unvisited(frags, visited.insert(name)) == unvisited(frags, visited),
{
    if fragment_names(frags).contains(name) {
        let s = frags.map_values(|f: FragmentDefinition| f.name@);
        let i = choose|i: int| 0 <= i < s.len() && s[i] == name;
        lemma_fragment_named_some(frags, i);
    }
    assert(fragment_names(frags).difference(visited.insert(name)) =~= fragment_names(
        frags,
    ).difference(visited));
}

/// Every fragment's name finds a fragment.
pub proof fn lemma_fragment_named_some(frags: Seq<FragmentDefinition>, i: int)
    requires
        0 <= i < frags.len(),
    ensures
        fragment_named(frags, frags[i].name@) is Some,
    decreases frags.len(),
{
    if i > 0 && frags[0].name@ != frags[i].name@ {
        lemma_fragment_named_some(frags.drop_first(), i - 1);
    }
}

/// The fields grouped by response key, in order of each key's first
/// appearance; each group keeps its fields in order.
pub open spec fn grouped(fields: Seq<Field>) -> Seq<(Seq<char>, Seq<Field>)>
    decreases fields.len(),
{
    if fields.len() == 0 {
        Seq::empty()
    } else {
        group_add(grouped(fields.drop_last()), fields.last())
    }
}

/// Adds a field to the group of its response key, or opens a group for it.
pub open spec fn group_add(groups: Seq<(Seq<char>, Seq<Field>)>, f: Field) -> Seq<
    (Seq<char>, Seq<Field>),
> {
    let key = f.spec_response_key();
    if exists|i: int| 0 <= i < groups.len() && groups[i].0 == key {
        let i = choose|i: int| 0 <= i < groups.len() && groups[i].0 == key;
        groups.update(i, (key, groups[i].1.push(f)))
    } else {
        groups.push((key, seq![f]))
    }
}

/// No response key has two groups.
pub open spec fn group_keys_unique(groups: Seq<(Seq<char>, Seq<Field>)>) -> bool {
    forall|i: int, j: int| 0 <= i < j < groups.len() ==> groups[i].0 != groups[j].0
}

/// The groups of a collection result, as keys and fields.
pub open spec fn groups_view<'a>(groups: Seq<(String, Vec<&'a Field>)>) -> Seq<
    (Seq<char>, Seq<Field>),
> {
    groups.map_values(|e: (String, Vec<&'a Field>)| (e.0@, derefs(e.1@)))
}

/// The fields that a selection set yields, grouped by response key.
pub open spec fn collected(
    frags: Seq<FragmentDefinition>,
    vars: Seq<(String, GqlValue)>,
    selection_set: SelectionSet,
) -> Seq<(Seq<char>, Seq<Field>)> {
    grouped(expand(frags, vars, selection_set.items@, Set::empty()))
}

fn add_to_groups<'a>(groups: &mut Vec<(String, Vec<&'a Field>)>, f: &'a Field)
    requires
        group_keys_unique(groups_view(old(groups)@)),
    ensures
        groups_view(final(groups)@) == group_add(groups_view(old(groups)@), *f),
        group_keys_unique(groups_view(final(groups)@)),
{
    let key = f.response_key();
    let ghost g = groups_view(groups@);
    let mut i: usize = 0;
    while i < groups.len()
        invariant
            i <= groups@.len(),
            g == groups_view(groups@),
            g == groups_view(old(groups)@),
            group_keys_unique(g),
            key@ == f.spec_response_key(),
            forall|j: int| 0 <= j < i ==> g[j].0 != key@,
        decreases groups.len() - i,
    {
        if groups[i].0 == *key {
            let ghost gs = groups@;
            let mut entry = groups.remove(i);
            let ghost old_fields = entry.1@;
            entry.1.push(f);
            assert(derefs(entry.1@) =~= derefs(old_fields).push(*f));
            groups.insert(i, entry);
            assert(groups@ =~= gs.update(i as int, entry));
            proof {
                assert(g[i as int].0 == key@);
                assert(key@ == f.spec_response_key());
                assert(0 <= i < g.len() && g[i as int].0 == f.spec_response_key());
                let c = choose|c: int| 0 <= c < g.len() && g[c].0 == f.spec_response_key();
                assert(g[c].0 == f.spec_response_key());
                assert(c == i);
                assert(group_add(g, *f) == g.update(i as int, (key@, g[i as int].1.push(*f))));
                assert(groups_view(groups@) =~= g.update(i as int, (key@, g[i as int].1.push(*f))));
            }
            return;
        }
        i = i + 1;
    }
    let ghost gs = groups@;
    let fields = vec![f];
    assert(derefs(fields@) =~= seq![*f]);
    groups.push((key.clone(), fields));
    assert(groups@ =~= gs.push(groups@.last()));
    assert(groups_view(groups@) =~= g.push((key@, seq![*f])));
}

/// References to the items of a selection set, in order.
pub fn item_refs<'a>(items: &'a Vec<Selection>) -> (r: Vec<&'a Selection>)
    ensures
        derefs(r@) == items@,
{
    let mut r: Vec<&'a Selection> = Vec::new();
    let mut i: usize = 0;
    while i < items.len()
        invariant
            i <= items@.len(),
            r@.len() == i,
            forall|j: int| 0 <= j < i ==> *r@[j] == items@[j],
        decreases items.len() - i,
    {
        r.push(&items[i]);
        i = i + 1;
    }
    assert(derefs(r@) =~= items@);
    r
}

/// Whether `name` is among the visited names.
fn is_visited(visited: &Vec<String>, name: &String) -> (r: bool)
    ensures
        r == visited@.map_values(|s: String| s@).to_set().contains(name@),
{
    let mut i: usize = 0;
    while i < visited.len()
        invariant
            i <= visited@.len(),
            forall|j: int| 0 <= j < i ==> visited@[j]@ != name@,
        decreases visited.len() - i,
    {
        if visited[i] == *name {
            assert(visited@.map_values(|s: String| s@)[i as int] == name@);
            return true;
        }
        i = i + 1;
    }
    proof {
        let m = visited@.map_values(|s: String| s@);
        if m.to_set().contains(name@) {
            let j = choose|j: int| 0 <= j < m.len() && #[trigger] m[j] == name@;
            assert(visited@[j]@ == name@);
        }
    }
    false
}

/// Collects the fields of a selection set by response key (alias, else
/// name), merging the fields that inline fragments and fragment spreads
/// bring in. Each fragment is expanded at most once, so mutually spreading
/// fragments end the expansion. Keys come in order of first appearance.
pub fn collect_fields<'a>(
    fragments: &'a Vec<FragmentDefinition>,
    variables: &Vec<(String, GqlValue)>,
    selection_set: &'a SelectionSet,
) -> (r: Vec<(String, Vec<&'a Field>)>)
    ensures
        groups_view(r@) == collected(fragments@, variables@, *selection_set),
{
    collect_items(fragments, variables, item_refs(&selection_set.items))
}

/// Collects the fields of a sequence of selections as `collect_fields` does
/// for one selection set.
pub fn collect_items<'a>(
    fragments: &'a Vec<FragmentDefinition>,
    variables: &Vec<(String, GqlValue)>,
    items: Vec<&'a Selection>,
) -> (r: Vec<(String, Vec<&'a Field>)>)
    ensures
        groups_view(r@) == grouped(expand(fragments@, variables@, derefs(items@), Set::empty())),
{
    let ghost frags = fragments@;
    let ghost vars = variables@;
    let ghost total = expand(frags, vars, derefs(items@), Set::empty());
    let mut work = items;
    let mut visited: Vec<String> = Vec::new();
    let mut groups: Vec<(String, Vec<&'a Field>)> = Vec::new();
    let ghost mut seen: Seq<Field> = Seq::empty();
    assert(visited@.map_values(|s: String| s@).to_set() =~= Set::<Seq<char>>::empty());
    assert(groups_view(groups@) =~= grouped(seen));
    while work.len() > 0
        invariant
            total == seen + expand(
                frags,
                vars,
                derefs(work@),
                visited@.map_values(|s: String| s@).to_set(),
            ),
            groups_view(groups@) == grouped(seen),
            group_keys_unique(groups_view(groups@)),
            frags == fragments@,
            vars == variables@,
        decreases
            unvisited(frags, visited@.map_values(|s: String| s@).to_set()),
            items_size(derefs(work@)),
    {
        let ghost vis = visited@.map_values(|s: String| s@).to_set();
        let ghost before = derefs(work@);
        proof {
            lemma_items_size_front(before);
        }
        let top = work.remove(0);
        assert(derefs(work@) =~= before.subrange(1, before.len() as int));
        let dirs = match top {
            Selection::Field(f) => &f.directives,
            Selection::FragmentSpread(f) => &f.directives,
            Selection::InlineFragment(f) => &f.directives,
        };
        if is_included(dirs, variables) {
            match top {
                Selection::Field(f) => {
                    add_to_groups(&mut groups, f);
                    proof {
                        assert(total == seen.push(*f) + expand(frags, vars, derefs(work@), vis)) by {
                            assert(seen + (seq![*f] + expand(frags, vars, derefs(work@), vis))
                                =~= seen.push(*f) + expand(frags, vars, derefs(work@), vis));
                        }
                        assert(seen.push(*f).drop_last() =~= seen);
                        seen = seen.push(*f);
                    }
                },
                Selection::InlineFragment(inl) => {
                    let mut next = item_refs(&inl.selection_set.items);
                    let ghost rest = derefs(work@);
                    next.append(&mut work);
                    work = next;
                    assert(derefs(work@) =~= inl.selection_set.items@ + rest);
                    proof {
                        lemma_items_size_concat(inl.selection_set.items@, rest);
                    }
                },
                Selection::FragmentSpread(sp) => {
                    if !is_visited(&visited, &sp.fragment_name) {
                        let ghost vs = visited@;
                        visited.push(sp.fragment_name.clone());
                        assert(visited@.map_values(|s: String| s@) =~= vs.map_values(
                            |s: String| s@,
                        ).push(sp.fragment_name@));
                        proof {
                            vs.map_values(|s: String| s@).lemma_push_to_set_commute(
                                sp.fragment_name@,
                            );
                        }
                        match find_fragment(fragments, sp.fragment_name.as_str()) {
                            Some(fd) => {
                                let mut next = item_refs(&fd.selection_set.items);
                                let ghost rest = derefs(work@);
                                next.append(&mut work);
                                work = next;
                                assert(derefs(work@) =~= fd.selection_set.items@ + rest);
                                proof {
                                    lemma_fragment_named_in_names(frags, sp.fragment_name@);
                                    fragment_names(frags).lemma_set_insert_diff_decreases(
                                        vis,
                                        sp.fragment_name@,
                                    );
                                }
                            },
                            None => {
                                proof {
                                    lemma_unknown_fragment_unvisited(frags, vis, sp.fragment_name@);
                                }
                            },
                        }
                    }
                },
            }
        }
    }
    assert(seen + expand(frags, vars, derefs(work@), visited@.map_values(|s: String| s@).to_set())
        =~= seen);
    groups
}

} // verus!
