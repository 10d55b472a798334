use vstd::prelude::*;

verus! {

/// A runtime value of the engine, isomorphic to a JSON value.
///
/// `Number` holds the number's decimal text as JSON writes it; `Object` holds
/// its entries in order, each key once (see `GqlValue::wf`).
#[derive(Debug)]
pub enum GqlValue {
    Null,
    Boolean(bool),
    Number(String),
    String(String),
    Enum(String),
    List(Vec<GqlValue>),
    Object(Vec<(String, GqlValue)>),
}

/// The keys of an entry list, in order.
pub open spec fn entry_keys(entries: Seq<(String, GqlValue)>) -> Seq<Seq<char>> {
    entries.map_values(|e: (String, GqlValue)| e.0@)
}

/// No key occurs twice in an entry list.
pub open spec fn keys_unique(entries: Seq<(String, GqlValue)>) -> bool {
    forall|i: int, j: int|
        0 <= i < j < entries.len() ==> entries[i].0@ != entries[j].0@
}

/// The position of `key` in an entry list, if it is there.
pub open spec fn entry_index(entries: Seq<(String, GqlValue)>, key: Seq<char>) -> Option<int> {
    if exists|i: int| 0 <= i < entries.len() && entries[i].0@ == key {
        Some(choose|i: int| 0 <= i < entries.len() && entries[i].0@ == key)
    } else {
        None
    }
}

/// The entry list after `insert_entry`: the value at an existing key is
/// replaced in place, and a new key goes to the end.
pub open spec fn inserted(
    entries: Seq<(String, GqlValue)>,
    key: String,
    value: GqlValue,
) -> Seq<(String, GqlValue)> {
    match entry_index(entries, key@) {
        Some(i) => entries.update(i, (entries[i].0, value)),
        None => entries.push((key, value)),
    }
}

/// The mathematical content of a `GqlValue`: strings as character sequences,
/// lists and objects as sequences.
pub enum ValueModel {
    Null,
    Boolean(bool),
    Number(Seq<char>),
    String(Seq<char>),
    Enum(Seq<char>),
    List(Seq<ValueModel>),
    Object(Seq<(Seq<char>, ValueModel)>),
}

/// The models of the first `n` items of a list.
pub open spec fn items_model(items: Seq<GqlValue>, n: int) -> Seq<ValueModel>
    decreases items, n,
{
    if n <= 0 || n > items.len() {
        Seq::empty()
    } else {
        items_model(items, n - 1).push(items[n - 1].model())
    }
}

/// The models of the first `n` entries of an object.
pub open spec fn entries_model(entries: Seq<(String, GqlValue)>, n: int) -> Seq<
    (Seq<char>, ValueModel),
>
    decreases entries, n,
{
    if n <= 0 || n > entries.len() {
        Seq::empty()
    } else {
        entries_model(entries, n - 1).push((entries[n - 1].0@, entries[n - 1].1.model()))
    }
}

impl GqlValue {
    /// This value's mathematical content.
    pub open spec fn model(&self) -> ValueModel
        decreases self, 0int,
    {
        match self {
            GqlValue::Null => ValueModel::Null,
            GqlValue::Boolean(b) => ValueModel::Boolean(*b),
            GqlValue::Number(n) => ValueModel::Number(n@),
            GqlValue::String(s) => ValueModel::String(s@),
            GqlValue::Enum(s) => ValueModel::Enum(s@),
            GqlValue::List(items) => ValueModel::List(items_model(items@, items@.len() as int)),
            GqlValue::Object(entries) => ValueModel::Object(
                entries_model(entries@, entries@.len() as int),
            ),
        }
    }
}

/// The model of a list's first `n` items depends on those items alone.
pub proof fn lemma_items_model_prefix(a: Seq<GqlValue>, b: Seq<GqlValue>, n: int)
    requires
        0 <= n <= a.len(),
        n <= b.len(),
        forall|i: int| 0 <= i < n ==> (#[trigger] a[i]).model() == b[i].model(),
    ensures
        items_model(a, n) == items_model(b, n),
    decreases n,
{
    if n > 0 {
        lemma_items_model_prefix(a, b, n - 1);
    }
}

/// The model of an object's first `n` entries depends on those entries alone.
pub proof fn lemma_entries_model_prefix(
    a: Seq<(String, GqlValue)>,
    b: Seq<(String, GqlValue)>,
    n: int,
)
    requires
        0 <= n <= a.len(),
        n <= b.len(),
        forall|i: int|
            0 <= i < n ==> (#[trigger] a[i]).0@ == b[i].0@ && a[i].1.model() == b[i].1.model(),
    ensures
        entries_model(a, n) == entries_model(b, n),
    decreases n,
{
    if n > 0 {
        lemma_entries_model_prefix(a, b, n - 1);
    }
}

/// The model of an object's first `n` entries has `n` entries, each the
/// model of the entry at its position.
pub proof fn lemma_entries_model_index(es: Seq<(String, GqlValue)>, n: int)
    requires
        0 <= n <= es.len(),
    ensures
        entries_model(es, n).len() == n,
        forall|j: int|
            0 <= j < n ==> #[trigger] entries_model(es, n)[j] == (es[j].0@, es[j].1.model()),
    decreases n,
{
    if n > 0 {
        lemma_entries_model_index(es, n - 1);
    }
}

/// The model of a list's first `n` items has `n` items, each the model of the
/// item at its position.
pub proof fn lemma_items_model_index(items: Seq<GqlValue>, n: int)
    requires
        0 <= n <= items.len(),
    ensures
        items_model(items, n).len() == n,
        forall|j: int| 0 <= j < n ==> #[trigger] items_model(items, n)[j] == items[j].model(),
    decreases n,
{
    if n > 0 {
        lemma_items_model_index(items, n - 1);
    }
}

/// The model of a whole entry list.
pub open spec fn object_model(es: Seq<(String, GqlValue)>) -> Seq<(Seq<char>, ValueModel)> {
    entries_model(es, es.len() as int)
}

/// Sets `key` to `m` in a modelled entry list: in place where the key is,
/// else at the end.
pub open spec fn model_insert(
    es: Seq<(Seq<char>, ValueModel)>,
    key: Seq<char>,
    m: ValueModel,
) -> Seq<(Seq<char>, ValueModel)> {
    if exists|i: int| 0 <= i < es.len() && es[i].0 == key {
        let i = choose|i: int| 0 <= i < es.len() && es[i].0 == key;
        es.update(i, (key, m))
    } else {
        es.push((key, m))
    }
}

/// Sets `key` to `value` in an entry list, as `model_insert` describes.
pub fn insert_value(entries: &mut Vec<(String, GqlValue)>, key: String, value: GqlValue)
    requires
        keys_unique(old(entries)@),
    ensures
        object_model(final(entries)@) == model_insert(
            object_model(old(entries)@),
            key@,
            value.model(),
        ),
        keys_unique(final(entries)@),
{
    let ghost es = entries@;
    let ghost m = object_model(es);
    proof {
        lemma_entries_model_index(es, es.len() as int);
    }
    match find_entry(entries, &key) {
        Some(i) => {
            let k = entries[i].0.clone();
            entries.set(i, (k, value));
            proof {
                lemma_entries_model_index(entries@, entries@.len() as int);
                assert(m[i as int].0 == key@);
                let c = choose|c: int| 0 <= c < m.len() && m[c].0 == key@;
                assert(es[c].0@ == key@);
                assert(c == i);
                assert(object_model(entries@) =~= m.update(i as int, (key@, value.model())));
            }
        },
        None => {
            entries.push((key, value));
            proof {
                lemma_entries_model_index(entries@, entries@.len() as int);
                assert(object_model(entries@) =~= m.push((key@, value.model())));
            }
        },
    }
}

impl Clone for GqlValue {
    fn clone(&self) -> (r: Self)
        ensures
            r.model() == self.model(),
        decreases self,
    {
        broadcast use vstd::std_specs::vec::group_vec_axioms;

        match self {
            GqlValue::Null => GqlValue::Null,
            GqlValue::Boolean(b) => GqlValue::Boolean(*b),
            GqlValue::Number(n) => GqlValue::Number(n.clone()),
            GqlValue::String(s) => GqlValue::String(s.clone()),
            GqlValue::Enum(s) => GqlValue::Enum(s.clone()),
            GqlValue::List(items) => {
                let mut out: Vec<GqlValue> = Vec::new();
                let mut i: usize = 0;
                while i < items.len()
                    invariant
                        i <= items.len(),
                        *self == GqlValue::List(*items),
                        out@.len() == i,
                        forall|j: int| 0 <= j < i ==> (#[trigger] out@[j]).model() == items@[j].model(),
                    decreases items.len() - i,
                {
                                        assert(decreases_to!(*self => self->List_0));
                    assert(decreases_to!(*items => items[i as int]));
                    assert(decreases_to!(*self => items[i as int]));
                    out.push(items[i].clone());
                    i = i + 1;
                }
                proof {
                    lemma_items_model_prefix(out@, items@, i as int);
                }
                GqlValue::List(out)
            },
            GqlValue::Object(entries) => {
                let mut out: Vec<(String, GqlValue)> = Vec::new();
                let mut i: usize = 0;
                while i < entries.len()
                    invariant
                        i <= entries.len(),
                        *self == GqlValue::Object(*entries),
                        out@.len() == i,
                        forall|j: int|
                            0 <= j < i ==> (#[trigger] out@[j]).0@ == entries@[j].0@
                                && out@[j].1.model() == entries@[j].1.model(),
                    decreases entries.len() - i,
                {
                                        assert(decreases_to!(*entries => entries[i as int]));
                    assert(decreases_to!(*self => self->Object_0));
                    assert(decreases_to!(entries[i as int] => entries[i as int].1));
                    assert(decreases_to!(*self => entries[i as int].1));
                    let v = entries[i].1.clone();
                    out.push((entries[i].0.clone(), v));
                    i = i + 1;
                }
                proof {
                    lemma_entries_model_prefix(out@, entries@, i as int);
                }
                GqlValue::Object(out)
            },
        }
    }
}

/// Finds the position of `key` in an entry list.
pub fn find_entry(entries: &Vec<(String, GqlValue)>, key: &String) -> (r: Option<usize>)
    ensures
        match r {
            Some(i) => i < entries@.len() && entries@[i as int].0@ == key@ && forall|j: int|
                0 <= j < i ==> entries@[j].0@ != key@,
            None => forall|i: int| 0 <= i < entries@.len() ==> entries@[i].0@ != key@,
        },
        keys_unique(entries@) ==> match r {
            Some(i) => entry_index(entries@, key@) == Some(i as int),
            None => entry_index(entries@, key@) is None,
        },
{
    let mut i: usize = 0;
    while i < entries.len()
        invariant
            i <= entries@.len(),
            forall|j: int| 0 <= j < i ==> entries@[j].0@ != key@,
        decreases entries.len() - i,
    {
        if entries[i].0 == *key {
            proof {
                if keys_unique(entries@) {
                    let k = choose|k: int| 0 <= k < entries@.len() && entries@[k].0@ == key@;
                    assert(k == i);
                }
            }
            return Some(i);
        }
        i = i + 1;
    }
    None
}

/// Sets `key` to `value` in an entry list: an existing entry keeps its
/// position and takes the new value; a new key is appended.
pub fn insert_entry(entries: &mut Vec<(String, GqlValue)>, key: String, value: GqlValue)
    requires
        keys_unique(old(entries)@),
    ensures
        final(entries)@ == inserted(old(entries)@, key, value),
        keys_unique(final(entries)@),
{
    match find_entry(entries, &key) {
        Some(i) => {
            let k = entries[i].0.clone();
            entries.set(i, (k, value));
        },
        None => {
            entries.push((key, value));
        },
    }
}

/// Builds an object from entries in order; a later entry with a key seen
/// before replaces that entry's value.
pub open spec fn object_of(entries: Seq<(String, GqlValue)>) -> Seq<(String, GqlValue)>
    decreases entries.len(),
{
    if entries.len() == 0 {
        Seq::empty()
    } else {
        inserted(object_of(entries.drop_last()), entries.last().0, entries.last().1)
    }
}

/// An object value made from `entries`, as `object_of` describes.
pub fn object_from_entries(entries: Vec<(String, GqlValue)>) -> (r: GqlValue)
    ensures
        r is Object,
        r->Object_0@ == object_of(entries@),
        keys_unique(r->Object_0@),
{
    let ghost all = entries@;
    let n: usize = entries.len();
    let mut rest = entries;
    let mut out: Vec<(String, GqlValue)> = Vec::new();
    let mut k: usize = 0;
    assert(object_of(all.subrange(0, 0)) =~= Seq::<(String, GqlValue)>::empty());
    while rest.len() > 0
        invariant
            k <= all.len(),
            n == all.len(),
            k + rest@.len() == all.len(),
            rest@ == all.subrange(k as int, all.len() as int),
            out@ == object_of(all.subrange(0, k as int)),
            keys_unique(out@),
        decreases rest.len(),
    {
        let (key, value) = rest.remove(0);
        insert_entry(&mut out, key, value);
        assert(all.subrange(0, k + 1).drop_last() =~= all.subrange(0, k as int));
        k = k + 1;
        assert(rest@ =~= all.subrange(k as int, all.len() as int));
    }
    assert(all.subrange(0, k as int) =~= all);
    GqlValue::Object(out)
}

/// An object with the single key `variant` holding `inner`: the shape of a
/// tagged variant that carries data.
pub fn variant_value(variant: String, inner: GqlValue) -> (r: GqlValue)
    ensures
        r is Object,
        r->Object_0@ == seq![(variant, inner)],
{
    let mut entries: Vec<(String, GqlValue)> = Vec::new();
    entries.push((variant, inner));
    GqlValue::Object(entries)
}

/// Values of variables supplied with a request, by name, each name once.
#[derive(Debug)]
pub struct Variables(pub Vec<(String, GqlValue)>);

impl Variables {
    /// The values, from a list in which a later entry for a name replaces an
    /// earlier one; no list gives no values.
    pub fn from_input(input: Option<Vec<(String, GqlValue)>>) -> (r: Self)
        ensures
            match input {
                Some(entries) => r.0@ == object_of(entries@),
                None => r.0@.len() == 0,
            },
            keys_unique(r.0@),
    {
        match input {
            Some(entries) => {
                let v = object_from_entries(entries);
                match v {
                    GqlValue::Object(es) => Variables(es),
                    _ => Variables(Vec::new()),
                }
            },
            None => Variables(Vec::new()),
        }
    }

    /// The value of the variable `name`.
    pub fn get(&self, name: &String) -> (r: Option<&GqlValue>)
        ensures
            match r {
                Some(v) => exists|i: int|
                    0 <= i < self.0@.len() && self.0@[i].0@ == name@ && self.0@[i].1 == *v,
                None => forall|i: int| 0 <= i < self.0@.len() ==> self.0@[i].0@ != name@,
            },
    {
        match find_entry(&self.0, name) {
            Some(i) => Some(&self.0[i].1),
            None => None,
        }
    }
}

impl Default for Variables {
    fn default() -> (r: Self)
        ensures
            r.0@.len() == 0,
    {
        Variables(Vec::new())
    }
}

/// The error of the conversion from host values to `GqlValue`.
#[derive(Debug)]
pub struct SerializerError(pub String);

impl SerializerError {
    /// The error's message.
    pub fn message(&self) -> (r: String)
        ensures
            r@ == self.0@,
    {
        self.0.clone()
    }
}

} // verus!
