//! The tree of sections that a parse produces.
use vstd::prelude::*;

verus! {

/// One key with everything recorded under it, oldest first.
#[derive(Debug)]
pub struct Entry<V> {
    pub key: String,
    pub values: Vec<V>,
}

/// What a mapping holds after `value` has been recorded under `key`: the
/// value is appended to the key's list, which starts empty for a new key.
pub open spec fn with_value<V>(m: Map<Seq<char>, Seq<V>>, key: Seq<char>, value: V) -> Map<
    Seq<char>,
    Seq<V>,
> {
    if m.contains_key(key) {
        m.insert(key, m[key].push(value))
    } else {
        m.insert(key, seq![value])
    }
}

/// What a mapping holds after each of `values` has been recorded under `key`,
/// the first of them first.
pub open spec fn with_values<V>(m: Map<Seq<char>, Seq<V>>, key: Seq<char>, values: Seq<V>) -> Map<
    Seq<char>,
    Seq<V>,
>
    decreases values.len(),
{
    if values.len() == 0 {
        m
    } else {
        with_value(with_values(m, key, values.drop_last()), key, values.last())
    }
}

/// Values recorded under one key are kept in the order in which they were
/// recorded, behind what the key held before, and no other key is touched.
pub proof fn lemma_values_in_call_order<V>(
    m: Map<Seq<char>, Seq<V>>,
    key: Seq<char>,
    values: Seq<V>,
)
    ensures
        values.len() > 0 ==> with_values(m, key, values).contains_key(key),
        values.len() > 0 && m.contains_key(key) ==> with_values(m, key, values)[key] == m[key]
            + values,
        values.len() > 0 && !m.contains_key(key) ==> with_values(m, key, values)[key] == values,
        with_values(m, key, values).remove(key) == m.remove(key),
    decreases values.len(),
{
    if values.len() > 0 {
        let front = values.drop_last();
        let last = values.last();
        lemma_values_in_call_order(m, key, front);
        assert(values =~= front.push(last));
        let before = with_values(m, key, front);
        let after = with_value(before, key, last);
        assert(after.remove(key) =~= before.remove(key));
        if front.len() == 0 {
            assert(values =~= seq![last]);
            if m.contains_key(key) {
                assert(m[key].push(last) =~= m[key] + values);
            }
        } else {
            if m.contains_key(key) {
                assert((m[key] + front).push(last) =~= m[key] + values);
            }
        }
    } else {
        assert(with_values(m, key, values).remove(key) =~= m.remove(key));
    }
}

/// What a mapping holds after each pair of `items`, a key and a value, has
/// been recorded in turn.
pub open spec fn with_items<V>(m: Map<Seq<char>, Seq<V>>, items: Seq<(Seq<char>, V)>) -> Map<
    Seq<char>,
    Seq<V>,
>
    decreases items.len(),
{
    if items.len() == 0 {
        m
    } else {
        with_value(with_items(m, items.drop_last()), items.last().0, items.last().1)
    }
}

/// The values that `items` pairs with `key`, in the order of `items`.
pub open spec fn values_under<V>(items: Seq<(Seq<char>, V)>, key: Seq<char>) -> Seq<V>
    decreases items.len(),
{
    if items.len() == 0 {
        Seq::empty()
    } else if items.last().0 == key {
        values_under(items.drop_last(), key).push(items.last().1)
    } else {
        values_under(items.drop_last(), key)
    }
}

/// Reading a mapping back gives exactly what was recorded: a mapping that
/// started empty holds the keys that were recorded, and under each of them
/// the values recorded under it, in the order in which they came.
pub proof fn lemma_read_back<V>(items: Seq<(Seq<char>, V)>, key: Seq<char>)
    ensures
        with_items(Map::empty(), items).contains_key(key) <==> values_under(items, key).len()
            > 0,
        with_items(Map::empty(), items).contains_key(key) ==> with_items(
            Map::empty(),
            items,
        )[key] == values_under(items, key),
    decreases items.len(),
{
    if items.len() > 0 {
        lemma_read_back(items.drop_last(), key);
    }
}

/// The key of the entry at position `i`.
pub open spec fn key_at<V>(entries: Seq<Entry<V>>, i: int) -> Seq<char> {
    entries[i].key@
}

/// No key has two entries.
pub open spec fn distinct_keys<V>(entries: Seq<Entry<V>>) -> bool {
    forall|i: int, j: int| 0 <= i < j < entries.len() ==> key_at(entries, i) != key_at(entries, j)
}

/// Some entry carries `key`.
pub open spec fn has_key<V>(entries: Seq<Entry<V>>, key: Seq<char>) -> bool {
    exists|i: int| 0 <= i < entries.len() && key_at(entries, i) == key
}

/// The position of the entry that carries `key`, where there is one.
pub open spec fn index_of<V>(entries: Seq<Entry<V>>, key: Seq<char>) -> int {
    choose|i: int| 0 <= i < entries.len() && key_at(entries, i) == key
}

/// The mapping that a list of entries stands for: each key with its values in
/// the order they came. The order of the keys themselves is forgotten.
pub open spec fn mapping<V>(entries: Seq<Entry<V>>) -> Map<Seq<char>, Seq<V>> {
    Map::new(
        |k: Seq<char>| has_key(entries, k),
        |k: Seq<char>| entries[index_of(entries, k)].values@,
    )
}

/// Where no key has two entries, the entry at `i` is the one its key maps to.
pub proof fn lemma_entry<V>(entries: Seq<Entry<V>>, i: int)
    requires
        distinct_keys(entries),
        0 <= i < entries.len(),
    ensures
        has_key(entries, key_at(entries, i)),
        index_of(entries, key_at(entries, i)) == i,
        mapping(entries).contains_key(key_at(entries, i)),
        mapping(entries)[key_at(entries, i)] == entries[i].values@,
{
}

/// Finds the entry that carries `key`.
pub fn position<V>(entries: &Vec<Entry<V>>, key: &String) -> (r: Option<usize>)
    ensures
        match r {
            Some(i) => i < entries.len() && key_at(entries@, i as int) == key@,
            None => !has_key(entries@, key@),
        },
{
    let mut i: usize = 0;
    while i < entries.len()
        invariant
            i <= entries.len(),
            forall|j: int| 0 <= j < i ==> key_at(entries@, j) != key@,
        decreases entries.len() - i,
    {
        if entries[i].key == *key {
            return Some(i);
        }
        i += 1;
    }
    None
}

/// The values recorded under `key`, oldest first.
pub fn lookup<'a, V>(entries: &'a Vec<Entry<V>>, key: &String) -> (r: Option<&'a Vec<V>>)
    requires
        distinct_keys(entries@),
    ensures
        match r {
            Some(values) => mapping(entries@).contains_key(key@) && values@ == mapping(
                entries@,
            )[key@],
            None => !mapping(entries@).contains_key(key@),
        },
{
    match position(entries, key) {
        Some(i) => {
            proof {
                lemma_entry(entries@, i as int);
            }
            Some(&entries[i].values)
        },
        None => None,
    }
}

/// Records `value` under `key`, behind what the key already holds.
pub fn record<V>(entries: &mut Vec<Entry<V>>, key: String, value: V)
    requires
        distinct_keys(old(entries)@),
    ensures
        distinct_keys(final(entries)@),
        mapping(final(entries)@) == with_value(mapping(old(entries)@), key@, value),
        has_key(old(entries)@, key@) ==> {
            let i = index_of(old(entries)@, key@);
            &&& final(entries).len() == old(entries).len()
            &&& forall|j: int|
                0 <= j < old(entries).len() && j != i ==> final(entries)[j] == old(entries)[j]
            &&& final(entries)[i].key == old(entries)[i].key
            &&& final(entries)[i].values@ == old(entries)[i].values@.push(value)
        },
        !has_key(old(entries)@, key@) ==> {
            let n = old(entries).len() as int;
            &&& final(entries).len() == n + 1
            &&& forall|j: int| 0 <= j < n ==> final(entries)[j] == old(entries)[j]
            &&& final(entries)[n].key == key
            &&& final(entries)[n].values@ == seq![value]
        },
{
    let ghost before = entries@;
    let ghost n = entries.len() as int;
    match position(entries, &key) {
        Some(i) => {
            proof {
                lemma_entry(before, i as int);
            }
            entries[i].values.push(value);
            proof {
                let after = entries@;
                assert(forall|j: int| 0 <= j < n ==> key_at(after, j) == key_at(before, j));
                assert(distinct_keys(after));
                assert forall|k: Seq<char>| has_key(after, k) == has_key(before, k) by {
                    if has_key(before, k) {
                        assert(key_at(after, index_of(before, k)) == k);
                    }
                    if has_key(after, k) {
                        assert(key_at(before, index_of(after, k)) == k);
                    }
                }
                assert forall|k: Seq<char>| has_key(after, k) implies mapping(after)[k]
                    == with_value(mapping(before), key@, value)[k] by {
                    let j = index_of(after, k);
                    lemma_entry(after, j);
                    lemma_entry(before, j);
                }
                assert(mapping(after) =~= with_value(mapping(before), key@, value));
            }
        },
        None => {
            let mut values: Vec<V> = Vec::new();
            values.push(value);
            entries.push(Entry { key, values });
            proof {
                let after = entries@;
                assert(forall|j: int| 0 <= j < n ==> key_at(after, j) == key_at(before, j));
                assert(key_at(after, n) == key@);
                assert(distinct_keys(after));
                assert forall|k: Seq<char>| has_key(after, k) == (has_key(before, k) || k
                    == key@) by {
                    if has_key(before, k) {
                        assert(key_at(after, index_of(before, k)) == k);
                    }
                    if k == key@ {
                        assert(key_at(after, n) == k);
                    }
                    if has_key(after, k) && index_of(after, k) < n {
                        assert(key_at(before, index_of(after, k)) == k);
                    }
                }
                assert forall|k: Seq<char>| has_key(after, k) implies mapping(after)[k]
                    == with_value(mapping(before), key@, value)[k] by {
                    let j = index_of(after, k);
                    lemma_entry(after, j);
                    if j < n {
                        lemma_entry(before, j);
                    }
                }
                assert(mapping(after) =~= with_value(mapping(before), key@, value));
            }
        },
    }
}

/// `dst` holds, position by position, what `f` makes of the values of `src`.
pub open spec fn list_mapped<T, U, F: Fn(T) -> U>(src: Seq<T>, f: F, dst: Seq<U>) -> bool {
    &&& dst.len() == src.len()
    &&& forall|j: int| 0 <= j < src.len() ==> call_ensures(f, (src[j],), #[trigger] dst[j])
}

/// `f` may be called on each value of the list.
pub open spec fn list_accepted<T, U, F: Fn(T) -> U>(src: Seq<T>, f: F) -> bool {
    forall|j: int| 0 <= j < src.len() ==> call_requires(f, (#[trigger] src[j],))
}

/// `f` may be called on each value of each entry.
pub open spec fn entries_accepted<T, U, F: Fn(T) -> U>(src: Seq<Entry<T>>, f: F) -> bool {
    forall|i: int| 0 <= i < src.len() ==> list_accepted((#[trigger] src[i]).values@, f)
}

/// `dst` has the entries of `src` in the same order and under the same keys,
/// each value replaced by what `f` makes of it.
pub open spec fn entries_mapped<T, U, F: Fn(T) -> U>(
    src: Seq<Entry<T>>,
    f: F,
    dst: Seq<Entry<U>>,
) -> bool {
    &&& dst.len() == src.len()
    &&& forall|i: int|
        0 <= i < src.len() ==> (#[trigger] dst[i]).key@ == src[i].key@ && list_mapped(
            src[i].values@,
            f,
            dst[i].values@,
        )
}

/// Entries that are mapped position by position stand for mappings with the
/// same keys, and under each key for lists mapped position by position.
pub proof fn lemma_entries_mapped<T, U, F: Fn(T) -> U>(
    src: Seq<Entry<T>>,
    f: F,
    dst: Seq<Entry<U>>,
)
    requires
        distinct_keys(src),
        entries_mapped(src, f, dst),
    ensures
        distinct_keys(dst),
        mapping(dst).dom() == mapping(src).dom(),
        forall|k: Seq<char>| #[trigger]
            mapping(src).contains_key(k) ==> list_mapped(mapping(src)[k], f, mapping(dst)[k]),
{
    lemma_same_keys(src, dst);
    assert forall|k: Seq<char>| #[trigger] mapping(src).contains_key(k) implies list_mapped(
        mapping(src)[k],
        f,
        mapping(dst)[k],
    ) by {
        let i = index_of(src, k);
        lemma_entry(src, i);
        lemma_entry(dst, i);
    }
}

/// Two lists of entries with the same keys at the same positions stand for
/// mappings with the same keys, and each key is found at the same position
/// in both.
pub proof fn lemma_same_keys<T, U>(src: Seq<Entry<T>>, dst: Seq<Entry<U>>)
    requires
        distinct_keys(src),
        dst.len() == src.len(),
        forall|i: int| 0 <= i < src.len() ==> (#[trigger] dst[i]).key@ == src[i].key@,
    ensures
        distinct_keys(dst),
        mapping(dst).dom() == mapping(src).dom(),
        forall|k: Seq<char>| #[trigger]
            has_key(src, k) ==> has_key(dst, k) && index_of(dst, k) == index_of(src, k),
{
    assert(forall|i: int| 0 <= i < src.len() ==> key_at(dst, i) == key_at(src, i));
    assert forall|k: Seq<char>| has_key(dst, k) == has_key(src, k) by {
        if has_key(src, k) {
            assert(key_at(dst, index_of(src, k)) == k);
        }
        if has_key(dst, k) {
            assert(key_at(src, index_of(dst, k)) == k);
        }
    }
    assert(mapping(dst).dom() =~= mapping(src).dom());
    assert forall|k: Seq<char>| #[trigger] has_key(src, k) implies index_of(dst, k) == index_of(
        src,
        k,
    ) by {
        let i = index_of(src, k);
        lemma_entry(src, i);
        lemma_entry(dst, i);
    }
}

/// Applies `f` to each value of a list, in order.
fn map_list<T, U, F: Fn(T) -> U>(values: Vec<T>, f: &F) -> (r: Vec<U>)
    requires
        list_accepted(values@, *f),
    ensures
        list_mapped(values@, *f, r@),
{
    let ghost src = values@;
    let mut out: Vec<U> = Vec::new();
    for v in it: values.into_iter()
        invariant
            it.seq() == src,
            out.len() == it.index(),
            forall|j: int| 0 <= j < out.len() ==> call_ensures(*f, (src[j],), #[trigger] out@[j]),
            list_accepted(src, *f),
    {
        assert(v == src[it.index()]);
        out.push(f(v));
    }
    out
}

/// Applies `f` to each value of each entry, keeping keys and order.
fn map_entries<T, U, F: Fn(T) -> U>(entries: Vec<Entry<T>>, f: &F) -> (r: Vec<Entry<U>>)
    requires
        entries_accepted(entries@, *f),
    ensures
        entries_mapped(entries@, *f, r@),
{
    let ghost src = entries@;
    let mut out: Vec<Entry<U>> = Vec::new();
    for e in it: entries.into_iter()
        invariant
            it.seq() == src,
            out.len() == it.index(),
            forall|i: int|
                0 <= i < out.len() ==> (#[trigger] out@[i]).key@ == src[i].key@ && list_mapped(
                    src[i].values@,
                    *f,
                    out@[i].values@,
                ),
            entries_accepted(src, *f),
    {
        assert(e == src[it.index()]);
        let Entry { key, values } = e;
        let mapped = map_list(values, f);
        out.push(Entry { key, values: mapped });
    }
    out
}

/// Transforms each section of a list, in order.
fn map_sections<T, U, F: Fn(T) -> U>(children: Vec<MultiSection<T>>, f: &F) -> (r: Vec<
    MultiSection<U>,
>)
    requires
        forall|j: int| 0 <= j < children.len() ==> (#[trigger] children[j]).accepts(*f),
    ensures
        r.len() == children.len(),
        forall|j: int| 0 <= j < children.len() ==> (#[trigger] children[j]).mapped_to(*f, r[j]),
        forall|j: int| 0 <= j < children.len() && children[j].wf() ==> (#[trigger] r[j]).wf(),
    decreases children,
{
    let ghost src = children@;
    let mut out: Vec<MultiSection<U>> = Vec::new();
    for c in it: children.into_iter()
        invariant
            it.seq() == src,
            src == children@,
            out.len() == it.index(),
            forall|j: int| 0 <= j < out.len() ==> (#[trigger] src[j]).mapped_to(*f, out[j]),
            forall|j: int| 0 <= j < out.len() && src[j].wf() ==> (#[trigger] out[j]).wf(),
            forall|j: int| 0 <= j < src.len() ==> (#[trigger] src[j]).accepts(*f),
    {
        assert(c == children[it.index()]);
        let mapped = c.map(f);
        out.push(mapped);
    }
    out
}

/// A section of a configuration: its fields, and the sections nested in it.
///
/// Both are kept by key, and a key may carry several values or several
/// subsections; their order under one key is the order in which they came.
#[derive(Debug)]
pub struct MultiSection<T> {
    pub keys: Vec<Entry<T>>,
    pub sec: Vec<Entry<MultiSection<T>>>,
}

impl<T> MultiSection<T> {
    /// Neither the fields nor the subsections list a key twice, and the same
    /// holds in every section below this one.
    pub open spec fn wf(self) -> bool
        decreases self,
    {
        &&& distinct_keys(self.keys@)
        &&& distinct_keys(self.sec@)
        &&& forall|i: int, j: int|
            0 <= i < self.sec.len() && 0 <= j < self.sec[i].values.len() ==> (
            #[trigger] self.sec[i].values[j]).wf()
    }

    /// The fields: each key with its values, oldest first.
    pub open spec fn fields(self) -> Map<Seq<char>, Seq<T>> {
        mapping(self.keys@)
    }

    /// The subsections: each key with the sections under it, oldest first.
    pub open spec fn subsections(self) -> Map<Seq<char>, Seq<MultiSection<T>>> {
        mapping(self.sec@)
    }

    /// A section with no field and no subsection.
    pub fn new() -> (r: Self)
        ensures
            r.wf(),
            r.keys@.len() == 0,
            r.sec@.len() == 0,
            r.fields() == Map::<Seq<char>, Seq<T>>::empty(),
            r.subsections() == Map::<Seq<char>, Seq<MultiSection<T>>>::empty(),
    {
        let r = MultiSection { keys: Vec::new(), sec: Vec::new() };
        assert(r.fields() =~= Map::<Seq<char>, Seq<T>>::empty());
        assert(r.subsections() =~= Map::<Seq<char>, Seq<MultiSection<T>>>::empty());
        r
    }

    /// The fields of this section, one entry for each key.
    pub fn get_kv(&self) -> (r: &Vec<Entry<T>>)
        ensures
            *r == self.keys,
            mapping(r@) == self.fields(),
            self.wf() ==> distinct_keys(r@),
    {
        &self.keys
    }

    /// The sections nested directly in this one, one entry for each key.
    pub fn get_subsections(&self) -> (r: &Vec<Entry<MultiSection<T>>>)
        ensures
            *r == self.sec,
            mapping(r@) == self.subsections(),
            self.wf() ==> distinct_keys(r@),
    {
        &self.sec
    }
    /// `pred` holds of every value of this section and of every section below
    /// it.
    pub open spec fn all_values(self, pred: spec_fn(T) -> bool) -> bool
        decreases self,
    {
        &&& forall|i: int, j: int|
            0 <= i < self.keys.len() && 0 <= j < self.keys[i].values.len() ==> pred(
                #[trigger] self.keys[i].values[j],
            )
        &&& forall|i: int, j: int|
            0 <= i < self.sec.len() && 0 <= j < self.sec[i].values.len() ==> (
            #[trigger] self.sec[i].values[j]).all_values(pred)
    }

    /// `dst` has the shape of this section, with the same keys in the same
    /// order at every level, and each value of `dst` stands in `rel` to the
    /// value at its place here.
    pub open spec fn related<U>(self, dst: MultiSection<U>, rel: spec_fn(T, U) -> bool) -> bool
        decreases self,
    {
        &&& dst.keys.len() == self.keys.len()
        &&& forall|i: int|
            0 <= i < self.keys.len() ==> (#[trigger] dst.keys[i]).key@ == self.keys[i].key@
                && dst.keys[i].values.len() == self.keys[i].values.len()
        &&& forall|i: int, j: int|
            0 <= i < self.keys.len() && 0 <= j < self.keys[i].values.len() ==> rel(
                self.keys[i].values[j],
                #[trigger] dst.keys[i].values[j],
            )
        &&& dst.sec.len() == self.sec.len()
        &&& forall|i: int|
            0 <= i < self.sec.len() ==> (#[trigger] dst.sec[i]).key@ == self.sec[i].key@
                && dst.sec[i].values.len() == self.sec[i].values.len()
        &&& forall|i: int, j: int|
            0 <= i < self.sec.len() && 0 <= j < self.sec[i].values.len() ==> (
            #[trigger] self.sec[i].values[j]).related(dst.sec[i].values[j], rel)
    }

    /// `f` may be called on every value of this section and of every section
    /// below it.
    pub open spec fn accepts<U, F: Fn(T) -> U>(self, f: F) -> bool {
        self.all_values(|t: T| call_requires(f, (t,)))
    }

    /// `dst` has the shape of this section, with the same keys in the same
    /// order at every level, and each value replaced by what `f` makes of it.
    pub open spec fn mapped_to<U, F: Fn(T) -> U>(self, f: F, dst: MultiSection<U>) -> bool {
        self.related(dst, |t: T, u: U| call_ensures(f, (t,), u))
    }

    /// A function that may be called on any value at all may be called on
    /// every value of a section.
    pub proof fn lemma_accepts_all<U, F: Fn(T) -> U>(self, f: F)
        requires
            forall|t: T| call_requires(f, (t,)),
        ensures
            self.accepts(f),
    {
        self.lemma_all_values(|t: T| call_requires(f, (t,)));
    }

    /// What holds of any value at all holds of every value of a section.
    pub proof fn lemma_all_values(self, pred: spec_fn(T) -> bool)
        requires
            forall|t: T| #[trigger] pred(t),
        ensures
            self.all_values(pred),
        decreases self,
    {
        assert forall|i: int, j: int|
            0 <= i < self.sec.len() && 0 <= j < self.sec[i].values.len() implies (
        #[trigger] self.sec[i].values[j]).all_values(pred) by {
            self.sec[i].values[j].lemma_all_values(pred);
        }
    }

    /// A section that is mapped to another has the same field keys and the
    /// same subsection keys as the other; under each field key the values
    /// correspond in order, and under each subsection key the sections do,
    /// each mapped in the same way.
    pub proof fn lemma_mapped_shape<U, F: Fn(T) -> U>(self, f: F, dst: MultiSection<U>)
        requires
            self.wf(),
            self.mapped_to(f, dst),
        ensures
            dst.fields().dom() == self.fields().dom(),
            forall|k: Seq<char>| #[trigger]
                self.fields().contains_key(k) ==> list_mapped(
                    self.fields()[k],
                    f,
                    dst.fields()[k],
                ),
            dst.subsections().dom() == self.subsections().dom(),
            forall|k: Seq<char>| #[trigger]
                self.subsections().contains_key(k) ==> dst.subsections()[k].len()
                    == self.subsections()[k].len(),
            forall|k: Seq<char>, j: int|
                self.subsections().contains_key(k) && 0 <= j < self.subsections()[k].len() ==> (
                #[trigger] self.subsections()[k][j]).mapped_to(f, dst.subsections()[k][j]),
    {
        lemma_entries_mapped(self.keys@, f, dst.keys@);
        lemma_same_keys(self.sec@, dst.sec@);
        assert forall|k: Seq<char>| #[trigger] self.subsections().contains_key(k) implies {
            &&& dst.subsections()[k].len() == self.subsections()[k].len()
            &&& forall|j: int|
                0 <= j < self.subsections()[k].len() ==> (
                #[trigger] self.subsections()[k][j]).mapped_to(f, dst.subsections()[k][j])
        } by {
            let i = index_of(self.sec@, k);
            lemma_entry(self.sec@, i);
            lemma_entry(dst.sec@, i);
            assert forall|j: int| 0 <= j < self.subsections()[k].len() implies (
            #[trigger] self.subsections()[k][j]).mapped_to(f, dst.subsections()[k][j]) by {
                assert(self.sec[i].values[j].mapped_to(f, dst.sec[i].values[j]));
            }
        }
    }

    /// Builds the section of the same shape in which `f` has been applied to
    /// every value, here and in every section below.
    pub fn map<U, F: Fn(T) -> U>(self, f: &F) -> (r: MultiSection<U>)
        requires
            self.accepts(*f) || forall|t: T| call_requires(*f, (t,)),
        ensures
            self.mapped_to(*f, r),
            self.wf() ==> r.wf(),
        decreases self,
    {
        let ghost src = self;
        proof {
            if forall|t: T| call_requires(*f, (t,)) {
                self.lemma_accepts_all(*f);
            }
        }
        let MultiSection { keys, sec } = self;
        let out_keys = map_entries(keys, f);
        let mut out_sec: Vec<Entry<MultiSection<U>>> = Vec::new();
        for e in it: sec.into_iter()
            invariant
                src == self,
                it.seq() == src.sec@,
                out_sec.len() == it.index(),
                forall|i: int|
                    0 <= i < out_sec.len() ==> (#[trigger] out_sec[i]).key@ == src.sec[i].key@
                        && out_sec[i].values.len() == src.sec[i].values.len(),
                forall|i: int, j: int|
                    0 <= i < out_sec.len() && 0 <= j < src.sec[i].values.len() ==> (
                    #[trigger] src.sec[i].values[j]).mapped_to(*f, out_sec[i].values[j]),
                forall|i: int, j: int|
                    0 <= i < out_sec.len() && 0 <= j < src.sec[i].values.len()
                        && src.sec[i].values[j].wf() ==> (#[trigger] out_sec[i].values[j]).wf(),
                src.accepts(*f),
        {
            assert(e == src.sec[it.index()]);
            assert(decreases_to!(src.sec => src.sec[it.index()]));
            let Entry { key, values } = e;
            assert(decreases_to!(self => values));
            let mapped = map_sections(values, f);
            out_sec.push(Entry { key, values: mapped });
        }
        let r = MultiSection { keys: out_keys, sec: out_sec };
        proof {
            if src.wf() {
                assert(forall|i: int| 0 <= i < r.keys.len() ==> key_at(r.keys@, i) == key_at(src.keys@, i));
                assert(forall|i: int| 0 <= i < r.sec.len() ==> key_at(r.sec@, i) == key_at(src.sec@, i));
            }
        }
        r
    }
}

impl<T> Default for MultiSection<T> {
    /// A section with no field and no subsection.
    fn default() -> (r: Self)
        ensures
            r.wf(),
            r.keys@.len() == 0,
            r.sec@.len() == 0,
            r.fields() == Map::<Seq<char>, Seq<T>>::empty(),
            r.subsections() == Map::<Seq<char>, Seq<MultiSection<T>>>::empty(),
    {
        MultiSection::new()
    }
}

} // verus!
