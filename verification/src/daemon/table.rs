//! An ordered table of metric series.
use vstd::prelude::*;

use crate::text::{
    lemma_text_lt_irreflexive, lemma_text_lt_total, lemma_text_lt_transitive, less, same, text_lt,
};

verus! {

/// One device's identity, used as label values.
#[derive(Debug, Clone, PartialEq, Eq, PartialOrd, Ord)]
pub struct DeviceLabels {
    /// Model name from the device table, e.g. `Razer BlackWidow V4 Pro`.
    pub device: String,
    /// USB product id, rendered `0x028D`.
    pub pid: String,
}

/// What names one series: the device's labels, and a command or a reason.
#[verifier::ext_equal]
pub struct KeyText {
    /// The model name.
    pub device: Seq<char>,
    /// The product id.
    pub pid: Seq<char>,
    /// The command or reason; empty where a series has none.
    pub name: Seq<char>,
}

/// The name of one series.
#[derive(Debug)]
pub struct SeriesKey {
    /// The device.
    pub labels: DeviceLabels,
    /// The command or reason; empty where a series has none.
    pub name: String,
}

impl DeviceLabels {
    /// The key of this device under a command or reason.
    pub open spec fn key(&self, name: Seq<char>) -> KeyText {
        KeyText { device: self.device@, pid: self.pid@, name }
    }

    /// A copy of the labels.
    pub fn duplicate(&self) -> (labels: Self)
        ensures
            labels.device@ == self.device@,
            labels.pid@ == self.pid@,
    {
        DeviceLabels { device: self.device.clone(), pid: self.pid.clone() }
    }
}

impl View for SeriesKey {
    type V = KeyText;

    open spec fn view(&self) -> KeyText {
        self.labels.key(self.name@)
    }
}

impl SeriesKey {
    /// The key of a device under a command or reason.
    pub fn new(labels: &DeviceLabels, name: &str) -> (key: Self)
        ensures
            key@ == labels.key(name@),
    {
        SeriesKey { labels: labels.duplicate(), name: name.to_owned() }
    }

    /// Whether the two name the same series.
    fn is_same(&self, other: &SeriesKey) -> (r: bool)
        ensures
            r == (self@ == other@),
    {
        let r: bool = same(self.labels.device.as_str(), other.labels.device.as_str()) && same(
            self.labels.pid.as_str(),
            other.labels.pid.as_str(),
        ) && same(self.name.as_str(), other.name.as_str());
        assert(r ==> self@ =~= other@);
        r
    }

    /// Whether this series is listed before the other.
    fn is_before(&self, other: &SeriesKey) -> (r: bool)
        ensures
            r == key_lt(self@, other@),
    {
        if !same(self.labels.device.as_str(), other.labels.device.as_str()) {
            return less(self.labels.device.as_str(), other.labels.device.as_str());
        }
        if !same(self.labels.pid.as_str(), other.labels.pid.as_str()) {
            return less(self.labels.pid.as_str(), other.labels.pid.as_str());
        }
        less(self.name.as_str(), other.name.as_str())
    }
}

/// The order of series: by model name, then product id, then command or reason.
pub open spec fn key_lt(a: KeyText, b: KeyText) -> bool {
    if a.device != b.device {
        text_lt(a.device, b.device)
    } else if a.pid != b.pid {
        text_lt(a.pid, b.pid)
    } else {
        text_lt(a.name, b.name)
    }
}

/// The order is strict: nothing comes before itself, and of two different keys
/// exactly one comes first.
pub proof fn lemma_key_lt_total(a: KeyText, b: KeyText)
    ensures
        !key_lt(a, a),
        a == b || key_lt(a, b) || key_lt(b, a),
        !(key_lt(a, b) && key_lt(b, a)),
{
    lemma_text_lt_irreflexive(a.name);
    lemma_text_lt_total(a.device, b.device);
    lemma_text_lt_total(a.pid, b.pid);
    lemma_text_lt_total(a.name, b.name);
    if a.device == b.device && a.pid == b.pid && a.name == b.name {
        assert(a =~= b);
    }
}

/// The order is transitive.
pub proof fn lemma_key_lt_transitive(a: KeyText, b: KeyText, c: KeyText)
    requires
        key_lt(a, b),
        key_lt(b, c),
    ensures
        key_lt(a, c),
{
    lemma_text_lt_total(a.device, b.device);
    lemma_text_lt_total(b.device, c.device);
    lemma_text_lt_total(a.pid, b.pid);
    lemma_text_lt_total(b.pid, c.pid);
    if a.device != b.device && b.device != c.device {
        lemma_text_lt_transitive(a.device, b.device, c.device);
        lemma_text_lt_irreflexive(a.device);
    } else if a.device == b.device && b.device == c.device {
        if a.pid != b.pid && b.pid != c.pid {
            lemma_text_lt_transitive(a.pid, b.pid, c.pid);
            lemma_text_lt_irreflexive(a.pid);
        } else if a.pid == b.pid && b.pid == c.pid {
            lemma_text_lt_transitive(a.name, b.name, c.name);
        }
    }
}

/// Values by series, in ascending order of their keys, with no key twice.
#[derive(Debug)]
pub struct Table<V> {
    keys: Vec<SeriesKey>,
    values: Vec<V>,
}

impl<V> Table<V> {
    /// The rows, in order.
    pub closed spec fn rows(&self) -> Seq<(KeyText, V)> {
        Seq::new(self.keys@.len(), |i: int| (self.keys@[i]@, self.values@[i]))
    }

    /// One value per key, keys strictly ascending.
    pub closed spec fn wf(&self) -> bool {
        &&& self.keys@.len() == self.values@.len()
        &&& sorted(self.rows())
    }

    /// The rows of a well-formed table strictly ascend.
    pub proof fn lemma_rows_are_sorted(&self)
        requires
            self.wf(),
        ensures
            sorted(self.rows()),
    {
    }

    /// An empty table.
    pub fn new() -> (table: Self)
        ensures
            table.wf(),
            table.rows() == Seq::<(KeyText, V)>::empty(),
    {
        let table = Table { keys: Vec::new(), values: Vec::new() };
        assert(table.rows() =~= Seq::empty());
        table
    }

    /// How many rows there are.
    pub fn len(&self) -> (n: usize)
        ensures
            n == self.rows().len(),
    {
        self.keys.len()
    }

    /// The key of row `i`.
    pub fn key_at(&self, i: usize) -> (key: &SeriesKey)
        requires
            i < self.rows().len(),
        ensures
            key@ == self.rows()[i as int].0,
    {
        &self.keys[i]
    }

    /// The value of row `i`.
    pub fn value_at(&self, i: usize) -> (value: &V)
        requires
            self.wf(),
            i < self.rows().len(),
        ensures
            *value == self.rows()[i as int].1,
    {
        &self.values[i]
    }

    /// The row where `key` stands or would stand.
    fn position(&self, key: &SeriesKey) -> (at: usize)
        requires
            self.wf(),
        ensures
            at <= self.rows().len(),
            forall|k: int| 0 <= k < at ==> key_lt((#[trigger] self.rows()[k]).0, key@),
            at < self.rows().len() ==> !key_lt(self.rows()[at as int].0, key@),
    {
        let mut at: usize = 0;
        while at < self.keys.len()
            invariant
                self.wf(),
                at <= self.rows().len(),
                forall|k: int| 0 <= k < at ==> key_lt((#[trigger] self.rows()[k]).0, key@),
            decreases self.keys@.len() - at,
        {
            if !self.keys[at].is_before(key) {
                return at;
            }
            at = at + 1;
        }
        at
    }

    /// The value under `key`, if there is one.
    pub fn get(&self, key: &SeriesKey) -> (value: Option<&V>)
        requires
            self.wf(),
        ensures
            match value {
                Some(v) => lookup(self.rows(), key@) == Some(*v),
                None => lookup(self.rows(), key@) is None,
            },
    {
        let at: usize = self.position(key);
        if at < self.keys.len() && self.keys[at].is_same(key) {
            proof {
                lemma_lookup_finds(self.rows(), at as int);
            }
            return Some(&self.values[at]);
        }
        proof {
            lemma_absent(self.rows(), at as int, key@);
        }
        None
    }

    /// Sets the value under `key`, adding a row where there is none.
    pub fn set(&mut self, key: SeriesKey, value: V)
        requires
            old(self).wf(),
        ensures
            final(self).wf(),
            is_set(old(self).rows(), key@, value, final(self).rows()),
    {
        let at: usize = self.position(&key);
        let ghost before = self.rows();
        let ghost text = key@;
        let there: bool = at < self.keys.len() && self.keys[at].is_same(&key);
        if !there {
            proof {
                lemma_absent(before, at as int, text);
            }
            self.keys.insert(at, key);
            self.values.insert(at, value);
            proof {
                assert(self.rows() =~= before.insert(at as int, (text, value)));
                lemma_insert_keeps_sorted(before, at as int, text, value);
                lemma_insert_sets(before, at as int, text, value);
            }
        } else {
            self.keys.set(at, key);
            self.values.set(at, value);
            proof {
                assert(self.rows() =~= before.update(at as int, (text, value)));
                lemma_update_sets(before, at as int, value);
            }
        }
    }
}

/// Keys strictly ascend.
pub open spec fn sorted<V>(rows: Seq<(KeyText, V)>) -> bool {
    forall|i: int, j: int|
        0 <= i < j < rows.len() ==> key_lt((#[trigger] rows[i]).0, (#[trigger] rows[j]).0)
}

/// The value under `key`, if a row carries it.
pub open spec fn lookup<V>(rows: Seq<(KeyText, V)>, key: KeyText) -> Option<V> {
    if exists|i: int| 0 <= i < rows.len() && (#[trigger] rows[i]).0 == key {
        Some(rows[choose|i: int| 0 <= i < rows.len() && (#[trigger] rows[i]).0 == key].1)
    } else {
        None
    }
}

/// Whether `after` is `before` with `value` under `key` and nothing else
/// changed.
pub open spec fn is_set<V>(
    before: Seq<(KeyText, V)>,
    key: KeyText,
    value: V,
    after: Seq<(KeyText, V)>,
) -> bool {
    forall|k: KeyText| #[trigger]
        lookup(after, k) == (if k == key {
            Some(value)
        } else {
            lookup(before, k)
        })
}

/// A row is what its key looks up.
pub proof fn lemma_lookup_finds<V>(rows: Seq<(KeyText, V)>, at: int)
    requires
        sorted(rows),
        0 <= at < rows.len(),
    ensures
        lookup(rows, rows[at].0) == Some(rows[at].1),
{
    let key = rows[at].0;
    assert(rows[at].0 == key);
    let i = choose|i: int| 0 <= i < rows.len() && (#[trigger] rows[i]).0 == key;
    lemma_key_lt_total(key, key);
    if i < at {
        assert(key_lt(rows[i].0, rows[at].0));
    } else if at < i {
        assert(key_lt(rows[at].0, rows[i].0));
    }
}

/// A key that fits between two rows is in none.
proof fn lemma_absent<V>(rows: Seq<(KeyText, V)>, at: int, key: KeyText)
    requires
        sorted(rows),
        0 <= at <= rows.len(),
        forall|k: int| 0 <= k < at ==> key_lt((#[trigger] rows[k]).0, key),
        at < rows.len() ==> rows[at].0 != key && !key_lt(rows[at].0, key),
    ensures
        lookup(rows, key) is None,
        forall|k: int| at <= k < rows.len() ==> key_lt(key, (#[trigger] rows[k]).0),
{
    assert forall|k: int| at <= k < rows.len() implies key_lt(key, (#[trigger] rows[k]).0) by {
        lemma_key_lt_total(key, rows[at].0);
        if at < k {
            assert(key_lt(rows[at].0, rows[k].0));
            lemma_key_lt_transitive(key, rows[at].0, rows[k].0);
        }
    }
    assert forall|k: int| 0 <= k < rows.len() implies (#[trigger] rows[k]).0 != key by {
        lemma_key_lt_total(key, rows[k].0);
    }
}

/// Inserting a key where it fits keeps the rows sorted.
proof fn lemma_insert_keeps_sorted<V>(rows: Seq<(KeyText, V)>, at: int, key: KeyText, value: V)
    requires
        sorted(rows),
        0 <= at <= rows.len(),
        forall|k: int| 0 <= k < at ==> key_lt((#[trigger] rows[k]).0, key),
        forall|k: int| at <= k < rows.len() ==> key_lt(key, (#[trigger] rows[k]).0),
    ensures
        sorted(rows.insert(at, (key, value))),
{
    let out = rows.insert(at, (key, value));
    assert forall|i: int, j: int| 0 <= i < j < out.len() implies key_lt(
        (#[trigger] out[i]).0,
        (#[trigger] out[j]).0,
    ) by {
        let a = if i < at { i } else { i - 1 };
        let b = if j < at { j } else { j - 1 };
        if i != at && j != at {
            assert(key_lt(rows[a].0, rows[b].0));
        } else if i == at {
            assert(key_lt(key, rows[b].0));
        } else {
            assert(key_lt(rows[a].0, key));
        }
    }
}

/// Inserting a row for a new key sets that key and no other.
proof fn lemma_insert_sets<V>(rows: Seq<(KeyText, V)>, at: int, key: KeyText, value: V)
    requires
        sorted(rows),
        sorted(rows.insert(at, (key, value))),
        0 <= at <= rows.len(),
        lookup(rows, key) is None,
    ensures
        is_set(rows, key, value, rows.insert(at, (key, value))),
{
    let out = rows.insert(at, (key, value));
    assert forall|k: KeyText| #[trigger]
        lookup(out, k) == (if k == key {
            Some(value)
        } else {
            lookup(rows, k)
        }) by {
        if k == key {
            assert(out[at].0 == key);
            lemma_lookup_finds(out, at);
        } else if exists|i: int| 0 <= i < rows.len() && (#[trigger] rows[i]).0 == k {
            let i = choose|i: int| 0 <= i < rows.len() && (#[trigger] rows[i]).0 == k;
            let j = if i < at { i } else { i + 1 };
            assert(out[j] == rows[i]);
            lemma_lookup_finds(rows, i);
            lemma_lookup_finds(out, j);
        } else {
            assert forall|j: int| 0 <= j < out.len() implies (#[trigger] out[j]).0 != k by {
                if j < at {
                    assert(rows[j].0 != k);
                } else if j > at {
                    assert(rows[j - 1].0 != k);
                }
            }
        }
    }
}

/// Replacing the value of a row sets its key and no other.
proof fn lemma_update_sets<V>(rows: Seq<(KeyText, V)>, at: int, value: V)
    requires
        sorted(rows),
        0 <= at < rows.len(),
    ensures
        sorted(rows.update(at, (rows[at].0, value))),
        is_set(rows, rows[at].0, value, rows.update(at, (rows[at].0, value))),
{
    let key = rows[at].0;
    let out = rows.update(at, (key, value));
    assert forall|i: int, j: int| 0 <= i < j < out.len() implies key_lt(
        (#[trigger] out[i]).0,
        (#[trigger] out[j]).0,
    ) by {
        assert(key_lt(rows[i].0, rows[j].0));
    }
    assert forall|k: KeyText| #[trigger]
        lookup(out, k) == (if k == key {
            Some(value)
        } else {
            lookup(rows, k)
        }) by {
        if k == key {
            lemma_lookup_finds(out, at);
        } else if exists|i: int| 0 <= i < rows.len() && (#[trigger] rows[i]).0 == k {
            let i = choose|i: int| 0 <= i < rows.len() && (#[trigger] rows[i]).0 == k;
            assert(out[i] == rows[i]);
            lemma_lookup_finds(rows, i);
            lemma_lookup_finds(out, i);
        } else {
            assert forall|j: int| 0 <= j < out.len() implies (#[trigger] out[j]).0 != k by {
                assert(rows[j].0 != k);
            }
        }
    }
}

/// What a table looks up determines its rows: two sorted rows with the same
/// value under every key are the same rows.
pub proof fn law_lookups_determine_the_rows<V>(a: Seq<(KeyText, V)>, b: Seq<(KeyText, V)>)
    requires
        sorted(a),
        sorted(b),
        forall|k: KeyText| #[trigger] lookup(a, k) == lookup(b, k),
    ensures
        a == b,
    decreases a.len(),
{
    if a.len() == 0 {
        if b.len() > 0 {
            lemma_lookup_finds(b, 0);
            assert(lookup(a, b[0].0) is None);
        }
        assert(a =~= b);
    } else if b.len() == 0 {
        lemma_lookup_finds(a, 0);
        assert(lookup(b, a[0].0) is None);
    } else {
        let m = a.len() - 1;
        let n = b.len() - 1;
        let x = a.last().0;
        let y = b.last().0;
        lemma_lookup_finds(a, m);
        lemma_lookup_finds(b, n);
        assert(lookup(b, x) is Some && lookup(a, y) is Some);
        let i = choose|i: int| 0 <= i < b.len() && (#[trigger] b[i]).0 == x;
        let j = choose|j: int| 0 <= j < a.len() && (#[trigger] a[j]).0 == y;
        if x != y {
            assert(key_lt(b[i].0, b[n].0));
            assert(key_lt(a[j].0, a[m].0));
            lemma_key_lt_total(x, y);
        }
        let a1 = a.drop_last();
        let b1 = b.drop_last();
        assert forall|k: KeyText| #[trigger] lookup(a1, k) == lookup(b1, k) by {
            lemma_lookup_without_last(a, k);
            lemma_lookup_without_last(b, k);
            assert(lookup(a, k) == lookup(b, k));
        }
        law_lookups_determine_the_rows(a1, b1);
        assert(a =~= a1.push(a.last()));
        assert(b =~= b1.push(b.last()));
    }
}

/// Dropping the last row forgets its key and no other.
proof fn lemma_lookup_without_last<V>(rows: Seq<(KeyText, V)>, k: KeyText)
    requires
        sorted(rows),
        rows.len() > 0,
    ensures
        lookup(rows.drop_last(), k) == (if k == rows.last().0 {
            None
        } else {
            lookup(rows, k)
        }),
{
    let short = rows.drop_last();
    let n = rows.len() - 1;
    if k == rows.last().0 {
        assert forall|j: int| 0 <= j < short.len() implies (#[trigger] short[j]).0 != k by {
            assert(key_lt(rows[j].0, rows[n].0));
            lemma_key_lt_total(k, k);
        }
    } else if exists|i: int| 0 <= i < rows.len() && (#[trigger] rows[i]).0 == k {
        let i = choose|i: int| 0 <= i < rows.len() && (#[trigger] rows[i]).0 == k;
        assert(short[i] == rows[i]);
        lemma_lookup_finds(rows, i);
        lemma_lookup_finds(short, i);
    } else {
        assert forall|j: int| 0 <= j < short.len() implies (#[trigger] short[j]).0 != k by {
            assert(rows[j].0 != k);
        }
    }
}

/// Series are ordered by device, then by product id, then by name.
pub proof fn law_the_order_of_series(a: KeyText, b: KeyText)
    ensures
        text_lt(a.device, b.device) ==> key_lt(a, b) && !key_lt(b, a),
        a.device == b.device && text_lt(a.pid, b.pid) ==> key_lt(a, b) && !key_lt(b, a),
        a.device == b.device && a.pid == b.pid ==> (key_lt(a, b) <==> text_lt(a.name, b.name)),
{
    lemma_text_lt_irreflexive(a.device);
    lemma_text_lt_irreflexive(a.pid);
    lemma_text_lt_total(a.device, b.device);
    lemma_text_lt_total(a.pid, b.pid);
}

/// A value that was set is found under its key, and every other key finds what
/// it found before.
pub proof fn law_setting_changes_one_series<V>(
    before: Seq<(KeyText, V)>,
    key: KeyText,
    value: V,
    after: Seq<(KeyText, V)>,
    other: KeyText,
)
    requires
        is_set(before, key, value, after),
    ensures
        lookup(after, key) == Some(value),
        other != key ==> lookup(after, other) == lookup(before, other),
{
    assert(lookup(after, key) == Some(value));
    assert(lookup(after, other) == (if other == key {
        Some(value)
    } else {
        lookup(before, other)
    }));
}

/// A key finds the value in the row that carries it, and nothing where no row
/// does.
pub proof fn law_a_key_finds_its_row<V>(rows: Seq<(KeyText, V)>, i: int, key: KeyText)
    requires
        sorted(rows),
    ensures
        0 <= i < rows.len() ==> lookup(rows, rows[i].0) == Some(rows[i].1),
        lookup(rows, key) is Some <==> exists|k: int|
            0 <= k < rows.len() && (#[trigger] rows[k]).0 == key,
{
    if 0 <= i < rows.len() {
        lemma_lookup_finds(rows, i);
    }
}

/// The key of a device under a name is made of the device's labels and that
/// name.
pub proof fn law_a_key_is_its_labels(labels: DeviceLabels, name: Seq<char>)
    ensures
        labels.key(name).device == labels.device@,
        labels.key(name).pid == labels.pid@,
        labels.key(name).name == name,
{
}

}
