use vstd::prelude::*;

use crate::ids::{ClassId, VarId};
use crate::text::copy_path;

verus! {

broadcast use vstd::string::group_string_axioms;

/// The map that a list of entries stands for, later entries over earlier ones.
pub open spec fn map_of<K: DeepView, V>(es: Seq<(K, V)>) -> Map<K::V, V>
    decreases es.len(),
{
    if es.len() == 0 {
        Map::empty()
    } else {
        map_of(es.drop_last()).insert(es.last().0.deep_view(), es.last().1)
    }
}

/// No key occurs twice among the entries.
pub open spec fn keys_distinct<K: DeepView, V>(es: Seq<(K, V)>) -> bool {
    forall|i: int, j: int|
        0 <= i < es.len() && 0 <= j < es.len() && i != j ==> es[i].0.deep_view()
            != es[j].0.deep_view()
}

pub proof fn lemma_map_of_keys<K: DeepView, V>(es: Seq<(K, V)>, k: K::V)
    ensures
        map_of(es).contains_key(k) <==> exists|i: int|
            0 <= i < es.len() && #[trigger] es[i].0.deep_view() == k,
    decreases es.len(),
{
    if es.len() > 0 {
        lemma_map_of_keys(es.drop_last(), k);
        if map_of(es).contains_key(k) && k != es.last().0.deep_view() {
            let i = choose|i: int| 0 <= i < es.len() - 1 && #[trigger] es.drop_last()[i].0.deep_view() == k;
            assert(es[i].0.deep_view() == k);
        }
        if exists|i: int| 0 <= i < es.len() && #[trigger] es[i].0.deep_view() == k {
            let i = choose|i: int| 0 <= i < es.len() && #[trigger] es[i].0.deep_view() == k;
            if i < es.len() - 1 {
                assert(es.drop_last()[i].0.deep_view() == k);
            }
        }
    }
}

pub proof fn lemma_map_of_value<K: DeepView, V>(es: Seq<(K, V)>, i: int)
    requires
        keys_distinct(es),
        0 <= i < es.len(),
    ensures
        map_of(es).contains_key(es[i].0.deep_view()),
        map_of(es)[es[i].0.deep_view()] == es[i].1,
    decreases es.len(),
{
    if i < es.len() - 1 {
        assert(es.drop_last()[i] == es[i]);
        lemma_map_of_value(es.drop_last(), i);
    }
}

/// A finite map kept as a list of entries in which no key occurs twice.
#[derive(Debug)]
pub struct Table<K: DeepView, V> {
    entries: Vec<(K, V)>,
}

impl<K: DeepView, V> View for Table<K, V> {
    type V = Map<K::V, V>;

    /// The map that the table holds.
    closed spec fn view(&self) -> Map<K::V, V> {
        map_of(self.entries@)
    }
}

impl<K: DeepView, V> Table<K, V> {
    /// The table's invariant: no key occurs twice among its entries.
    pub closed spec fn wf(&self) -> bool {
        keys_distinct(self.entries@)
    }

    /// An empty table.
    pub fn new() -> (t: Self)
        ensures
            t.wf(),
            t.view() == Map::<K::V, V>::empty(),
    {
        Table { entries: Vec::new() }
    }

    /// The number of keys in the table.
    pub fn len(&self) -> (n: usize)
        requires
            self.wf(),
        ensures
            n == self.view().dom().len(),
    {
        proof {
            self.lemma_len();
        }
        self.entries.len()
    }

    proof fn lemma_len(&self)
        requires
            keys_distinct(self.entries@),
        ensures
            self.view().dom().finite(),
            self.view().dom().len() == self.entries@.len(),
    {
        lemma_map_of_len(self.entries@);
    }

    /// Adds a key that the table does not hold yet.
    pub fn insert_new(&mut self, k: K, v: V)
        requires
            old(self).wf(),
            !old(self).view().contains_key(k.deep_view()),
        ensures
            final(self).wf(),
            final(self).view() == old(self).view().insert(k.deep_view(), v),
    {
        proof {
            lemma_map_of_keys(self.entries@, k.deep_view());
        }
        let ghost old_es = self.entries@;
        self.entries.push((k, v));
        proof {
            assert(self.entries@.drop_last() =~= old_es);
            assert forall|i: int, j: int|
                0 <= i < self.entries@.len() && 0 <= j < self.entries@.len() && i != j
                implies self.entries@[i].0.deep_view() != self.entries@[j].0.deep_view() by {
                if i < old_es.len() && j < old_es.len() {
                    assert(self.entries@[i] == old_es[i]);
                    assert(self.entries@[j] == old_es[j]);
                } else if i < old_es.len() {
                    assert(self.entries@[i] == old_es[i]);
                } else {
                    assert(self.entries@[j] == old_es[j]);
                }
            }
        }
    }
}

pub proof fn lemma_map_of_len<K: DeepView, V>(es: Seq<(K, V)>)
    requires
        keys_distinct(es),
    ensures
        map_of(es).dom().finite(),
        map_of(es).dom().len() == es.len(),
    decreases es.len(),
{
    if es.len() > 0 {
        let front = es.drop_last();
        assert(keys_distinct(front)) by {
            assert forall|i: int, j: int|
                0 <= i < front.len() && 0 <= j < front.len() && i != j
                implies front[i].0.deep_view() != front[j].0.deep_view() by {
                assert(front[i] == es[i]);
                assert(front[j] == es[j]);
            }
        }
        lemma_map_of_len(front);
        lemma_map_of_keys(front, es.last().0.deep_view());
        if map_of(front).contains_key(es.last().0.deep_view()) {
            let i = choose|i: int|
                0 <= i < front.len() && #[trigger] front[i].0.deep_view() == es.last().0.deep_view();
            assert(front[i] == es[i]);
        }
    }
}

/// Where a lookup finds its key: the index of the entry whose key is `k`.
proof fn lemma_found<K: DeepView, V>(es: Seq<(K, V)>, i: int, k: K::V)
    requires
        keys_distinct(es),
        0 <= i < es.len(),
        es[i].0.deep_view() == k,
    ensures
        map_of(es).contains_key(k),
        map_of(es)[k] == es[i].1,
{
    lemma_map_of_value(es, i);
}

impl<V: Copy> Table<String, V> {
    /// The value stored under a name.
    pub fn get(&self, k: &str) -> (r: Option<V>)
        requires
            self.wf(),
        ensures
            match r {
                Some(v) => self.view().contains_key(k@) && self.view()[k@] == v,
                None => !self.view().contains_key(k@),
            },
    {
        let key = String::from_str(k);
        let n = self.entries.len();
        let mut i: usize = 0;
        while i < n
            invariant
                self.wf(),
                n == self.entries@.len(),
                0 <= i <= n,
                key@ == k@,
                forall|j: int| 0 <= j < i ==> #[trigger] self.entries@[j].0.deep_view() != k@,
            decreases n - i,
        {
            if self.entries[i].0 == key {
                proof {
                    lemma_found(self.entries@, i as int, k@);
                }
                return Some(self.entries[i].1);
            }
            i = i + 1;
        }
        proof {
            lemma_map_of_keys(self.entries@, k@);
        }
        None
    }
}

impl Table<VarId, ClassId> {
    /// The class recorded for a variable.
    pub fn get_class_of(&self, k: VarId) -> (r: Option<ClassId>)
        requires
            self.wf(),
        ensures
            match r {
                Some(v) => self.view().contains_key(k) && self.view()[k] == v,
                None => !self.view().contains_key(k),
            },
    {
        let n = self.entries.len();
        let mut i: usize = 0;
        while i < n
            invariant
                self.wf(),
                n == self.entries@.len(),
                0 <= i <= n,
                forall|j: int| 0 <= j < i ==> #[trigger] self.entries@[j].0.deep_view() != k,
            decreases n - i,
        {
            if self.entries[i].0 == k {
                proof {
                    lemma_found(self.entries@, i as int, k);
                }
                return Some(self.entries[i].1);
            }
            i = i + 1;
        }
        proof {
            lemma_map_of_keys(self.entries@, k);
        }
        None
    }
}

/// Whether two paths hold the same names in the same order.
fn same_path(a: &Vec<String>, b: &Vec<String>) -> (r: bool)
    ensures
        r == (a.deep_view() == b.deep_view()),
{
    if a.len() != b.len() {
        proof {
            assert(a.deep_view().len() != b.deep_view().len());
        }
        return false;
    }
    let mut i: usize = 0;
    while i < a.len()
        invariant
            a.len() == b.len(),
            0 <= i <= a.len(),
            forall|j: int| 0 <= j < i ==> #[trigger] a@[j]@ == b@[j]@,
        decreases a.len() - i,
    {
        if a[i] != b[i] {
            proof {
                assert(a.deep_view()[i as int] != b.deep_view()[i as int]);
            }
            return false;
        }
        i = i + 1;
    }
    assert(a.deep_view() =~= b.deep_view());
    true
}

impl Table<Vec<String>, ClassId> {
    /// Whether the table holds a path.
    pub fn contains_path(&self, k: &Vec<String>) -> (r: bool)
        requires
            self.wf(),
        ensures
            r == self.view().contains_key(k.deep_view()),
    {
        let n = self.entries.len();
        let mut i: usize = 0;
        while i < n
            invariant
                self.wf(),
                n == self.entries@.len(),
                0 <= i <= n,
                forall|j: int|
                    0 <= j < i ==> #[trigger] self.entries@[j].0.deep_view() != k.deep_view(),
            decreases n - i,
        {
            if same_path(&self.entries[i].0, k) {
                proof {
                    lemma_found(self.entries@, i as int, k.deep_view());
                }
                return true;
            }
            i = i + 1;
        }
        proof {
            lemma_map_of_keys(self.entries@, k.deep_view());
        }
        false
    }
}

/// Lists whose keys look alike, entry by entry, and whose values are equal
/// stand for the same map and have the same invariant.
proof fn lemma_map_of_alike<K: DeepView, V>(a: Seq<(K, V)>, b: Seq<(K, V)>)
    requires
        a.len() == b.len(),
        forall|i: int|
            0 <= i < a.len() ==> (#[trigger] a[i]).0.deep_view() == b[i].0.deep_view() && a[i].1
                == b[i].1,
    ensures
        map_of(a) == map_of(b),
        keys_distinct(a) == keys_distinct(b),
    decreases a.len(),
{
    if keys_distinct(a) {
        assert forall|i: int, j: int|
            0 <= i < b.len() && 0 <= j < b.len() && i != j implies b[i].0.deep_view()
            != b[j].0.deep_view() by {
            assert(a[i].0.deep_view() == b[i].0.deep_view());
            assert(a[j].0.deep_view() == b[j].0.deep_view());
        }
    }
    if keys_distinct(b) {
        assert forall|i: int, j: int|
            0 <= i < a.len() && 0 <= j < a.len() && i != j implies a[i].0.deep_view()
            != a[j].0.deep_view() by {
            assert(a[i].0.deep_view() == b[i].0.deep_view());
            assert(a[j].0.deep_view() == b[j].0.deep_view());
        }
    }
    if a.len() > 0 {
        let a1 = a.drop_last();
        let b1 = b.drop_last();
        assert forall|i: int| 0 <= i < a1.len() implies (#[trigger] a1[i]).0.deep_view()
            == b1[i].0.deep_view() && a1[i].1 == b1[i].1 by {
            assert(a1[i] == a[i]);
            assert(b1[i] == b[i]);
        }
        lemma_map_of_alike(a1, b1);
        assert(a[a.len() - 1].0.deep_view() == b[b.len() - 1].0.deep_view());
    }
}

impl<V: Copy> Clone for Table<String, V> {
    /// A copy of the table.
    fn clone(&self) -> (r: Self)
        ensures
            r.view() == self.view(),
            r.wf() == self.wf(),
    {
        let mut entries: Vec<(String, V)> = Vec::new();
        let mut i: usize = 0;
        while i < self.entries.len()
            invariant
                i <= self.entries@.len(),
                entries@ == self.entries@.take(i as int),
            decreases self.entries@.len() - i,
        {
            let k = self.entries[i].0.clone();
            let v = self.entries[i].1;
            entries.push((k, v));
            assert(entries@ =~= self.entries@.take(i + 1));
            i = i + 1;
        }
        assert(self.entries@.take(i as int) =~= self.entries@);
        Table { entries }
    }
}

impl Clone for Table<VarId, ClassId> {
    /// A copy of the table.
    fn clone(&self) -> (r: Self)
        ensures
            r.view() == self.view(),
            r.wf() == self.wf(),
    {
        let mut entries: Vec<(VarId, ClassId)> = Vec::new();
        let mut i: usize = 0;
        while i < self.entries.len()
            invariant
                i <= self.entries@.len(),
                entries@ == self.entries@.take(i as int),
            decreases self.entries@.len() - i,
        {
            entries.push(self.entries[i]);
            assert(entries@ =~= self.entries@.take(i + 1));
            i = i + 1;
        }
        assert(self.entries@.take(i as int) =~= self.entries@);
        Table { entries }
    }
}

impl Clone for Table<Vec<String>, ClassId> {
    /// A copy of the table.
    fn clone(&self) -> (r: Self)
        ensures
            r.view() == self.view(),
            r.wf() == self.wf(),
    {
        let mut entries: Vec<(Vec<String>, ClassId)> = Vec::new();
        let mut i: usize = 0;
        while i < self.entries.len()
            invariant
                i <= self.entries@.len(),
                entries@.len() == i,
                forall|j: int|
                    0 <= j < i ==> (#[trigger] entries@[j]).0.deep_view()
                        == self.entries@[j].0.deep_view() && entries@[j].1 == self.entries@[j].1,
            decreases self.entries@.len() - i,
        {
            let k = copy_path(&self.entries[i].0);
            entries.push((k, self.entries[i].1));
            i = i + 1;
        }
        proof {
            lemma_map_of_alike(entries@, self.entries@);
        }
        Table { entries }
    }
}

} // verus!
