//! Small sets of characters and of strings, kept as vectors without
//! repeats.
use vstd::prelude::*;

use crate::text::{chars_of, seq_eq};

verus! {

broadcast use vstd::seq_lib::group_seq_properties;

/// A finite set of characters.
#[derive(Debug)]
pub struct CharSet {
    items: Vec<char>,
}

impl View for CharSet {
    type V = Set<char>;

    closed spec fn view(&self) -> Set<char> {
        self.items@.to_set()
    }
}

impl CharSet {
    #[verifier::type_invariant]
    spec fn inv(self) -> bool {
        self.items@.no_duplicates()
    }

    /// An empty set.
    pub fn new() -> (s: CharSet)
        ensures
            s@ == Set::<char>::empty(),
    {
        let s = CharSet { items: Vec::new() };
        assert(s.items@.to_set() =~= Set::<char>::empty());
        s
    }

    fn position(&self, c: char) -> (r: Option<usize>)
        ensures
            match r {
                Some(i) => i < self.items@.len() && self.items@[i as int] == c,
                None => !self.items@.contains(c),
            },
    {
        let mut i: usize = 0;
        while i < self.items.len()
            invariant
                i <= self.items@.len(),
                forall|j: int| 0 <= j < i ==> self.items@[j] != c,
            decreases self.items@.len() - i,
        {
            if self.items[i] == c {
                return Some(i);
            }
            i += 1;
        }
        None
    }

    /// Whether `c` is in the set.
    pub fn contains(&self, c: &char) -> (r: bool)
        ensures
            r == self@.contains(*c),
    {
        let p = self.position(*c);
        p.is_some()
    }

    /// Adds `c`; returns whether it was new.
    pub fn insert(&mut self, c: char) -> (r: bool)
        ensures
            final(self)@ == old(self)@.insert(c),
            r == !old(self)@.contains(c),
    {
        proof {
            use_type_invariant(&*self);
        }
        match self.position(c) {
            Some(_) => {
                assert(self@.insert(c) =~= self@);
                false
            },
            None => {
                let ghost old_items = self.items@;
                let mut items: Vec<char> = Vec::new();
                std::mem::swap(&mut items, &mut self.items);
                items.push(c);
                assert(items@.to_set() =~= old_items.to_set().insert(c));
                assert(items@.no_duplicates()) by {
                    assert forall|i: int, j: int|
                        0 <= i < items@.len() && 0 <= j < items@.len() && i != j implies
                        items@[i] != items@[j] by {
                        if i < old_items.len() && j < old_items.len() {
                        } else if i == old_items.len() {
                            assert(old_items.contains(old_items[j]));
                        } else {
                            assert(old_items.contains(old_items[i]));
                        }
                    }
                }
                self.items = items;
                true
            },
        }
    }

    /// Removes `c`; returns whether it was there.
    pub fn remove(&mut self, c: &char) -> (r: bool)
        ensures
            final(self)@ == old(self)@.remove(*c),
            r == old(self)@.contains(*c),
    {
        proof {
            use_type_invariant(&*self);
        }
        match self.position(*c) {
            None => {
                assert(self@.remove(*c) =~= self@);
                false
            },
            Some(i) => {
                let ghost old_items = self.items@;
                let mut items: Vec<char> = Vec::new();
                std::mem::swap(&mut items, &mut self.items);
                items.remove(i);
                assert(items@ =~= old_items.remove(i as int));
                assert(items@.no_duplicates()) by {
                    assert forall|a: int, b: int|
                        0 <= a < items@.len() && 0 <= b < items@.len() && a != b implies
                        items@[a] != items@[b] by {
                        let oa = if a < i {
                            a
                        } else {
                            a + 1
                        };
                        let ob = if b < i {
                            b
                        } else {
                            b + 1
                        };
                        assert(items@[a] == old_items[oa]);
                        assert(items@[b] == old_items[ob]);
                    }
                }
                assert forall|x: char| items@.contains(x) <==> old_items.to_set().remove(
                    *c,
                ).contains(x) by {
                    if items@.contains(x) {
                        let k = choose|k: int| 0 <= k < items@.len() && items@[k] == x;
                        let ok = if k < i {
                            k
                        } else {
                            k + 1
                        };
                        assert(old_items[ok] == x);
                        assert(ok != i);
                    }
                    if old_items.contains(x) && x != *c {
                        let k = choose|k: int| 0 <= k < old_items.len() && old_items[k] == x;
                        assert(k != i);
                        if k < i {
                            assert(items@[k] == x);
                        } else {
                            assert(items@[k - 1] == x);
                        }
                    }
                }
                assert(items@.to_set() =~= old_items.to_set().remove(*c));
                self.items = items;
                true
            },
        }
    }

    /// Whether the set is empty.
    pub fn is_empty(&self) -> (r: bool)
        ensures
            r == (self@ == Set::<char>::empty()),
    {
        if self.items.len() == 0 {
            assert(self@ =~= Set::<char>::empty());
            true
        } else {
            assert(self@.contains(self.items@[0]));
            false
        }
    }

    /// The number of characters in the set.
    pub fn len(&self) -> (r: usize)
        ensures
            r == self@.len(),
            self@.finite(),
    {
        proof {
            use_type_invariant(self);
            self.items@.unique_seq_to_set();
        }
        self.items.len()
    }

    /// The characters of the set in increasing order.
    pub fn sorted(&self) -> (r: Vec<char>)
        ensures
            r@.to_set() == self@,
            forall|i: int, j: int| 0 <= i < j < r@.len() ==> (r@[i] as u32) < (r@[j] as u32),
    {
        let mut out: Vec<char> = Vec::new();
        let mut last: Option<char> = None;
        loop
            invariant_except_break
                forall|i: int, j: int| 0 <= i < j < out@.len() ==> (out@[i] as u32) < (out@[j] as u32),
                match last {
                    Some(l) => out@.len() > 0 && out@.last() == l && forall|x: char|
                        out@.contains(x) <==> (self@.contains(x) && (x as u32) <= (l as u32)),
                    None => out@.len() == 0,
                },
            ensures
                out@.to_set() == self@,
                forall|i: int, j: int| 0 <= i < j < out@.len() ==> (out@[i] as u32) < (out@[j] as u32),
            decreases 0x110000 - (match last {
                Some(l) => (l as u32) as int + 1,
                None => 0,
            }),
        {
            // the least member above `last`
            let mut best: Option<char> = None;
            let mut k: usize = 0;
            while k < self.items.len()
                invariant
                    k <= self.items@.len(),
                    match best {
                        Some(b) => self@.contains(b) && (last matches Some(l) ==> (l as u32) < (b as u32)) && forall|
                            j: int,
                        |
                            0 <= j < k ==> match last {
                                Some(l) => (l as u32) < (#[trigger] self.items@[j] as u32) ==> (b as u32) <= (self.items@[j] as u32),
                                None => (b as u32) <= (#[trigger] self.items@[j] as u32),
                            },
                        None => (k > 0 ==> last is Some) && forall|j: int|
                            0 <= j < k ==> match last {
                                Some(l) => (#[trigger] self.items@[j] as u32) <= (l as u32),
                                None => true,
                            },
                    },
                decreases self.items@.len() - k,
            {
                let x = self.items[k];
                assert(self@.contains(x)) by {
                    assert(self.items@.contains(x));
                }
                let above = match last {
                    Some(l) => (l as u32) < (x as u32),
                    None => true,
                };
                if above {
                    match best {
                        Some(b) => {
                            if (x as u32) < (b as u32) {
                                best = Some(x);
                            }
                        },
                        None => {
                            best = Some(x);
                        },
                    }
                }
                k += 1;
            }
            match best {
                None => {
                    assert forall|x: char| self@.contains(x) implies out@.contains(x) by {
                        let j = choose|j: int| 0 <= j < self.items@.len() && self.items@[j] == x;
                        assert(self.items@[j] == x);
                    }
                    assert(out@.to_set() =~= self@);
                    break ;
                },
                Some(b) => {
                    let ghost prev = out@;
                    out.push(b);
                    proof {
                        assert forall|x: char| out@.contains(x) <==> (self@.contains(x) && (x as u32) <= (b as u32)) by {
                            if self@.contains(x) && (x as u32) <= (b as u32) && x != b {
                                let j = choose|j: int|
                                    0 <= j < self.items@.len() && self.items@[j] == x;
                                assert(self.items@[j] == x);
                                vstd::utf8::char_u32_cast(x, x as u32);
                                vstd::utf8::char_u32_cast(b, b as u32);
                                assert((x as u32) < (b as u32));
                                assert(last matches Some(l) && (x as u32) <= (l as u32));
                                assert(prev.contains(x));
                            }
                            if out@.contains(x) && x != b {
                                let j = choose|j: int| 0 <= j < out@.len() && out@[j] == x;
                                assert(prev[j] == x);
                                assert(prev.contains(x));
                            }
                        }
                        assert forall|i: int, j: int| 0 <= i < j < out@.len() implies (out@[i]
                            as u32) < (out@[j] as u32) by {
                            if j == out@.len() - 1 && i < j {
                                assert(prev.contains(prev[i]));
                            }
                        }
                    }
                    proof {
                        vstd::utf8::char_is_scalar(b);
                        assert((b as u32) < 0x110000);
                        assert(last matches Some(l) ==> (l as u32) < (b as u32));
                    }
                    last = Some(b);
                },
            }
        }
        out
    }
}

impl Clone for CharSet {
    fn clone(&self) -> (r: CharSet)
        ensures
            r@ == self@,
    {
        proof {
            use_type_invariant(self);
        }
        let mut items: Vec<char> = Vec::new();
        let mut i: usize = 0;
        while i < self.items.len()
            invariant
                i <= self.items@.len(),
                items@ == self.items@.take(i as int),
                self.items@.no_duplicates(),
            decreases self.items@.len() - i,
        {
            items.push(self.items[i]);
            i += 1;
            assert(items@ =~= self.items@.take(i as int));
        }
        assert(items@ =~= self.items@);
        CharSet { items }
    }
}

impl Default for CharSet {
    fn default() -> (s: CharSet)
        ensures
            s@ == Set::<char>::empty(),
    {
        CharSet::new()
    }
}

/// A finite set of strings, compared by their characters.
#[derive(Debug)]
pub struct StrSet {
    items: Vec<String>,
}

pub open spec fn views_of(v: Seq<String>) -> Seq<Seq<char>> {
    v.map_values(|s: String| s@)
}

impl View for StrSet {
    type V = Set<Seq<char>>;

    closed spec fn view(&self) -> Set<Seq<char>> {
        views_of(self.items@).to_set()
    }
}

impl StrSet {
    #[verifier::type_invariant]
    spec fn inv(self) -> bool {
        views_of(self.items@).no_duplicates()
    }

    /// An empty set.
    pub fn new() -> (s: StrSet)
        ensures
            s@ == Set::<Seq<char>>::empty(),
    {
        let s = StrSet { items: Vec::new() };
        assert(views_of(s.items@).to_set() =~= Set::<Seq<char>>::empty());
        s
    }

    fn position(&self, t: &str) -> (r: Option<usize>)
        ensures
            match r {
                Some(i) => i < self.items@.len() && self.items@[i as int]@ == t@,
                None => !views_of(self.items@).contains(t@),
            },
    {
        let tv = chars_of(t);
        let mut i: usize = 0;
        while i < self.items.len()
            invariant
                i <= self.items@.len(),
                tv@ == t@,
                forall|j: int| 0 <= j < i ==> self.items@[j]@ != t@,
            decreases self.items@.len() - i,
        {
            let iv = chars_of(self.items[i].as_str());
            if seq_eq(&iv, &tv) {
                return Some(i);
            }
            i += 1;
        }
        proof {
            if views_of(self.items@).contains(t@) {
                let k = choose|k: int| 0 <= k < self.items@.len() && views_of(self.items@)[k] == t@;
                assert(self.items@[k]@ == t@);
            }
        }
        None
    }

    /// Whether `t` is in the set.
    pub fn contains(&self, t: &str) -> (r: bool)
        ensures
            r == self@.contains(t@),
    {
        let p = self.position(t);
        if let Some(i) = p {
            assert(views_of(self.items@)[i as int] == t@);
        }
        p.is_some()
    }

    /// Adds `t`; returns whether it was new.
    pub fn insert(&mut self, t: String) -> (r: bool)
        ensures
            final(self)@ == old(self)@.insert(t@),
            r == !old(self)@.contains(t@),
    {
        proof {
            use_type_invariant(&*self);
        }
        match self.position(t.as_str()) {
            Some(i) => {
                assert(views_of(self.items@)[i as int] == t@);
                assert(self@.insert(t@) =~= self@);
                false
            },
            None => {
                let ghost old_v = views_of(self.items@);
                let mut items: Vec<String> = Vec::new();
                std::mem::swap(&mut items, &mut self.items);
                items.push(t);
                assert(views_of(items@) =~= old_v.push(t@));
                assert(views_of(items@).to_set() =~= old_v.to_set().insert(t@));
                assert(views_of(items@).no_duplicates()) by {
                    let nv = views_of(items@);
                    assert forall|i: int, j: int|
                        0 <= i < nv.len() && 0 <= j < nv.len() && i != j implies nv[i]
                        != nv[j] by {
                        if i < old_v.len() && j < old_v.len() {
                        } else if i == old_v.len() {
                            assert(old_v.contains(old_v[j]));
                        } else {
                            assert(old_v.contains(old_v[i]));
                        }
                    }
                }
                self.items = items;
                true
            },
        }
    }

    /// The number of strings in the set.
    pub fn len(&self) -> (r: usize)
        ensures
            r == self@.len(),
            self@.finite(),
    {
        proof {
            use_type_invariant(self);
            views_of(self.items@).unique_seq_to_set();
        }
        self.items.len()
    }

    /// Whether the set is empty.
    pub fn is_empty(&self) -> (r: bool)
        ensures
            r == (self@ == Set::<Seq<char>>::empty()),
    {
        if self.items.len() == 0 {
            assert(self@ =~= Set::<Seq<char>>::empty());
            true
        } else {
            assert(self@.contains(views_of(self.items@)[0]));
            false
        }
    }
}

impl Clone for StrSet {
    fn clone(&self) -> (r: StrSet)
        ensures
            r@ == self@,
    {
        proof {
            use_type_invariant(self);
        }
        let mut items: Vec<String> = Vec::new();
        let mut i: usize = 0;
        while i < self.items.len()
            invariant
                i <= self.items@.len(),
                views_of(items@) == views_of(self.items@).take(i as int),
                views_of(self.items@).no_duplicates(),
            decreases self.items@.len() - i,
        {
            let t = crate::text::owned(self.items[i].as_str());
            let ghost before = items@;
            items.push(t);
            assert(items@ == before.push(t));
            assert(views_of(items@) =~= views_of(before).push(t@));
            i += 1;
            assert(views_of(items@) =~= views_of(self.items@).take(i as int));
        }
        assert(views_of(items@) =~= views_of(self.items@));
        StrSet { items }
    }
}

impl Default for StrSet {
    fn default() -> (s: StrSet)
        ensures
            s@ == Set::<Seq<char>>::empty(),
    {
        StrSet::new()
    }
}


/// A finite map from strings to values, keeping its keys in the order they
/// were first added.
#[derive(Debug)]
pub struct AssocList<V> {
    keys: Vec<String>,
    values: Vec<V>,
}

/// Where `k` sits among `keys`, when it is there.
pub open spec fn key_index(keys: Seq<Seq<char>>, k: Seq<char>) -> int {
    choose|i: int| 0 <= i < keys.len() && keys[i] == k
}

proof fn lemma_key_index(keys: Seq<Seq<char>>, i: int)
    requires
        keys.no_duplicates(),
        0 <= i < keys.len(),
    ensures
        key_index(keys, keys[i]) == i,
{
    let j = key_index(keys, keys[i]);
    assert(0 <= j < keys.len() && keys[j] == keys[i]);
}

impl<V> View for AssocList<V> {
    type V = Map<Seq<char>, V>;

    closed spec fn view(&self) -> Map<Seq<char>, V> {
        let ks = views_of(self.keys@);
        Map::new(|k: Seq<char>| ks.contains(k), |k: Seq<char>| self.values@[key_index(ks, k)])
    }
}

impl<V> AssocList<V> {
    /// The keys and values line up and no key repeats.
    pub closed spec fn wf(&self) -> bool {
        &&& self.keys@.len() == self.values@.len()
        &&& views_of(self.keys@).no_duplicates()
    }

    /// The keys, in the order they were first added.
    pub closed spec fn key_seq(&self) -> Seq<Seq<char>> {
        views_of(self.keys@)
    }

    /// The values, in the order of their keys.
    pub closed spec fn value_seq(&self) -> Seq<V> {
        self.values@
    }

    /// What the order of the keys says about the map: keys listed once
    /// each, values aligned with them.
    pub proof fn lemma_order(&self)
        requires
            self.wf(),
        ensures
            self.key_seq().len() == self.value_seq().len(),
            self.key_seq().no_duplicates(),
            forall|k: Seq<char>| self@.contains_key(k) <==> self.key_seq().contains(k),
            forall|i: int|
                0 <= i < self.key_seq().len() ==> #[trigger] self@[self.key_seq()[i]]
                    == self.value_seq()[i],
    {
        assert forall|i: int| 0 <= i < self.key_seq().len() implies #[trigger] self@[self.key_seq()[i]]
            == self.value_seq()[i] by {
            lemma_key_index(views_of(self.keys@), i);
        }
    }

    /// An empty map.
    pub fn new() -> (r: AssocList<V>)
        ensures
            r.wf(),
            r@ == Map::<Seq<char>, V>::empty(),
            r.key_seq() == Seq::<Seq<char>>::empty(),
    {
        let r = AssocList { keys: Vec::new(), values: Vec::new() };
        assert(r@ =~= Map::<Seq<char>, V>::empty());
        assert(r.key_seq() =~= Seq::<Seq<char>>::empty());
        r
    }

    /// The number of keys.
    pub fn len(&self) -> (n: usize)
        requires
            self.wf(),
        ensures
            n == self.key_seq().len(),
            n == self@.len(),
    {
        proof {
            views_of(self.keys@).unique_seq_to_set();
            assert(self@.dom() =~= views_of(self.keys@).to_set());
        }
        self.keys.len()
    }

    /// Position of the key `k`, if present.
    pub fn find(&self, k: &str) -> (r: Option<usize>)
        requires
            self.wf(),
        ensures
            match r {
                Some(i) => i < self.key_seq().len() && self.key_seq()[i as int] == k@,
                None => !self@.contains_key(k@),
            },
            r is Some <==> self@.contains_key(k@),
    {
        let kv = chars_of(k);
        let mut i: usize = 0;
        while i < self.keys.len()
            invariant
                i <= self.keys@.len(),
                kv@ == k@,
                forall|j: int| 0 <= j < i ==> self.keys@[j]@ != k@,
            decreases self.keys@.len() - i,
        {
            let iv = chars_of(self.keys[i].as_str());
            if seq_eq(&iv, &kv) {
                assert(views_of(self.keys@)[i as int] == k@);
                return Some(i);
            }
            i += 1;
        }
        proof {
            if views_of(self.keys@).contains(k@) {
                let j = choose|j: int| 0 <= j < self.keys@.len() && views_of(self.keys@)[j] == k@;
                assert(self.keys@[j]@ == k@);
            }
        }
        None
    }

    /// Whether the key `k` is present.
    pub fn contains_key(&self, k: &str) -> (r: bool)
        requires
            self.wf(),
        ensures
            r == self@.contains_key(k@),
    {
        self.find(k).is_some()
    }

    /// The key at position `i`.
    pub fn key_at(&self, i: usize) -> (r: &String)
        requires
            self.wf(),
            i < self.key_seq().len(),
        ensures
            r@ == self.key_seq()[i as int],
    {
        &self.keys[i]
    }

    /// The value at position `i`.
    pub fn value_at(&self, i: usize) -> (r: &V)
        requires
            self.wf(),
            i < self.key_seq().len(),
        ensures
            *r == self.value_seq()[i as int],
            *r == self@[self.key_seq()[i as int]],
    {
        proof {
            lemma_key_index(views_of(self.keys@), i as int);
        }
        &self.values[i]
    }

    /// The value for `k`, if present.
    pub fn get(&self, k: &str) -> (r: Option<&V>)
        requires
            self.wf(),
        ensures
            match r {
                Some(v) => self@.contains_key(k@) && *v == self@[k@],
                None => !self@.contains_key(k@),
            },
    {
        match self.find(k) {
            Some(i) => {
                proof {
                    lemma_key_index(views_of(self.keys@), i as int);
                }
                Some(&self.values[i])
            },
            None => None,
        }
    }

    /// The value for `k`, to change in place.
    pub fn get_mut(&mut self, k: &str) -> (r: Option<&mut V>)
        requires
            old(self).wf(),
        ensures
            final(self).wf(),
            final(self).key_seq() == old(self).key_seq(),
            match r {
                Some(v) => old(self)@.contains_key(k@) && *v == old(self)@[k@] && final(self)@
                    == old(self)@.insert(k@, *final(v)),
                None => !old(self)@.contains_key(k@) && final(self)@ == old(self)@,
            },
    {
        match self.find(k) {
            Some(i) => {
                proof {
                    lemma_key_index(views_of(self.keys@), i as int);
                }
                let ghost ks = views_of(self.keys@);
                let r = &mut self.values[i];
                proof {
                    assert forall|kk: Seq<char>| ks.contains(kk) && kk != k@ implies key_index(ks, kk)
                        != i by {}
                }
                Some(r)
            },
            None => None,
        }
    }

    /// Sets the value for `k`, adding the key at the end when it is new;
    /// returns the value it replaced.
    pub fn insert(&mut self, k: String, v: V) -> (r: Option<V>)
        requires
            old(self).wf(),
        ensures
            final(self).wf(),
            final(self)@ == old(self)@.insert(k@, v),
            match r {
                Some(o) => old(self)@.contains_key(k@) && o == old(self)@[k@] && final(self).key_seq()
                    == old(self).key_seq(),
                None => !old(self)@.contains_key(k@) && final(self).key_seq() == old(
                    self,
                ).key_seq().push(k@),
            },
    {
        let ghost ks = views_of(self.keys@);
        let ghost old_view = self@;
        match self.find(k.as_str()) {
            Some(i) => {
                proof {
                    lemma_key_index(ks, i as int);
                }
                let ghost old_vals = self.values@;
                let mut tmp = v;
                std::mem::swap(&mut tmp, &mut self.values[i]);
                assert(self.values@ == old_vals.update(i as int, v));
                assert(self@ =~= old_view.insert(k@, v)) by {
                    assert forall|kk: Seq<char>| ks.contains(kk) && kk != k@ implies key_index(
                        ks,
                        kk,
                    ) != i by {}
                }
                Some(tmp)
            },
            None => {
                self.keys.push(k);
                self.values.push(v);
                let ghost nks = views_of(self.keys@);
                assert(nks =~= ks.push(k@));
                assert(nks.no_duplicates()) by {
                    assert forall|a: int, b: int|
                        0 <= a < nks.len() && 0 <= b < nks.len() && a != b implies nks[a]
                        != nks[b] by {
                        if a < ks.len() && b < ks.len() {
                        } else if a == ks.len() {
                            assert(ks.contains(ks[b]));
                        } else {
                            assert(ks.contains(ks[a]));
                        }
                    }
                }
                assert(self@ =~= old_view.insert(k@, v)) by {
                    lemma_key_index(nks, ks.len() as int);
                    assert forall|kk: Seq<char>| ks.contains(kk) implies key_index(nks, kk)
                        == key_index(ks, kk) by {
                        let j = key_index(ks, kk);
                        assert(nks[j] == ks[j]);
                        lemma_key_index(nks, j);
                    }
                }
                None
            },
        }
    }

    /// Removes the key `k`; returns its value if it was there.
    pub fn remove(&mut self, k: &str) -> (r: Option<V>)
        requires
            old(self).wf(),
        ensures
            final(self).wf(),
            final(self)@ == old(self)@.remove(k@),
            match r {
                Some(o) => old(self)@.contains_key(k@) && o == old(self)@[k@],
                None => !old(self)@.contains_key(k@),
            },
            forall|kk: Seq<char>| #[trigger]
                final(self).key_seq().contains(kk) <==> old(self).key_seq().contains(kk) && kk
                    != k@,
    {
        let ghost ks = views_of(self.keys@);
        let ghost old_view = self@;
        match self.find(k) {
            None => {
                assert(self@ =~= old_view.remove(k@));
                None
            },
            Some(i) => {
                proof {
                    lemma_key_index(ks, i as int);
                }
                let ghost old_vals = self.values@;
                self.keys.remove(i);
                let val = self.values.remove(i);
                let ghost nks = views_of(self.keys@);
                assert(nks =~= ks.remove(i as int));
                assert(nks.no_duplicates()) by {
                    assert forall|a: int, b: int|
                        0 <= a < nks.len() && 0 <= b < nks.len() && a != b implies nks[a]
                        != nks[b] by {
                        let oa = if a < i {
                            a
                        } else {
                            a + 1
                        };
                        let ob = if b < i {
                            b
                        } else {
                            b + 1
                        };
                        assert(nks[a] == ks[oa]);
                        assert(nks[b] == ks[ob]);
                    }
                }
                assert forall|kk: Seq<char>| nks.contains(kk) <==> ks.contains(kk) && kk != k@ by {
                    if nks.contains(kk) {
                        let j = choose|j: int| 0 <= j < nks.len() && nks[j] == kk;
                        let oj = if j < i {
                            j
                        } else {
                            j + 1
                        };
                        assert(ks[oj] == kk);
                    }
                    if ks.contains(kk) && kk != k@ {
                        let j = choose|j: int| 0 <= j < ks.len() && ks[j] == kk;
                        if j < i {
                            assert(nks[j] == kk);
                        } else {
                            assert(nks[j - 1] == kk);
                        }
                    }
                }
                assert(self@ =~= old_view.remove(k@)) by {
                    assert forall|kk: Seq<char>| nks.contains(kk) implies self.values@[key_index(
                        nks,
                        kk,
                    )] == old_vals[key_index(ks, kk)] by {
                        let j = key_index(nks, kk);
                        let oj = if j < i {
                            j
                        } else {
                            j + 1
                        };
                        assert(ks[oj] == kk);
                        lemma_key_index(ks, oj);
                    }
                }
                Some(val)
            },
        }
    }
}

} // verus!
