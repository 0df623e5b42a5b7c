//! An ordered map from text to text.
//!
//! Keys are ordered by the bytes of their UTF-8 encodings, and the entries are
//! kept in that order with no key twice, so that walking the map is
//! deterministic.

use crate::path::lemma_utf8_injective;
use crate::text::{copy_text_pairs, text_pairs};
use vstd::prelude::*;
use vstd::utf8::*;

verus! {

// ---------------------------------------------------------------------
// The order of keys
// ---------------------------------------------------------------------
/// Lexicographic order of byte strings.
pub open spec fn bytes_before(a: Seq<u8>, b: Seq<u8>) -> bool
    decreases a.len(),
{
    if b.len() == 0 {
        false
    } else if a.len() == 0 {
        true
    } else if a[0] != b[0] {
        a[0] < b[0]
    } else {
        bytes_before(a.skip(1), b.skip(1))
    }
}

/// The order of texts: that of their UTF-8 bytes.
pub open spec fn text_before(a: Seq<char>, b: Seq<char>) -> bool {
    bytes_before(encode_utf8(a), encode_utf8(b))
}

proof fn lemma_bytes_before_transitive(a: Seq<u8>, b: Seq<u8>, c: Seq<u8>)
    requires
        bytes_before(a, b),
        bytes_before(b, c),
    ensures
        bytes_before(a, c),
    decreases a.len(),
{
    if a.len() > 0 && a[0] == b[0] && b[0] == c[0] {
        lemma_bytes_before_transitive(a.skip(1), b.skip(1), c.skip(1));
    }
}

proof fn lemma_bytes_before_irreflexive(a: Seq<u8>)
    ensures
        !bytes_before(a, a),
    decreases a.len(),
{
    if a.len() > 0 {
        lemma_bytes_before_irreflexive(a.skip(1));
    }
}

/// The order of texts is transitive.
pub proof fn lemma_text_before_transitive(a: Seq<char>, b: Seq<char>, c: Seq<char>)
    requires
        text_before(a, b),
        text_before(b, c),
    ensures
        text_before(a, c),
{
    lemma_bytes_before_transitive(encode_utf8(a), encode_utf8(b), encode_utf8(c));
}

/// No text comes before itself.
pub proof fn lemma_text_before_irreflexive(a: Seq<char>)
    ensures
        !text_before(a, a),
{
    lemma_bytes_before_irreflexive(encode_utf8(a));
}

proof fn lemma_common_prefix(a: Seq<u8>, b: Seq<u8>, i: int)
    requires
        0 <= i <= a.len(),
        i <= b.len(),
        forall|j: int| 0 <= j < i ==> a[j] == b[j],
    ensures
        bytes_before(a, b) == bytes_before(a.skip(i), b.skip(i)),
        bytes_before(b, a) == bytes_before(b.skip(i), a.skip(i)),
    decreases i,
{
    if i == 0 {
        assert(a.skip(0) =~= a);
        assert(b.skip(0) =~= b);
    } else {
        lemma_common_prefix(a, b, i - 1);
        assert(a.skip(i - 1).skip(1) =~= a.skip(i));
        assert(b.skip(i - 1).skip(1) =~= b.skip(i));
        assert(a.skip(i - 1)[0] == a[i - 1]);
        assert(b.skip(i - 1)[0] == b[i - 1]);
    }
}

/// Where one text stands relative to another.
enum Place {
    Before,
    Same,
    After,
}

/// Where `a` stands relative to `b`.
fn place_of(a: &str, b: &str) -> (r: Place)
    ensures
        match r {
            Place::Before => text_before(a@, b@),
            Place::Same => a@ == b@,
            Place::After => text_before(b@, a@),
        },
{
    let x: &[u8] = a.as_bytes();
    let y: &[u8] = b.as_bytes();
    let mut i: usize = 0;
    while i < x.len() && i < y.len() && x[i] == y[i]
        invariant
            i <= x@.len(),
            i <= y@.len(),
            x@ == encode_utf8(a@),
            y@ == encode_utf8(b@),
            forall|j: int| 0 <= j < i ==> x@[j] == y@[j],
        decreases x@.len() - i,
    {
        i = i + 1;
    }
    proof {
        lemma_common_prefix(x@, y@, i as int);
        assert(i < x@.len() ==> x@.skip(i as int)[0] == x@[i as int]);
        assert(i < y@.len() ==> y@.skip(i as int)[0] == y@[i as int]);
    }
    if i == x.len() {
        if i == y.len() {
            assert(x@ =~= y@);
            proof {
                lemma_utf8_injective(a@, b@);
            }
            Place::Same
        } else {
            Place::Before
        }
    } else if i == y.len() {
        Place::After
    } else if x[i] < y[i] {
        Place::Before
    } else {
        Place::After
    }
}

// ---------------------------------------------------------------------
// Association lists
// ---------------------------------------------------------------------
/// The map that a list of pairs builds: of two pairs with one key the later
/// counts.
pub open spec fn map_of(list: Seq<(Seq<char>, Seq<char>)>) -> Map<Seq<char>, Seq<char>>
    decreases list.len(),
{
    if list.len() == 0 {
        Map::empty()
    } else {
        map_of(list.drop_last()).insert(list.last().0, list.last().1)
    }
}

/// Whether the keys of a list stand in order, none of them twice.
pub open spec fn in_key_order(list: Seq<(Seq<char>, Seq<char>)>) -> bool {
    forall|i: int, j: int|
        0 <= i < j < list.len() ==> text_before(#[trigger] list[i].0, #[trigger] list[j].0)
}

/// Whether no key stands in a list twice.
pub open spec fn keys_distinct(list: Seq<(Seq<char>, Seq<char>)>) -> bool {
    forall|i: int, j: int|
        0 <= i < j < list.len() ==> #[trigger] list[i].0 != #[trigger] list[j].0
}

/// Keys in order are distinct.
pub proof fn lemma_in_key_order_distinct(list: Seq<(Seq<char>, Seq<char>)>)
    requires
        in_key_order(list),
    ensures
        keys_distinct(list),
{
    assert forall|i: int, j: int| 0 <= i < j < list.len() implies #[trigger] list[i].0
        != #[trigger] list[j].0 by {
        lemma_text_before_irreflexive(list[i].0);
    }
}

/// What the map of a list holds, where no key stands in the list twice.
pub proof fn lemma_map_of(list: Seq<(Seq<char>, Seq<char>)>)
    requires
        keys_distinct(list),
    ensures
        forall|i: int|
            0 <= i < list.len() ==> map_of(list).dom().contains(#[trigger] list[i].0)
                && map_of(list)[list[i].0] == list[i].1,
        forall|k: Seq<char>| #[trigger]
            map_of(list).dom().contains(k) ==> exists|i: int|
                0 <= i < list.len() && #[trigger] list[i].0 == k,
    decreases list.len(),
{
    if list.len() > 0 {
        let front = list.drop_last();
        assert(keys_distinct(front)) by {
            assert forall|i: int, j: int| 0 <= i < j < front.len() implies #[trigger] front[i].0
                != #[trigger] front[j].0 by {
                assert(list[i].0 != list[j].0);
            }
        }
        lemma_map_of(front);
        assert forall|i: int| 0 <= i < list.len() implies map_of(list).dom().contains(
            #[trigger] list[i].0,
        ) && map_of(list)[list[i].0] == list[i].1 by {
            if i < front.len() {
                assert(front[i] == list[i]);
                assert(list[i].0 != list[list.len() - 1].0);
                assert(map_of(front).dom().contains(front[i].0));
            }
        }
        assert forall|k: Seq<char>| #[trigger] map_of(list).dom().contains(k) implies exists|i: int|
            0 <= i < list.len() && #[trigger] list[i].0 == k by {
            if k == list.last().0 {
                assert(list[list.len() - 1].0 == k);
            } else {
                assert(map_of(front).dom().contains(k));
                let i = choose|i: int| 0 <= i < front.len() && #[trigger] front[i].0 == k;
                assert(list[i].0 == k);
            }
        }
    }
}

/// Two lists in key order that build one map are the same list.
pub proof fn lemma_key_order_unique(
    a: Seq<(Seq<char>, Seq<char>)>,
    b: Seq<(Seq<char>, Seq<char>)>,
)
    requires
        in_key_order(a),
        in_key_order(b),
        map_of(a) == map_of(b),
    ensures
        a == b,
    decreases a.len() + b.len(),
{
    lemma_in_key_order_distinct(a);
    lemma_in_key_order_distinct(b);
    lemma_map_of(a);
    lemma_map_of(b);
    if a.len() == 0 {
        if b.len() > 0 {
            assert(map_of(b).dom().contains(b[0].0));
        }
    } else if b.len() == 0 {
        assert(map_of(a).dom().contains(a[0].0));
    } else {
        let x = a.last();
        let y = b.last();
        assert(a[a.len() - 1].0 == x.0);
        assert(b[b.len() - 1].0 == y.0);
        assert(x.0 == y.0) by {
            assert(map_of(b).dom().contains(x.0));
            assert(map_of(a).dom().contains(y.0));
            let i = choose|i: int| 0 <= i < b.len() && #[trigger] b[i].0 == x.0;
            let j = choose|j: int| 0 <= j < a.len() && #[trigger] a[j].0 == y.0;
            if i < b.len() - 1 && j < a.len() - 1 {
                assert(text_before(b[i].0, b[b.len() - 1].0));
                assert(text_before(a[j].0, a[a.len() - 1].0));
                lemma_text_before_transitive(x.0, y.0, x.0);
                lemma_text_before_irreflexive(x.0);
            }
        }
        assert(x.1 == y.1);
        let fa = a.drop_last();
        let fb = b.drop_last();
        assert(in_key_order(fa)) by {
            assert forall|i: int, j: int| 0 <= i < j < fa.len() implies text_before(
                #[trigger] fa[i].0,
                #[trigger] fa[j].0,
            ) by {
                assert(text_before(a[i].0, a[j].0));
            }
        }
        assert(in_key_order(fb)) by {
            assert forall|i: int, j: int| 0 <= i < j < fb.len() implies text_before(
                #[trigger] fb[i].0,
                #[trigger] fb[j].0,
            ) by {
                assert(text_before(b[i].0, b[j].0));
            }
        }
        lemma_in_key_order_distinct(fa);
        lemma_in_key_order_distinct(fb);
        lemma_map_of(fa);
        lemma_map_of(fb);
        assert(!map_of(fa).dom().contains(x.0)) by {
            if map_of(fa).dom().contains(x.0) {
                let i = choose|i: int| 0 <= i < fa.len() && #[trigger] fa[i].0 == x.0;
                assert(a[i].0 != a[a.len() - 1].0);
            }
        }
        assert(!map_of(fb).dom().contains(x.0)) by {
            if map_of(fb).dom().contains(x.0) {
                let i = choose|i: int| 0 <= i < fb.len() && #[trigger] fb[i].0 == x.0;
                assert(b[i].0 != b[b.len() - 1].0);
            }
        }
        assert(map_of(fa) =~= map_of(a).remove(x.0));
        assert(map_of(fb) =~= map_of(b).remove(x.0));
        lemma_key_order_unique(fa, fb);
        assert(fa.push(x) =~= a);
        assert(fb.push(y) =~= b);
    }
}

proof fn lemma_keys_between(
    list: Seq<(Seq<char>, Seq<char>)>,
    at: int,
    key: Seq<char>,
    value: Seq<char>,
)
    requires
        in_key_order(list),
        0 <= at <= list.len(),
        forall|j: int| 0 <= j < at ==> text_before(#[trigger] list[j].0, key),
        forall|j: int| at <= j < list.len() ==> text_before(key, #[trigger] list[j].0),
    ensures
        in_key_order(list.insert(at, (key, value))),
        map_of(list.insert(at, (key, value))) == map_of(list).insert(key, value),
{
    let longer = list.insert(at, (key, value));
    assert forall|i: int, j: int| 0 <= i < j < longer.len() implies text_before(
        #[trigger] longer[i].0,
        #[trigger] longer[j].0,
    ) by {
        let a = if i < at { i } else { i - 1 };
        let b = if j < at { j } else { j - 1 };
        assert(i != at ==> longer[i] == list[a]);
        assert(j != at ==> longer[j] == list[b]);
    }
    lemma_in_key_order_distinct(longer);
    lemma_in_key_order_distinct(list);
    lemma_map_of(longer);
    lemma_map_of(list);
    assert(longer[at].0 == key);
    let m = map_of(longer);
    let n = map_of(list).insert(key, value);
    assert forall|k: Seq<char>| m.dom().contains(k) <==> n.dom().contains(k) by {
        if m.dom().contains(k) {
            let i = choose|i: int| 0 <= i < longer.len() && #[trigger] longer[i].0 == k;
            if i < at {
                assert(list[i] == longer[i]);
            } else if i > at {
                assert(list[i - 1] == longer[i]);
            }
        }
        if n.dom().contains(k) && k != key {
            let i = choose|i: int| 0 <= i < list.len() && #[trigger] list[i].0 == k;
            if i < at {
                assert(longer[i] == list[i]);
            } else {
                assert(longer[i + 1] == list[i]);
            }
        }
    }
    assert forall|k: Seq<char>| m.dom().contains(k) implies m[k] == n[k] by {
        let i = choose|i: int| 0 <= i < longer.len() && #[trigger] longer[i].0 == k;
        if i < at {
            assert(list[i] == longer[i]);
            lemma_text_before_irreflexive(key);
        } else if i > at {
            assert(list[i - 1] == longer[i]);
            lemma_text_before_irreflexive(key);
        }
    }
    assert(m =~= n);
}

proof fn lemma_key_replaced(list: Seq<(Seq<char>, Seq<char>)>, at: int, value: Seq<char>)
    requires
        in_key_order(list),
        0 <= at < list.len(),
    ensures
        in_key_order(list.update(at, (list[at].0, value))),
        map_of(list.update(at, (list[at].0, value))) == map_of(list).insert(list[at].0, value),
{
    let key = list[at].0;
    let changed = list.update(at, (key, value));
    assert forall|i: int, j: int| 0 <= i < j < changed.len() implies text_before(
        #[trigger] changed[i].0,
        #[trigger] changed[j].0,
    ) by {
        assert(changed[i].0 == list[i].0);
        assert(changed[j].0 == list[j].0);
    }
    lemma_in_key_order_distinct(changed);
    lemma_in_key_order_distinct(list);
    lemma_map_of(changed);
    lemma_map_of(list);
    let m = map_of(changed);
    let n = map_of(list).insert(key, value);
    assert(changed[at].0 == key);
    assert forall|k: Seq<char>| m.dom().contains(k) <==> n.dom().contains(k) by {
        if m.dom().contains(k) {
            let i = choose|i: int| 0 <= i < changed.len() && #[trigger] changed[i].0 == k;
            assert(list[i].0 == k);
        }
        if n.dom().contains(k) && k != key {
            let i = choose|i: int| 0 <= i < list.len() && #[trigger] list[i].0 == k;
            assert(changed[i].0 == k);
        }
    }
    assert forall|k: Seq<char>| m.dom().contains(k) implies m[k] == n[k] by {
        let i = choose|i: int| 0 <= i < changed.len() && #[trigger] changed[i].0 == k;
        if i != at {
            assert(list[i].0 == k);
            assert(list[i].0 != list[at].0) by {
                if i < at {
                    assert(list[i].0 != list[at].0);
                } else {
                    assert(list[at].0 != list[i].0);
                }
            }
        }
    }
    assert(m =~= n);
}

// ---------------------------------------------------------------------
// The map
// ---------------------------------------------------------------------
/// A map from text to text, walked in the order of its keys.
#[derive(Debug, PartialEq, Eq)]
pub struct StringMap {
    entries: Vec<(String, String)>,
}

impl View for StringMap {
    type V = Map<Seq<char>, Seq<char>>;

    open spec fn view(&self) -> Map<Seq<char>, Seq<char>> {
        map_of(self.pairs())
    }
}

impl Clone for StringMap {
    fn clone(&self) -> (r: Self)
        ensures
            r@ == self@,
            r.pairs() == self.pairs(),
    {
        proof {
            use_type_invariant(self);
        }
        StringMap { entries: copy_text_pairs(&self.entries) }
    }
}

impl Default for StringMap {
    fn default() -> (r: Self)
        ensures
            r@ == Map::<Seq<char>, Seq<char>>::empty(),
    {
        StringMap::new()
    }
}

impl StringMap {
    /// The entries, in the order of their keys.
    pub closed spec fn pairs(&self) -> Seq<(Seq<char>, Seq<char>)> {
        text_pairs(self.entries@)
    }

    #[verifier::type_invariant]
    spec fn sorted(&self) -> bool {
        in_key_order(text_pairs(self.entries@))
    }

    /// The map without entries.
    pub fn new() -> (r: StringMap)
        ensures
            r@ == Map::<Seq<char>, Seq<char>>::empty(),
    {
        StringMap { entries: Vec::new() }
    }

    /// The map that holds `list`: of two pairs with one key the later counts.
    pub fn from_pairs(list: &Vec<(String, String)>) -> (r: StringMap)
        ensures
            r@ == map_of(text_pairs(list@)),
    {
        let mut r: StringMap = StringMap::new();
        let mut i: usize = 0;
        let ghost all = text_pairs(list@);
        while i < list.len()
            invariant
                i <= list.len(),
                all == text_pairs(list@),
                r@ == map_of(all.take(i as int)),
            decreases list.len() - i,
        {
            r.insert(list[i].0.clone(), list[i].1.clone());
            assert(all.take(i + 1).drop_last() =~= all.take(i as int));
            i = i + 1;
        }
        assert(all.take(i as int) =~= all);
        r
    }

    /// Number of entries.
    pub fn len(&self) -> (n: usize)
        ensures
            n == self.pairs().len(),
    {
        self.entries.len()
    }

    /// Whether there is no entry.
    pub fn is_empty(&self) -> (r: bool)
        ensures
            r == (self.pairs().len() == 0),
            r == (self@ == Map::<Seq<char>, Seq<char>>::empty()),
    {
        proof {
            use_type_invariant(self);
            lemma_in_key_order_distinct(self.pairs());
            lemma_map_of(self.pairs());
            if self.pairs().len() > 0 {
                assert(self@.dom().contains(self.pairs()[0].0));
            }
        }
        self.entries.len() == 0
    }

    /// The entries, in the order of their keys.
    pub fn entries(&self) -> (r: &Vec<(String, String)>)
        ensures
            text_pairs(r@) == self.pairs(),
            in_key_order(self.pairs()),
    {
        proof {
            use_type_invariant(self);
        }
        &self.entries
    }

    /// The entries, in the order of their keys.
    pub fn into_entries(self) -> (r: Vec<(String, String)>)
        ensures
            text_pairs(r@) == self.pairs(),
            in_key_order(text_pairs(r@)),
    {
        proof {
            use_type_invariant(&self);
        }
        self.entries
    }

    /// Where `key` stands or would stand among the entries.
    fn position(&self, key: &str) -> (r: (usize, bool))
        ensures
            r.0 <= self.pairs().len(),
            in_key_order(self.pairs()),
            forall|j: int| 0 <= j < r.0 ==> text_before(#[trigger] self.pairs()[j].0, key@),
            r.1 ==> r.0 < self.pairs().len() && self.pairs()[r.0 as int].0 == key@,
            !r.1 ==> forall|j: int|
                r.0 <= j < self.pairs().len() ==> text_before(key@, #[trigger] self.pairs()[j].0),
    {
        proof {
            use_type_invariant(self);
        }
        let mut i: usize = 0;
        while i < self.entries.len()
            invariant
                i <= self.entries.len(),
                in_key_order(self.pairs()),
                forall|j: int| 0 <= j < i ==> text_before(#[trigger] self.pairs()[j].0, key@),
            decreases self.entries.len() - i,
        {
            assert(self.pairs()[i as int].0 == self.entries@[i as int].0@);
            match place_of(self.entries[i].0.as_str(), key) {
                Place::Before => {
                    i = i + 1;
                },
                Place::Same => {
                    return (i, true);
                },
                Place::After => {
                    assert forall|j: int| i <= j < self.pairs().len() implies text_before(
                        key@,
                        #[trigger] self.pairs()[j].0,
                    ) by {
                        if j > i {
                            assert(text_before(self.pairs()[i as int].0, self.pairs()[j].0));
                            lemma_text_before_transitive(
                                key@,
                                self.pairs()[i as int].0,
                                self.pairs()[j].0,
                            );
                        }
                    }
                    return (i, false);
                },
            }
        }
        (i, false)
    }

    /// Gives `key` the value `value`.
    pub fn insert(&mut self, key: String, value: String)
        ensures
            final(self)@ == old(self)@.insert(key@, value@),
    {
        let (at, found) = self.position(key.as_str());
        let ghost before = self.pairs();
        let mut entries: Vec<(String, String)> = Vec::new();
        std::mem::swap(&mut entries, &mut self.entries);
        let ghost old_entries = entries@;
        let ghost k = key@;
        let ghost v = value@;
        if found {
            entries.set(at, (key, value));
            proof {
                assert(text_pairs(entries@) =~= before.update(at as int, (before[at as int].0, v)));
                lemma_key_replaced(before, at as int, v);
            }
        } else {
            entries.insert(at, (key, value));
            proof {
                assert(text_pairs(entries@) =~= before.insert(at as int, (k, v)));
                lemma_keys_between(before, at as int, k, v);
            }
        }
        self.entries = entries;
    }

    /// The value of `key`.
    pub fn get(&self, key: &str) -> (r: Option<String>)
        ensures
            match r {
                Some(v) => self@.dom().contains(key@) && self@[key@] == v@,
                None => !self@.dom().contains(key@),
            },
    {
        let (at, found) = self.position(key);
        proof {
            lemma_in_key_order_distinct(self.pairs());
            lemma_map_of(self.pairs());
        }
        if found {
            Some(self.entries[at].1.clone())
        } else {
            proof {
                if self@.dom().contains(key@) {
                    let i = choose|i: int|
                        0 <= i < self.pairs().len() && #[trigger] self.pairs()[i].0 == key@;
                    lemma_text_before_irreflexive(key@);
                }
            }
            None
        }
    }
}

/// The order of keys is that of their bytes: of two keys that are alike up to some
/// place, the one that ends there, or has the smaller byte there, comes first.
pub proof fn law_key_order(front: Seq<u8>, x: u8, y: u8, a: Seq<u8>, b: Seq<u8>)
    ensures
        bytes_before(front, front + seq![y] + b),
        !bytes_before(front + seq![y] + b, front),
        x < y ==> bytes_before(front + seq![x] + a, front + seq![y] + b),
        y < x ==> !bytes_before(front + seq![x] + a, front + seq![y] + b),
    decreases front.len(),
{
    let p = front + seq![x] + a;
    let q = front + seq![y] + b;
    if front.len() > 0 {
        law_key_order(front.skip(1), x, y, a, b);
        assert(p.skip(1) =~= front.skip(1) + seq![x] + a);
        assert(q.skip(1) =~= front.skip(1) + seq![y] + b);
        assert(p[0] == front[0] && q[0] == front[0]);
    } else {
        assert(p[0] == x && q[0] == y);
    }
}

} // verus!
