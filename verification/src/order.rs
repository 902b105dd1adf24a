//! Byte strings in lexicographic order, and lists that are sorted by them.
use vstd::prelude::*;

verus! {

/// Whether `a` and `b` agree before `k`, and there `a` ends or has the smaller byte.
pub open spec fn less_at(a: Seq<u8>, b: Seq<u8>, k: int) -> bool {
    &&& 0 <= k <= a.len()
    &&& k < b.len()
    &&& forall|i: int| 0 <= i < k ==> a[i] == b[i]
    &&& k < a.len() ==> a[k] < b[k]
}

/// Whether `a` comes before `b` in lexicographic order.
pub open spec fn less(a: Seq<u8>, b: Seq<u8>) -> bool {
    exists|k: int| #[trigger] less_at(a, b, k)
}

/// Nothing comes before itself; nothing comes before and after; of two different strings one
/// comes first; and what comes before a predecessor comes before.
pub proof fn lemma_less(a: Seq<u8>, b: Seq<u8>, c: Seq<u8>)
    ensures
        !less(a, a),
        !(less(a, b) && less(b, a)),
        a == b || less(a, b) || less(b, a),
        less(a, b) && less(b, c) ==> less(a, c),
{
    if less(a, a) {
        let k = choose|k: int| #[trigger] less_at(a, a, k);
        assert(false);
    }
    if less(a, b) && less(b, a) {
        let k = choose|k: int| #[trigger] less_at(a, b, k);
        let m = choose|m: int| #[trigger] less_at(b, a, m);
        if k < m {
            assert(b[k] == a[k]);
        } else if m < k {
            assert(a[m] == b[m]);
        }
        assert(false);
    }
    if less(a, b) && less(b, c) {
        let k = choose|k: int| #[trigger] less_at(a, b, k);
        let m = choose|m: int| #[trigger] less_at(b, c, m);
        if k <= m {
            assert(less_at(a, c, k)) by {
                assert forall|i: int| 0 <= i < k implies a[i] == c[i] by {
                    assert(a[i] == b[i] && b[i] == c[i]);
                }
                if k < a.len() && k < m {
                    assert(b[k] == c[k]);
                }
            }
        } else {
            assert(less_at(a, c, m)) by {
                assert forall|i: int| 0 <= i < m implies a[i] == c[i] by {
                    assert(a[i] == b[i] && b[i] == c[i]);
                }
                assert(a[m] == b[m]);
            }
        }
    }
    lemma_total(a, b, 0);
}

proof fn lemma_total(a: Seq<u8>, b: Seq<u8>, from: int)
    requires
        0 <= from <= a.len(),
        from <= b.len(),
        forall|i: int| 0 <= i < from ==> a[i] == b[i],
    ensures
        a == b || less(a, b) || less(b, a),
    decreases a.len() - from,
{
    if from == a.len() && from == b.len() {
        assert(a =~= b);
    } else if from == a.len() {
        assert(less_at(a, b, from));
    } else if from == b.len() {
        assert(less_at(b, a, from));
    } else if a[from] < b[from] {
        assert(less_at(a, b, from));
    } else if b[from] < a[from] {
        assert(less_at(b, a, from));
    } else {
        lemma_total(a, b, from + 1);
    }
}

/// How two byte strings stand to each other.
#[derive(Clone, Copy, Debug, PartialEq, Eq, Structural)]
pub enum Standing {
    Before,
    Same,
    After,
}

/// Tells how two byte strings stand to each other.
pub fn standing(a: &[u8], b: &[u8]) -> (standing: Standing)
    ensures
        match standing {
            Standing::Before => less(a@, b@),
            Standing::Same => a@ == b@,
            Standing::After => less(b@, a@),
        },
{
    let mut i: usize = 0;
    while i < a.len() && i < b.len()
        invariant
            i <= a.len(),
            i <= b.len(),
            forall|j: int| 0 <= j < i ==> a@[j] == b@[j],
        decreases a.len() - i,
    {
        if a[i] < b[i] {
            assert(less_at(a@, b@, i as int));
            return Standing::Before;
        }
        if b[i] < a[i] {
            assert(less_at(b@, a@, i as int));
            return Standing::After;
        }
        i = i + 1;
    }
    if i < b.len() {
        assert(less_at(a@, b@, i as int));
        Standing::Before
    } else if i < a.len() {
        assert(less_at(b@, a@, i as int));
        Standing::After
    } else {
        assert(a@ =~= b@);
        Standing::Same
    }
}

/// What can be sorted by a byte string.
pub trait Keyed: Sized {
    spec fn key(&self) -> Seq<u8>;

    fn key_bytes(&self) -> (bytes: Vec<u8>)
        ensures
            bytes@ == self.key(),
    ;
}

/// Whether a list is sorted by its keys, and none occurs twice.
pub open spec fn strictly_sorted<T: Keyed>(s: Seq<T>) -> bool {
    forall|i: int, j: int|
        0 <= i < j < s.len() ==> less((#[trigger] s[i]).key(), (#[trigger] s[j]).key())
}

/// Whether a key occurs in a list.
pub open spec fn has_key<T: Keyed>(s: Seq<T>, key: Seq<u8>) -> bool {
    exists|i: int| 0 <= i < s.len() && (#[trigger] s[i]).key() == key
}

/// Where a key is or belongs in a sorted list, and whether it is there.
fn place_of<T: Keyed>(list: &Vec<T>, key: &Vec<u8>) -> (place: (usize, bool))
    requires
        strictly_sorted(list@),
    ensures
        place.0 <= list@.len(),
        forall|j: int| 0 <= j < place.0 ==> less((#[trigger] list@[j]).key(), key@),
        place.1 ==> place.0 < list@.len() && list@[place.0 as int].key() == key@,
        !place.1 && place.0 < list@.len() ==> less(key@, list@[place.0 as int].key()),
{
    let mut at: usize = 0;
    while at < list.len()
        invariant
            at <= list.len(),
            forall|j: int| 0 <= j < at ==> less((#[trigger] list@[j]).key(), key@),
        decreases list.len() - at,
    {
        let other: Vec<u8> = list[at].key_bytes();
        match standing(other.as_slice(), key.as_slice()) {
            Standing::Before => {
                at = at + 1;
            },
            Standing::Same => {
                return (at, true);
            },
            Standing::After => {
                return (at, false);
            },
        }
    }
    (at, false)
}

/// Puts an item where its key belongs, unless the key is there already.
pub fn insert_sorted<T: Keyed>(list: &mut Vec<T>, item: T)
    requires
        strictly_sorted(old(list)@),
        old(list)@.len() < usize::MAX,
    ensures
        strictly_sorted(final(list)@),
        if has_key(old(list)@, item.key()) {
            final(list)@ == old(list)@
        } else {
            exists|at: int|
                0 <= at <= old(list)@.len() && final(list)@ == #[trigger] old(list)@.insert(at, item)
        },
{
    let key: Vec<u8> = item.key_bytes();
    let (at, found) = place_of(list, &key);
    if found {
        assert(list@[at as int].key() == item.key());
        return;
    }
    let ghost before = list@;
    proof {
        assert forall|j: int| 0 <= j < before.len() implies (#[trigger] before[j]).key() != key@ by {
            if j < at {
                lemma_less(before[j].key(), key@, key@);
            } else {
                lemma_less(key@, before[at as int].key(), before[j].key());
                lemma_less(before[j].key(), key@, key@);
            }
        }
    }
    list.insert(at, item);
    proof {
        let after = list@;
        assert forall|i: int, j: int| 0 <= i < j < after.len() implies less(
            (#[trigger] after[i]).key(),
            (#[trigger] after[j]).key(),
        ) by {
            if j < at {
                assert(after[i] == before[i] && after[j] == before[j]);
            } else if j == at {
                assert(after[i] == before[i]);
            } else if i < at {
                assert(after[i] == before[i] && after[j] == before[j - 1]);
            } else if i == at {
                assert(after[j] == before[j - 1]);
                lemma_less(key@, before[at as int].key(), before[j - 1].key());
            } else {
                assert(after[i] == before[i - 1] && after[j] == before[j - 1]);
            }
        }
    }
}

/// Whether a list is another in sorted order, with one item of each key kept: sorted, made of
/// items of the other, and with every key of the other.
pub open spec fn sorted_from<T: Keyed>(sorted: Seq<T>, items: Seq<T>) -> bool {
    &&& strictly_sorted(sorted)
    &&& forall|i: int| 0 <= i < sorted.len() ==> items.contains(#[trigger] sorted[i])
    &&& forall|i: int| 0 <= i < items.len() ==> has_key(sorted, (#[trigger] items[i]).key())
}

/// The items in sorted order, each key once.
pub fn sorted_distinct<T: Keyed>(items: Vec<T>) -> (sorted: Vec<T>)
    ensures
        sorted_from(sorted@, items@),
{
    let ghost all = items@;
    let count: usize = items.len();
    let mut rest: Vec<T> = items;
    let mut sorted: Vec<T> = Vec::new();
    while rest.len() > 0
        invariant
            rest@.len() + sorted@.len() <= all.len(),
            all.len() == count,
            rest@ =~= all.take(rest@.len() as int),
            strictly_sorted(sorted@),
            forall|i: int| 0 <= i < sorted@.len() ==> all.contains(#[trigger] sorted@[i]),
            forall|i: int|
                rest@.len() <= i < all.len() ==> has_key(sorted@, (#[trigger] all[i]).key()),
        decreases rest@.len(),
    {
        let ghost before = sorted@;
        let ghost last = rest@.len() - 1;
        let item: T = rest.remove(rest.len() - 1);
        let ghost value = item;
        assert(value == all[last]);
        insert_sorted(&mut sorted, item);
        proof {
            let after = sorted@;
            if has_key(before, value.key()) {
            } else {
                let at = choose|at: int|
                    0 <= at <= before.len() && after == #[trigger] before.insert(at, value);
                assert(after[at] == value);
                assert forall|i: int| 0 <= i < after.len() implies all.contains(
                    #[trigger] after[i],
                ) by {
                    if i < at {
                        assert(after[i] == before[i]);
                    } else if i == at {
                        assert(all[last] == after[i]);
                    } else {
                        assert(after[i] == before[i - 1]);
                    }
                }
                assert forall|key: Seq<u8>| has_key(before, key) implies has_key(after, key) by {
                    let i = choose|i: int| 0 <= i < before.len() && (#[trigger] before[i]).key() == key;
                    if i < at {
                        assert(after[i] == before[i]);
                    } else {
                        assert(after[i + 1] == before[i]);
                    }
                }
            }
        }
    }
    sorted
}

/// There is only one way to sort: two sorted lists with the same keys have them in the same
/// places.
pub proof fn law_sorting_is_unique<T: Keyed>(a: Seq<T>, b: Seq<T>)
    requires
        strictly_sorted(a),
        strictly_sorted(b),
        forall|key: Seq<u8>| #[trigger] has_key(a, key) <==> has_key(b, key),
    ensures
        a.len() == b.len(),
        forall|i: int| 0 <= i < a.len() ==> (#[trigger] a[i]).key() == b[i].key(),
    decreases a.len(),
{
    if a.len() == 0 {
        if b.len() > 0 {
            assert(has_key(b, b[0].key()));
            assert(has_key(a, b[0].key()));
        }
    } else {
        assert(has_key(a, a.last().key())) by {
            assert(a[a.len() - 1].key() == a.last().key());
        }
        assert(b.len() > 0);
        assert(has_key(b, b.last().key())) by {
            assert(b[b.len() - 1].key() == b.last().key());
        }
        assert(has_key(a, b.last().key()));
        let i = choose|i: int| 0 <= i < a.len() && (#[trigger] a[i]).key() == b.last().key();
        let j = choose|j: int| 0 <= j < b.len() && (#[trigger] b[j]).key() == a.last().key();
        assert(a.last().key() == b.last().key()) by {
            if i < a.len() - 1 && j < b.len() - 1 {
                assert(less(a[i].key(), a[a.len() - 1].key()));
                assert(less(b[j].key(), b[b.len() - 1].key()));
                lemma_less(a.last().key(), b.last().key(), a.last().key());
            }
        }
        let front = a.drop_last();
        let other = b.drop_last();
        assert forall|key: Seq<u8>| #[trigger] has_key(front, key) <==> has_key(other, key) by {
            lemma_front_keys(a, key);
            lemma_front_keys(b, key);
        }
        law_sorting_is_unique(front, other);
        assert forall|i: int| 0 <= i < a.len() implies (#[trigger] a[i]).key() == b[i].key() by {
            if i < front.len() {
                assert(front[i] == a[i] && other[i] == b[i]);
            }
        }
    }
}

proof fn lemma_front_keys<T: Keyed>(s: Seq<T>, key: Seq<u8>)
    requires
        strictly_sorted(s),
        s.len() > 0,
    ensures
        has_key(s.drop_last(), key) <==> has_key(s, key) && key != s.last().key(),
{
    let front = s.drop_last();
    if has_key(front, key) {
        let i = choose|i: int| 0 <= i < front.len() && (#[trigger] front[i]).key() == key;
        assert(s[i] == front[i]);
        assert(less(s[i].key(), s[s.len() - 1].key()));
        lemma_less(key, s.last().key(), key);
    }
    if has_key(s, key) && key != s.last().key() {
        let i = choose|i: int| 0 <= i < s.len() && (#[trigger] s[i]).key() == key;
        assert(front[i] == s[i]);
    }
}

/// The first byte in which two strings differ decides which comes first, whatever follows it; and
/// what begins like another and goes on comes after it.
pub proof fn law_the_first_difference_decides(
    front: Seq<u8>,
    x: u8,
    y: u8,
    a: Seq<u8>,
    b: Seq<u8>,
)
    ensures
        x < y ==> less(front.push(x) + a, front.push(y) + b),
        less(front, front.push(x) + a),
        !less(front.push(x) + a, front),
{
    let l = front.push(x) + a;
    let r = front.push(y) + b;
    if x < y {
        assert(less_at(l, r, front.len() as int));
    }
    assert(less_at(front, l, front.len() as int));
    lemma_less(front, l, front);
}

} // verus!
