//! Ordering of entries by a rank and a name, used wherever a listing must be
//! reproducible.

use vstd::prelude::*;
use vstd::set_lib::{lemma_int_range, set_int_range};
use crate::text::{
    chars_lt, lemma_text_lt_asymmetric, lemma_text_lt_total, lemma_text_lt_transitive, text_lt,
};

verus! {

/// What an entry is ordered by: first its rank, then its name.
pub struct SortKey {
    pub rank: u64,
    pub name: Vec<char>,
}

impl View for SortKey {
    type V = (int, Seq<char>);

    open spec fn view(&self) -> (int, Seq<char>) {
        (self.rank as int, self.name@)
    }
}

/// `a` comes strictly before `b`: by smaller rank, or at equal rank by the
/// name that is first in code-point order.
pub open spec fn key_lt(a: (int, Seq<char>), b: (int, Seq<char>)) -> bool {
    a.0 < b.0 || (a.0 == b.0 && text_lt(a.1, b.1))
}

/// The keys of a list of sort keys.
pub open spec fn key_views(keys: Seq<SortKey>) -> Seq<(int, Seq<char>)> {
    keys.map_values(|k: SortKey| k@)
}

/// The key at the `j`-th listed position.
pub open spec fn listed(keys: Seq<(int, Seq<char>)>, order: Seq<usize>, j: int) -> (int, Seq<char>) {
    keys[order[j] as int]
}

/// The key at position `i` of the list occurs among the listed positions.
pub open spec fn is_listed(keys: Seq<(int, Seq<char>)>, order: Seq<usize>, i: int) -> bool {
    exists|j: int| 0 <= j < order.len() && #[trigger] listed(keys, order, j) == keys[i]
}

/// The `j`-th listed position is the first at which its key occurs.
pub open spec fn is_first(keys: Seq<(int, Seq<char>)>, order: Seq<usize>, j: int) -> bool {
    forall|i: int| 0 <= i < order[j] ==> #[trigger] keys[i] != listed(keys, order, j)
}

/// `order` lists positions of `keys` such that the keys at those positions
/// strictly increase, every key of the list occurs among them, and each is the
/// first position at which its key occurs.
pub open spec fn is_sorted_order(keys: Seq<(int, Seq<char>)>, order: Seq<usize>) -> bool {
    &&& forall|j: int| 0 <= j < order.len() ==> (#[trigger] order[j]) < keys.len()
    &&& forall|j: int, k: int|
        0 <= j < k < order.len() ==> key_lt(
            #[trigger] listed(keys, order, j),
            #[trigger] listed(keys, order, k),
        )
    &&& forall|i: int| 0 <= i < keys.len() ==> #[trigger] is_listed(keys, order, i)
    &&& forall|j: int| 0 <= j < order.len() ==> #[trigger] is_first(keys, order, j)
}

/// The order on keys is transitive.
pub proof fn lemma_key_lt_transitive(a: (int, Seq<char>), b: (int, Seq<char>), c: (int, Seq<char>))
    requires
        key_lt(a, b),
        key_lt(b, c),
    ensures
        key_lt(a, c),
{
    if a.0 == b.0 && b.0 == c.0 {
        lemma_text_lt_transitive(a.1, b.1, c.1);
    }
}

/// The order on keys is total: of two different keys one comes first.
pub proof fn lemma_key_lt_total(a: (int, Seq<char>), b: (int, Seq<char>))
    ensures
        a == b || key_lt(a, b) || key_lt(b, a),
{
    lemma_text_lt_total(a.1, b.1);
}

/// No key comes before itself, and two keys cannot each come before the other.
pub proof fn lemma_key_lt_asymmetric(a: (int, Seq<char>), b: (int, Seq<char>))
    requires
        key_lt(a, b),
    ensures
        !key_lt(b, a),
        a != b,
{
    if a.0 == b.0 {
        lemma_text_lt_asymmetric(a.1, b.1);
    }
}

/// Decides [`key_lt`].
pub fn key_before(a: &SortKey, b: &SortKey) -> (before: bool)
    ensures
        before == key_lt(a@, b@),
{
    if a.rank < b.rank {
        true
    } else if a.rank > b.rank {
        false
    } else {
        chars_lt(&a.name, &b.name)
    }
}

/// Listing a new key at the place where it belongs keeps the order.
proof fn lemma_insert_keeps_order(
    seen: Seq<(int, Seq<char>)>,
    key: (int, Seq<char>),
    old_order: Seq<usize>,
    at: int,
)
    requires
        is_sorted_order(seen, old_order),
        seen.len() < usize::MAX,
        0 <= at <= old_order.len(),
        forall|j: int| 0 <= j < at ==> key_lt(#[trigger] listed(seen, old_order, j), key),
        at < old_order.len() ==> key_lt(key, listed(seen, old_order, at)),
    ensures
        is_sorted_order(seen.push(key), old_order.insert(at, seen.len() as usize)),
{
    let grown = seen.push(key);
    let new_order = old_order.insert(at, seen.len() as usize);
    assert forall|j: int| 0 <= j < new_order.len() implies (#[trigger] new_order[j])
        < grown.len() by {
        if j < at {
            assert(new_order[j] == old_order[j]);
        } else if j > at {
            assert(new_order[j] == old_order[j - 1]);
        }
    }
    // What the new order lists, in terms of the old one.
    assert forall|j: int| 0 <= j < new_order.len() implies #[trigger] listed(grown, new_order, j)
        == (if j < at {
        listed(seen, old_order, j)
    } else if j == at {
        key
    } else {
        listed(seen, old_order, j - 1)
    }) by {
        if j < at {
            assert(new_order[j] == old_order[j]);
        } else if j > at {
            assert(new_order[j] == old_order[j - 1]);
        }
    }
    // Every listed key from `at` on comes after the new key.
    assert forall|j: int| at <= j < old_order.len() implies key_lt(
        key,
        #[trigger] listed(seen, old_order, j),
    ) by {
        if j > at {
            assert(key_lt(listed(seen, old_order, at), listed(seen, old_order, j)));
            lemma_key_lt_transitive(key, listed(seen, old_order, at), listed(seen, old_order, j));
        }
    }
    assert forall|j: int, k: int| 0 <= j < k < new_order.len() implies key_lt(
        #[trigger] listed(grown, new_order, j),
        #[trigger] listed(grown, new_order, k),
    ) by {
        if k == at {
            assert(key_lt(listed(seen, old_order, j), key));
        } else if j == at {
            assert(key_lt(key, listed(seen, old_order, k - 1)));
        } else {
            let oj = if j < at { j } else { j - 1 };
            let ok = if k < at { k } else { k - 1 };
            assert(key_lt(listed(seen, old_order, oj), listed(seen, old_order, ok)));
        }
    }
    assert forall|i: int| 0 <= i < grown.len() implies #[trigger] is_listed(
        grown,
        new_order,
        i,
    ) by {
        if i == seen.len() {
            assert(listed(grown, new_order, at) == grown[i]);
        } else {
            assert(is_listed(seen, old_order, i));
            let j0 = choose|j: int|
                0 <= j < old_order.len() && #[trigger] listed(seen, old_order, j) == seen[i];
            let j1 = if j0 < at { j0 } else { j0 + 1 };
            assert(listed(grown, new_order, j1) == grown[i]);
        }
    }
    assert forall|j: int| 0 <= j < new_order.len() implies #[trigger] is_first(
        grown,
        new_order,
        j,
    ) by {
        if j == at {
            assert forall|i: int| 0 <= i < new_order[j] implies #[trigger] grown[i] != listed(
                grown,
                new_order,
                j,
            ) by {
                assert(is_listed(seen, old_order, i));
                let j0 = choose|j0: int|
                    0 <= j0 < old_order.len() && #[trigger] listed(seen, old_order, j0) == seen[i];
                if j0 < at {
                    lemma_key_lt_asymmetric(listed(seen, old_order, j0), key);
                } else {
                    lemma_key_lt_asymmetric(key, listed(seen, old_order, j0));
                }
            }
        } else {
            let oj = if j < at { j } else { j - 1 };
            assert(is_first(seen, old_order, oj));
            assert(new_order[j] == old_order[oj]);
            assert forall|i: int| 0 <= i < new_order[j] implies #[trigger] grown[i] != listed(
                grown,
                new_order,
                j,
            ) by {
                assert(seen[i] != listed(seen, old_order, oj));
            }
        }
    }
}

/// A key that is already listed leaves the order as it is.
proof fn lemma_duplicate_keeps_order(
    seen: Seq<(int, Seq<char>)>,
    key: (int, Seq<char>),
    order: Seq<usize>,
    at: int,
)
    requires
        is_sorted_order(seen, order),
        0 <= at < order.len(),
        listed(seen, order, at) == key,
    ensures
        is_sorted_order(seen.push(key), order),
{
    let grown = seen.push(key);
    assert forall|j: int| 0 <= j < order.len() implies #[trigger] listed(grown, order, j)
        == listed(seen, order, j) by {}
    assert forall|j: int, k: int| 0 <= j < k < order.len() implies key_lt(
        #[trigger] listed(grown, order, j),
        #[trigger] listed(grown, order, k),
    ) by {
        assert(key_lt(listed(seen, order, j), listed(seen, order, k)));
    }
    assert forall|i: int| 0 <= i < grown.len() implies #[trigger] is_listed(grown, order, i) by {
        if i == seen.len() {
            assert(listed(grown, order, at) == grown[i]);
        } else {
            assert(is_listed(seen, order, i));
            let j0 = choose|j: int|
                0 <= j < order.len() && #[trigger] listed(seen, order, j) == seen[i];
            assert(listed(grown, order, j0) == grown[i]);
        }
    }
    assert forall|j: int| 0 <= j < order.len() implies #[trigger] is_first(grown, order, j) by {
        assert(is_first(seen, order, j));
        assert forall|i: int| 0 <= i < order[j] implies #[trigger] grown[i] != listed(
            grown,
            order,
            j,
        ) by {
            assert(seen[i] != listed(seen, order, j));
        }
    }
}

/// When all keys differ, the order lists every position: it is as long as
/// the list of keys.
pub proof fn lemma_order_of_distinct_keys(keys: Seq<(int, Seq<char>)>, order: Seq<usize>)
    requires
        is_sorted_order(keys, order),
        forall|i: int, j: int| 0 <= i < j < keys.len() ==> #[trigger] keys[i] != #[trigger] keys[j],
    ensures
        order.len() == keys.len(),
{
    let positions = Seq::new(order.len(), |j: int| order[j] as int);
    assert forall|a: int, b: int| 0 <= a < positions.len() && 0 <= b < positions.len() && a
        != b implies positions[a] != positions[b] by {
        if a < b {
            assert(key_lt(listed(keys, order, a), listed(keys, order, b)));
            lemma_key_lt_asymmetric(listed(keys, order, a), listed(keys, order, b));
        } else {
            assert(key_lt(listed(keys, order, b), listed(keys, order, a)));
            lemma_key_lt_asymmetric(listed(keys, order, b), listed(keys, order, a));
        }
    }
    assert(positions.no_duplicates());
    positions.unique_seq_to_set();
    lemma_int_range(0, keys.len() as int);
    assert(positions.to_set() =~= set_int_range(0, keys.len() as int)) by {
        assert forall|i: int| set_int_range(0, keys.len() as int).contains(i) implies positions.to_set().contains(
            i,
        ) by {
            assert(is_listed(keys, order, i));
            let j = choose|j: int| 0 <= j < order.len() && #[trigger] listed(keys, order, j) == keys[i];
            let held = order[j] as int;
            if held < i {
                assert(keys[held] != keys[i]);
            } else if i < held {
                assert(keys[i] != keys[held]);
            }
            assert(positions[j] == i);
        }
        assert forall|i: int| positions.to_set().contains(i) implies set_int_range(
            0,
            keys.len() as int,
        ).contains(i) by {
            let j = choose|j: int| 0 <= j < positions.len() && positions[j] == i;
            assert(order[j] < keys.len());
        }
    }
}

/// The positions of the distinct keys, in increasing order of key. Of several
/// positions with the same key the first is listed.
pub fn sorted_order(keys: &Vec<SortKey>) -> (order: Vec<usize>)
    ensures
        is_sorted_order(key_views(keys@), order@),
{
    let ghost views = key_views(keys@);
    let mut order: Vec<usize> = Vec::new();
    let mut next: usize = 0;
    assert(is_sorted_order(views.take(0), order@));
    while next < keys.len()
        invariant
            next <= keys.len(),
            views == key_views(keys@),
            is_sorted_order(views.take(next as int), order@),
        decreases keys.len() - next,
    {
        let ghost seen = views.take(next as int);
        let ghost old_order = order@;
        let ghost key = views[next as int];
        assert(keys@[next as int]@ == key);
        assert(views.take(next + 1) =~= seen.push(key));
        let mut at: usize = 0;
        while at < order.len() && key_before(&keys[order[at]], &keys[next])
            invariant
                next < keys.len(),
                views == key_views(keys@),
                key == views[next as int],
                order@ == old_order,
                seen == views.take(next as int),
                is_sorted_order(seen, order@),
                at <= order.len(),
                forall|j: int| 0 <= j < at ==> key_lt(#[trigger] listed(seen, old_order, j), key),
            decreases order.len() - at,
        {
            assert(listed(seen, old_order, at as int) == keys@[order@[at as int] as int]@);
            at += 1;
        }
        let fresh: bool = if at < order.len() {
            assert(listed(seen, old_order, at as int) == keys@[order@[at as int] as int]@);
            key_before(&keys[next], &keys[order[at]])
        } else {
            true
        };
        if fresh {
            order.insert(at, next);
            proof {
                lemma_insert_keeps_order(seen, key, old_order, at as int);
            }
        } else {
            proof {
                lemma_key_lt_total(listed(seen, old_order, at as int), key);
                lemma_duplicate_keeps_order(seen, key, old_order, at as int);
            }
        }
        next += 1;
    }
    assert(views.take(next as int) =~= views);
    order
}

} // verus!
