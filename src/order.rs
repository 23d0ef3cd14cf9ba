//! Ordering of titles and the stable insertion sort used to arrange the
//! children of a container widget by the titles of their items.
use vstd::prelude::*;

verus! {

/// Lexicographic order on character sequences, comparing code points.
/// This is the order of `String` in Rust (UTF-8 byte order equals code point order).
pub open spec fn title_le(a: Seq<char>, b: Seq<char>) -> bool
    decreases a.len(),
{
    if a.len() == 0 {
        true
    } else if b.len() == 0 {
        false
    } else if a[0] != b[0] {
        (a[0] as int) < (b[0] as int)
    } else {
        title_le(a.drop_first(), b.drop_first())
    }
}

/// Any two titles are comparable.
pub proof fn lemma_title_le_total(a: Seq<char>, b: Seq<char>)
    ensures
        title_le(a, b) || title_le(b, a),
    decreases a.len(),
{
    if a.len() > 0 && b.len() > 0 {
        if a[0] == b[0] {
            lemma_title_le_total(a.drop_first(), b.drop_first());
        } else {
            assert((a[0] as int) != (b[0] as int));
        }
    }
}

/// The key of a child: the title of the item that owns it.
pub open spec fn key_le(keys: Map<u64, Seq<char>>, x: u64, y: u64) -> bool {
    title_le(keys[x], keys[y])
}

/// Every child is ordered no later than its right neighbour.
pub open spec fn sorted_by_key(s: Seq<u64>, keys: Map<u64, Seq<char>>) -> bool {
    forall|i: int| 0 <= i < s.len() - 1 ==> key_le(keys, #[trigger] s[i], s[i + 1])
}

/// Inserts `x` into `s` after every element whose key is not greater than its own.
pub open spec fn insert_by_key(s: Seq<u64>, x: u64, keys: Map<u64, Seq<char>>) -> Seq<u64>
    decreases s.len(),
{
    if s.len() == 0 || key_le(keys, s.last(), x) {
        s.push(x)
    } else {
        insert_by_key(s.drop_last(), x, keys).push(s.last())
    }
}

/// Stable insertion sort of `s` by the keys of its elements.
pub open spec fn sort_by_key(s: Seq<u64>, keys: Map<u64, Seq<char>>) -> Seq<u64>
    decreases s.len(),
{
    if s.len() == 0 {
        s
    } else {
        insert_by_key(sort_by_key(s.drop_last(), keys), s.last(), keys)
    }
}

proof fn lemma_insert_len(s: Seq<u64>, x: u64, keys: Map<u64, Seq<char>>)
    ensures
        insert_by_key(s, x, keys).len() == s.len() + 1,
        insert_by_key(s, x, keys).to_multiset() =~= s.to_multiset().insert(x),
    decreases s.len(),
{
    broadcast use vstd::seq_lib::group_to_multiset_ensures;

    if s.len() == 0 || key_le(keys, s.last(), x) {
    } else {
        lemma_insert_len(s.drop_last(), x, keys);
        assert(s =~= s.drop_last().push(s.last()));
    }
}

proof fn lemma_insert_last(s: Seq<u64>, x: u64, keys: Map<u64, Seq<char>>)
    ensures
        insert_by_key(s, x, keys).last() == x || (s.len() > 0 && insert_by_key(s, x, keys).last()
            == s.last()),
    decreases s.len(),
{
}

proof fn lemma_insert_sorted(s: Seq<u64>, x: u64, keys: Map<u64, Seq<char>>)
    requires
        sorted_by_key(s, keys),
    ensures
        sorted_by_key(insert_by_key(s, x, keys), keys),
    decreases s.len(),
{
    lemma_insert_len(s, x, keys);
    if s.len() == 0 || key_le(keys, s.last(), x) {
        let r = s.push(x);
        assert forall|i: int| 0 <= i < r.len() - 1 implies key_le(keys, #[trigger] r[i], r[i + 1]) by {
            if i < s.len() - 1 {
                assert(r[i] == s[i] && r[i + 1] == s[i + 1]);
            }
        }
    } else {
        let p = s.drop_last();
        let q = insert_by_key(p, x, keys);
        assert(sorted_by_key(p, keys)) by {
            assert forall|i: int| 0 <= i < p.len() - 1 implies key_le(keys, #[trigger] p[i], p[i + 1]) by {
                assert(p[i] == s[i] && p[i + 1] == s[i + 1]);
            }
        }
        lemma_insert_sorted(p, x, keys);
        lemma_insert_len(p, x, keys);
        lemma_insert_last(p, x, keys);
        lemma_title_le_total(keys[s.last()], keys[x]);
        let r = q.push(s.last());
        assert(key_le(keys, q.last(), s.last())) by {
            if q.last() != x {
                assert(s[s.len() - 2] == p.last());
            }
        }
        assert forall|i: int| 0 <= i < r.len() - 1 implies key_le(keys, #[trigger] r[i], r[i + 1]) by {
            if i < q.len() - 1 {
                assert(r[i] == q[i] && r[i + 1] == q[i + 1]);
            }
        }
    }
}

/// The sort yields an ordered permutation of its input.
pub proof fn lemma_sort_sorted(s: Seq<u64>, keys: Map<u64, Seq<char>>)
    ensures
        sorted_by_key(sort_by_key(s, keys), keys),
        sort_by_key(s, keys).len() == s.len(),
        sort_by_key(s, keys).to_multiset() =~= s.to_multiset(),
    decreases s.len(),
{
    broadcast use vstd::seq_lib::group_to_multiset_ensures;

    if s.len() > 0 {
        lemma_sort_sorted(s.drop_last(), keys);
        lemma_insert_sorted(sort_by_key(s.drop_last(), keys), s.last(), keys);
        lemma_insert_len(sort_by_key(s.drop_last(), keys), s.last(), keys);
        assert(s =~= s.drop_last().push(s.last()));
    }
}

/// A sequence that is already ordered is left as it is.
pub proof fn lemma_sort_of_sorted(s: Seq<u64>, keys: Map<u64, Seq<char>>)
    requires
        sorted_by_key(s, keys),
    ensures
        sort_by_key(s, keys) == s,
    decreases s.len(),
{
    if s.len() > 0 {
        let p = s.drop_last();
        assert(sorted_by_key(p, keys)) by {
            assert forall|i: int| 0 <= i < p.len() - 1 implies key_le(keys, #[trigger] p[i], p[i + 1]) by {
                assert(p[i] == s[i] && p[i + 1] == s[i + 1]);
            }
        }
        lemma_sort_of_sorted(p, keys);
        if p.len() > 0 {
            assert(p.last() == s[s.len() - 2]);
        }
        assert(p.push(s.last()) =~= s);
    }
}

/// Sorting twice in succession, with the keys unchanged, gives the order of the first sort.
pub proof fn lemma_sort_idempotent(s: Seq<u64>, keys: Map<u64, Seq<char>>)
    ensures
        sort_by_key(sort_by_key(s, keys), keys) == sort_by_key(s, keys),
{
    lemma_sort_sorted(s, keys);
    lemma_sort_of_sorted(sort_by_key(s, keys), keys);
}

/// Inserting at the position found by scanning from the right is the insertion above.
pub proof fn lemma_insert_at(s: Seq<u64>, x: u64, keys: Map<u64, Seq<char>>, j: int)
    requires
        0 <= j <= s.len(),
        forall|k: int| j <= k < s.len() ==> !key_le(keys, #[trigger] s[k], x),
        j == 0 || key_le(keys, s[j - 1], x),
    ensures
        insert_by_key(s, x, keys) == s.insert(j, x),
    decreases s.len(),
{
    if j == s.len() {
        assert(s.insert(j, x) =~= s.push(x));
    } else {
        let p = s.drop_last();
        assert(!key_le(keys, s[s.len() - 1], x));
        assert forall|k: int| j <= k < p.len() implies !key_le(keys, #[trigger] p[k], x) by {
            assert(p[k] == s[k]);
        }
        if j > 0 {
            assert(p[j - 1] == s[j - 1]);
        }
        lemma_insert_at(p, x, keys, j);
        assert(p.insert(j, x).push(s.last()) =~= s.insert(j, x));
    }
}

/// Compares two titles in the order of `title_le`.
pub fn title_le_exec(a: &str, b: &str) -> (r: bool)
    ensures
        r == title_le(a@, b@),
{
    let la = a.unicode_len();
    let lb = b.unicode_len();
    let mut i: usize = 0;
    assert(a@.skip(0) =~= a@ && b@.skip(0) =~= b@);
    while i < la && i < lb
        invariant
            la == a@.len(),
            lb == b@.len(),
            i <= la,
            i <= lb,
            title_le(a@, b@) == title_le(a@.skip(i as int), b@.skip(i as int)),
        decreases la - i,
    {
        let ca = a.get_char(i);
        let cb = b.get_char(i);
        if ca != cb {
            assert(a@.skip(i as int)[0] == ca && b@.skip(i as int)[0] == cb);
            return (ca as u32) < (cb as u32);
        }
        assert(a@.skip(i as int).drop_first() =~= a@.skip(i + 1));
        assert(b@.skip(i as int).drop_first() =~= b@.skip(i + 1));
        i = i + 1;
    }
    assert(a@.skip(i as int).len() == la - i);
    i == la
}

} // verus!
