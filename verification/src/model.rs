//! The mathematical model of the store's contents: a sequence of key/value
//! entries, viewed as a map from key to value.

use vstd::prelude::*;

verus! {

/// No key occurs twice in the entry sequence.
pub open spec fn unique_keys(s: Seq<(String, String)>) -> bool {
    forall|i: int, j: int|
        0 <= i < j < s.len() ==> (#[trigger] s[i]).0@ != (#[trigger] s[j]).0@
}

/// The map that a sequence of entries denotes: later entries win.
pub open spec fn map_of(s: Seq<(String, String)>) -> Map<Seq<char>, Seq<char>>
    decreases s.len(),
{
    if s.len() == 0 {
        Map::empty()
    } else {
        map_of(s.drop_last()).insert(s.last().0@, s.last().1@)
    }
}

/// A key is in the map exactly when some entry carries it.
pub proof fn lemma_map_of_contains(s: Seq<(String, String)>, k: Seq<char>)
    ensures
        map_of(s).contains_key(k) <==> exists|i: int| 0 <= i < s.len() && (#[trigger] s[i]).0@ == k,
    decreases s.len(),
{
    if s.len() > 0 {
        lemma_map_of_contains(s.drop_last(), k);
        if s.last().0@ == k {
            assert(s[s.len() - 1].0@ == k);
        } else if map_of(s).contains_key(k) {
            let i = choose|i: int| 0 <= i < s.drop_last().len() && (#[trigger] s.drop_last()[i]).0@ == k;
            assert(s[i].0@ == k);
        } else {
            assert forall|i: int| 0 <= i < s.len() && (#[trigger] s[i]).0@ == k implies false by {
                if i < s.len() - 1 {
                    assert(s.drop_last()[i].0@ == k);
                }
            }
        }
    }
}

/// The denoted map's domain is always finite.
pub proof fn lemma_map_of_finite(s: Seq<(String, String)>)
    ensures
        map_of(s).dom().finite(),
    decreases s.len(),
{
    if s.len() > 0 {
        lemma_map_of_finite(s.drop_last());
    }
}

/// Dropping the last entry keeps the keys unique.
pub proof fn lemma_unique_drop_last(s: Seq<(String, String)>)
    requires
        unique_keys(s),
        s.len() > 0,
    ensures
        unique_keys(s.drop_last()),
{
    assert forall|x: int, y: int|
        0 <= x < y < s.drop_last().len() implies (#[trigger] s.drop_last()[x]).0@
        != (#[trigger] s.drop_last()[y]).0@ by {
        assert(s[x] == s.drop_last()[x]);
        assert(s[y] == s.drop_last()[y]);
    }
}

/// With unique keys, the entry at any index gives the map's value at its key.
pub proof fn lemma_map_of_index(s: Seq<(String, String)>, i: int)
    requires
        unique_keys(s),
        0 <= i < s.len(),
    ensures
        map_of(s).contains_key(s[i].0@),
        map_of(s)[s[i].0@] == s[i].1@,
    decreases s.len(),
{
    if i == s.len() - 1 {
        assert(s.last() == s[i]);
    } else {
        lemma_unique_drop_last(s);
        lemma_map_of_index(s.drop_last(), i);
        assert(s.drop_last()[i] == s[i]);
        assert(s[i].0@ != s[s.len() - 1].0@);
    }
}

/// With unique keys the map has exactly one element per entry.
pub proof fn lemma_map_of_len(s: Seq<(String, String)>)
    requires
        unique_keys(s),
    ensures
        map_of(s).dom().finite(),
        map_of(s).len() == s.len(),
    decreases s.len(),
{
    if s.len() == 0 {
    } else {
        lemma_unique_drop_last(s);
        lemma_map_of_len(s.drop_last());
        lemma_map_of_contains(s.drop_last(), s.last().0@);
        assert forall|i: int| 0 <= i < s.drop_last().len() implies (#[trigger] s.drop_last()[i]).0@
            != s.last().0@ by {
            assert(s[i] == s.drop_last()[i]);
            assert(s[i].0@ != s[s.len() - 1].0@);
        }
        assert(!map_of(s.drop_last()).contains_key(s.last().0@));
    }
}

/// One line per entry, `key: value`, in the order given.
pub open spec fn render_entries(s: Seq<(Seq<char>, Seq<char>)>) -> Seq<char>
    decreases s.len(),
{
    if s.len() == 0 {
        Seq::empty()
    } else {
        render_entries(s.drop_last()) + s.last().0 + ": "@ + s.last().1 + "\n"@
    }
}

/// Appending an entry inserts its binding into the map.
pub proof fn lemma_map_of_push(s: Seq<(String, String)>, e: (String, String))
    ensures
        map_of(s.push(e)) == map_of(s).insert(e.0@, e.1@),
{
    assert(s.push(e).drop_last() =~= s);
    assert(s.push(e).last() == e);
}

/// Removing the entry at an index removes exactly its key from the map.
pub proof fn lemma_map_of_remove(s: Seq<(String, String)>, i: int)
    requires
        unique_keys(s),
        0 <= i < s.len(),
    ensures
        unique_keys(s.remove(i)),
        map_of(s.remove(i)) =~= map_of(s).remove(s[i].0@),
    decreases s.len(),
{
    assert(unique_keys(s.remove(i))) by {
        assert forall|x: int, y: int|
            0 <= x < y < s.remove(i).len() implies (#[trigger] s.remove(i)[x]).0@
            != (#[trigger] s.remove(i)[y]).0@ by {
            let x0: int = if x < i { x } else { x + 1 };
            let y0: int = if y < i { y } else { y + 1 };
            assert(s.remove(i)[x] == s[x0]);
            assert(s.remove(i)[y] == s[y0]);
        }
    }
    lemma_unique_drop_last(s);
    if i == s.len() - 1 {
        assert(s.remove(i) =~= s.drop_last());
        lemma_map_of_contains(s.drop_last(), s[i].0@);
        assert forall|j: int| 0 <= j < s.drop_last().len() implies (#[trigger] s.drop_last()[j]).0@
            != s[i].0@ by {
            assert(s[j] == s.drop_last()[j]);
        }
        assert(!map_of(s.drop_last()).contains_key(s[i].0@));
        assert(map_of(s.remove(i)) =~= map_of(s).remove(s[i].0@));
    } else {
        let k = s[i].0@;
        let last = s.last();
        assert(s.remove(i).len() > 0);
        assert(s.remove(i).drop_last() =~= s.drop_last().remove(i));
        assert(s.remove(i).last() == last);
        lemma_map_of_remove(s.drop_last(), i);
        assert(s.drop_last()[i] == s[i]);
        assert(map_of(s.remove(i)) == map_of(s.drop_last().remove(i)).insert(last.0@, last.1@));
        assert(k != last.0@) by {
            assert(s[s.len() - 1] == last);
        }
        assert(map_of(s.drop_last()).remove(k).insert(last.0@, last.1@) =~= map_of(
            s.drop_last(),
        ).insert(last.0@, last.1@).remove(k));
    }
}

} // verus!
