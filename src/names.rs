use vstd::prelude::*;
use vstd::string::*;

verus! {

/// Lexicographic order on names, character by character (the order of
/// `String`'s `Ord`, since UTF-8 keeps code-point order).
pub open spec fn name_lt(a: Seq<char>, b: Seq<char>) -> bool
    decreases a.len(),
{
    if a.len() == 0 {
        b.len() > 0
    } else if b.len() == 0 {
        false
    } else if a[0] != b[0] {
        a[0] < b[0]
    } else {
        name_lt(a.drop_first(), b.drop_first())
    }
}

/// Names in strictly ascending order (so without repeats).
pub open spec fn strictly_sorted(names: Seq<String>) -> bool {
    forall|i: int, j: int| 0 <= i < j < names.len() ==> name_lt(#[trigger] names[i]@, #[trigger] names[j]@)
}

/// Whether `n` is one of `names`.
pub open spec fn lists(names: Seq<String>, n: Seq<char>) -> bool {
    exists|i: int| 0 <= i < names.len() && (#[trigger] names[i])@ == n
}

/// The names listed, as a set.
pub open spec fn name_set(names: Seq<String>) -> Set<Seq<char>> {
    Set::new(|n: Seq<char>| lists(names, n))
}

pub proof fn lemma_name_lt_irreflexive(a: Seq<char>)
    ensures
        !name_lt(a, a),
    decreases a.len(),
{
    if a.len() > 0 {
        lemma_name_lt_irreflexive(a.drop_first());
    }
}

pub proof fn lemma_name_lt_transitive(a: Seq<char>, b: Seq<char>, c: Seq<char>)
    requires
        name_lt(a, b),
        name_lt(b, c),
    ensures
        name_lt(a, c),
    decreases a.len(),
{
    if a.len() > 0 && b.len() > 0 && c.len() > 0 && a[0] == b[0] && b[0] == c[0] {
        lemma_name_lt_transitive(a.drop_first(), b.drop_first(), c.drop_first());
    }
}

pub proof fn lemma_name_lt_total(a: Seq<char>, b: Seq<char>)
    requires
        a != b,
    ensures
        name_lt(a, b) || name_lt(b, a),
    decreases a.len(),
{
    if a.len() > 0 && b.len() > 0 && a[0] == b[0] {
        if a.drop_first() == b.drop_first() {
            assert(a =~= seq![a[0]] + a.drop_first());
            assert(b =~= seq![b[0]] + b.drop_first());
        }
        lemma_name_lt_total(a.drop_first(), b.drop_first());
    } else if a.len() == 0 && b.len() == 0 {
        assert(a =~= b);
    }
}

/// Whether `a` sorts before `b`.
pub fn name_less(a: &String, b: &String) -> (r: bool)
    ensures
        r == name_lt(a@, b@),
{
    let x = a.as_str();
    let y = b.as_str();
    let nx = x.unicode_len();
    let ny = y.unicode_len();
    let mut i: usize = 0;
    proof {
        assert(a@.skip(0) =~= a@);
        assert(b@.skip(0) =~= b@);
    }
    while i < nx && i < ny
        invariant
            x@ == a@,
            y@ == b@,
            nx == a@.len(),
            ny == b@.len(),
            i <= nx,
            i <= ny,
            name_lt(a@, b@) == name_lt(a@.skip(i as int), b@.skip(i as int)),
        decreases nx - i,
    {
        let cx = x.get_char(i);
        let cy = y.get_char(i);
        if cx != cy {
            return cx < cy;
        }
        proof {
            assert(a@.skip(i as int).drop_first() =~= a@.skip(i + 1));
            assert(b@.skip(i as int).drop_first() =~= b@.skip(i + 1));
        }
        i += 1;
    }
    i == nx && i < ny
}

proof fn lemma_insert_lists(before: Seq<String>, pos: int, k: String, n: Seq<char>)
    requires
        0 <= pos <= before.len(),
    ensures
        lists(before.insert(pos, k), n) <==> (lists(before, n) || n == k@),
{
    let names = before.insert(pos, k);
    if lists(names, n) {
        let i = choose|i: int| 0 <= i < names.len() && (#[trigger] names[i])@ == n;
        if i < pos {
            assert(before[i]@ == n);
        } else if i > pos {
            assert(before[i - 1]@ == n);
        }
    }
    if lists(before, n) {
        let i = choose|i: int| 0 <= i < before.len() && (#[trigger] before[i])@ == n;
        if i < pos {
            assert(names[i]@ == n);
        } else {
            assert(names[i + 1]@ == n);
        }
    }
    if n == k@ {
        assert(names[pos]@ == n);
    }
}

/// Adds `key` to strictly sorted `names` unless it is there already.
pub fn insert_name(names: &mut Vec<String>, key: &String)
    requires
        strictly_sorted(old(names)@),
    ensures
        strictly_sorted(final(names)@),
        name_set(final(names)@) == name_set(old(names)@).insert(key@),
{
    let mut pos: usize = 0;
    while pos < names.len() && name_less(&names[pos], key)
        invariant
            pos <= names.len(),
            forall|k: int| 0 <= k < pos ==> name_lt(#[trigger] names@[k]@, key@),
        decreases names.len() - pos,
    {
        pos += 1;
    }
    if pos < names.len() && names[pos].eq(key) {
        assert(names@[pos as int]@ == key@);
        assert(lists(names@, key@));
        assert(name_set(names@) =~= name_set(names@).insert(key@));
        return;
    }
    let ghost before = names@;
    proof {
        assert forall|k: int| pos <= k < before.len() implies name_lt(key@, #[trigger] before[k]@) by {
            lemma_name_lt_total(key@, before[pos as int]@);
            if k > pos {
                lemma_name_lt_transitive(key@, before[pos as int]@, before[k]@);
            }
        }
    }
    let k = key.clone();
    names.insert(pos, k);
    proof {
        assert(names@ == before.insert(pos as int, k));
        assert forall|i: int, j: int| 0 <= i < j < names@.len() implies name_lt(#[trigger] names@[i]@, #[trigger] names@[j]@) by {
            if i < pos && j < pos {
            } else if i < pos && j == pos {
            } else if i < pos {
                assert(names@[j] == before[j - 1]);
                lemma_name_lt_transitive(names@[i]@, key@, names@[j]@);
            } else if i == pos {
                assert(names@[j] == before[j - 1]);
            } else {
                assert(names@[i] == before[i - 1] && names@[j] == before[j - 1]);
            }
        }
        assert forall|n: Seq<char>| #[trigger] name_set(names@).contains(n) <==> name_set(before).insert(key@).contains(n) by {
            lemma_insert_lists(before, pos as int, k, n);
        }
        assert(name_set(names@) =~= name_set(before).insert(key@));
    }
}

/// The names of a strictly sorted list, as text.
pub open spec fn texts(names: Seq<String>) -> Seq<Seq<char>> {
    names.map_values(|s: String| s@)
}

/// A strictly sorted list of names is determined by the set of its names.
pub proof fn lemma_sorted_names_unique(a: Seq<String>, b: Seq<String>)
    requires
        strictly_sorted(a),
        strictly_sorted(b),
        name_set(a) == name_set(b),
    ensures
        texts(a) == texts(b),
    decreases a.len(),
{
    if a.len() == 0 {
        if b.len() > 0 {
            assert(name_set(b).contains(b[0]@));
        }
        assert(texts(a) =~= texts(b));
    } else {
        assert(name_set(a).contains(a[0]@));
        assert(b.len() > 0);
        assert(name_set(b).contains(b[0]@));
        let j = choose|j: int| 0 <= j < b.len() && (#[trigger] b[j])@ == a[0]@;
        let i = choose|i: int| 0 <= i < a.len() && (#[trigger] a[i])@ == b[0]@;
        if i > 0 && j > 0 {
            assert(name_lt(a[0]@, a[i]@));
            assert(name_lt(b[0]@, b[j]@));
            lemma_name_lt_transitive(a[0]@, b[0]@, a[0]@);
            lemma_name_lt_irreflexive(a[0]@);
        }
        assert(a[0]@ == b[0]@);
        let ra = a.drop_first();
        let rb = b.drop_first();
        assert forall|n: Seq<char>| #[trigger] name_set(ra).contains(n) <==> name_set(rb).contains(n) by {
            if lists(ra, n) {
                let k = choose|k: int| 0 <= k < ra.len() && (#[trigger] ra[k])@ == n;
                assert(name_set(a).contains(n));
                let m = choose|m: int| 0 <= m < b.len() && (#[trigger] b[m])@ == n;
                assert(name_lt(a[0]@, a[k + 1]@));
                if m == 0 {
                    lemma_name_lt_irreflexive(n);
                }
                assert(rb[m - 1]@ == n);
            }
            if lists(rb, n) {
                let k = choose|k: int| 0 <= k < rb.len() && (#[trigger] rb[k])@ == n;
                assert(name_set(b).contains(n));
                let m = choose|m: int| 0 <= m < a.len() && (#[trigger] a[m])@ == n;
                assert(name_lt(b[0]@, b[k + 1]@));
                if m == 0 {
                    lemma_name_lt_irreflexive(n);
                }
                assert(ra[m - 1]@ == n);
            }
        }
        assert(name_set(ra) =~= name_set(rb));
        lemma_sorted_names_unique(ra, rb);
        assert(texts(a) =~= seq![a[0]@] + texts(ra));
        assert(texts(b) =~= seq![b[0]@] + texts(rb));
    }
}

} // verus!
