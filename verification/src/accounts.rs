//! Named entries kept in a list: an account per asset name, found by the first
//! entry of that name.

use vstd::prelude::*;

verus! {

/// A value kept under a name.
#[derive(Debug)]
pub struct Named<T> {
    pub name: String,
    pub value: T,
}

/// No name occurs twice.
pub open spec fn names_unique<T>(s: Seq<Named<T>>) -> bool {
    forall|i: int, j: int| #![trigger s[i], s[j]] 0 <= i < j < s.len() ==> s[i].name@ != s[j].name@
}

/// Position of the first entry named `a`; the length when there is none.
pub open spec fn name_index<T>(s: Seq<Named<T>>, a: Seq<char>) -> int
    decreases s.len(),
{
    if s.len() == 0 {
        0
    } else if s[0].name@ == a {
        0
    } else {
        1 + name_index(s.subrange(1, s.len() as int), a)
    }
}

/// The entries by name (the first entry of each name counts).
pub open spec fn named_map<T>(s: Seq<Named<T>>) -> Map<Seq<char>, T> {
    Map::new(|a: Seq<char>| name_index(s, a) < s.len(), |a: Seq<char>| s[name_index(s, a)].value)
}

/// The first index of a name: every earlier entry has another name, and the
/// entry found has name `a`.
pub proof fn lemma_name_index<T>(s: Seq<Named<T>>, a: Seq<char>)
    ensures
        0 <= name_index(s, a) <= s.len(),
        name_index(s, a) < s.len() ==> s[name_index(s, a)].name@ == a,
        forall|j: int| 0 <= j < name_index(s, a) ==> #[trigger] s[j].name@ != a,
    decreases s.len(),
{
    if s.len() > 0 && s[0].name@ != a {
        let rest = s.subrange(1, s.len() as int);
        lemma_name_index(rest, a);
        assert forall|j: int| 0 <= j < name_index(s, a) implies #[trigger] s[j].name@ != a by {
            if j > 0 {
                assert(s[j] == rest[j - 1]);
            }
        }
    }
}

/// An index with the first-index property is the first index.
pub proof fn lemma_name_index_unique<T>(s: Seq<Named<T>>, a: Seq<char>, i: int)
    requires
        0 <= i <= s.len(),
        i < s.len() ==> s[i].name@ == a,
        forall|j: int| 0 <= j < i ==> #[trigger] s[j].name@ != a,
    ensures
        name_index(s, a) == i,
{
    lemma_name_index(s, a);
    let k = name_index(s, a);
    if k < i {
        assert(s[k].name@ != a);
    } else if i < k {
        assert(s[i].name@ != a);
    }
}

/// Changing the value of the first entry of a name.
pub proof fn lemma_map_after_update<T>(s: Seq<Named<T>>, i: int, x: Named<T>)
    requires
        0 <= i < s.len(),
        x.name@ == s[i].name@,
        i == name_index(s, x.name@),
    ensures
        named_map(s.update(i, x)) == named_map(s).insert(x.name@, x.value),
{
    let t = s.update(i, x);
    assert forall|b: Seq<char>| name_index(t, b) == name_index(s, b) by {
        lemma_name_index(s, b);
        let k = name_index(s, b);
        assert forall|j: int| 0 <= j < k implies #[trigger] t[j].name@ != b by {
            assert(s[j].name@ != b);
        }
        lemma_name_index_unique(t, b, k);
    }
    lemma_name_index(s, x.name@);
    assert(named_map(t) =~= named_map(s).insert(x.name@, x.value)) by {
        assert forall|b: Seq<char>| #[trigger] named_map(t).contains_key(b) == named_map(s).insert(
            x.name@,
            x.value,
        ).contains_key(b) by {
            lemma_name_index(s, b);
            if b == x.name@ {
                assert(name_index(s, b) <= i);
            }
        }
        assert forall|b: Seq<char>| #[trigger] named_map(t).contains_key(b) implies named_map(t)[b]
            == named_map(s).insert(x.name@, x.value)[b] by {
            lemma_name_index(s, b);
            if b == x.name@ {
                assert(name_index(s, b) <= i);
                if name_index(s, b) < i {
                    assert(s[name_index(s, b)].name@ == b);
                    assert(s[i].name@ == b);
                }
            }
        }
    }
}

/// Adding an entry for a new name at the end.
pub proof fn lemma_map_after_push<T>(s: Seq<Named<T>>, x: Named<T>)
    requires
        !named_map(s).contains_key(x.name@),
    ensures
        named_map(s.push(x)) == named_map(s).insert(x.name@, x.value),
        name_index(s.push(x), x.name@) == s.len(),
{
    let t = s.push(x);
    assert forall|b: Seq<char>| #[trigger] name_index(t, b) == (if name_index(s, b) < s.len() {
        name_index(s, b)
    } else if b == x.name@ {
        s.len() as int
    } else {
        t.len() as int
    }) by {
        lemma_name_index(s, b);
        let k = name_index(s, b);
        if k < s.len() {
            assert forall|j: int| 0 <= j < k implies #[trigger] t[j].name@ != b by {
                assert(s[j].name@ != b);
            }
            lemma_name_index_unique(t, b, k);
        } else {
            assert forall|j: int| 0 <= j < s.len() implies #[trigger] t[j].name@ != b by {
                assert(s[j].name@ != b);
            }
            if b == x.name@ {
                lemma_name_index_unique(t, b, s.len() as int);
            } else {
                assert forall|j: int| 0 <= j < t.len() implies #[trigger] t[j].name@ != b by {
                    if j < s.len() {
                        assert(s[j].name@ != b);
                    }
                }
                lemma_name_index_unique(t, b, t.len() as int);
            }
        }
    }
    assert forall|b: Seq<char>| #[trigger] named_map(t).contains_key(b) implies named_map(t)[b]
        == named_map(s).insert(x.name@, x.value)[b] by {
        lemma_name_index(s, b);
        if b != x.name@ {
            assert(name_index(s, b) < s.len());
            assert(t[name_index(s, b)] == s[name_index(s, b)]);
        }
    }
    assert(named_map(t) =~= named_map(s).insert(x.name@, x.value));
    assert(name_index(t, x.name@) == s.len());
}

/// Position of the first entry named `name`, or the length.
pub fn find_name<T>(v: &Vec<Named<T>>, name: &String) -> (r: usize)
    ensures
        r == name_index(v@, name@),
{
    let mut i: usize = 0;
    assert(v@.subrange(0, v@.len() as int) =~= v@);
    while i < v.len()
        invariant
            i <= v@.len(),
            name_index(v@, name@) == i + name_index(v@.subrange(i as int, v@.len() as int), name@),
        decreases v@.len() - i,
    {
        let ghost rest = v@.subrange(i as int, v@.len() as int);
        assert(rest[0] == v@[i as int]);
        if v[i].name == *name {
            return i;
        }
        assert(rest.subrange(1, rest.len() as int) =~= v@.subrange(i + 1, v@.len() as int));
        i = i + 1;
    }
    assert(v@.subrange(i as int, v@.len() as int).len() == 0);
    i
}

/// The position of the first entry named `key`, added with value `zero` when missing.
pub fn entry_index<T>(v: &mut Vec<Named<T>>, key: String, zero: T) -> (r: usize)
    requires
        names_unique(old(v)@),
    ensures
        names_unique(final(v)@),
        r < final(v)@.len(),
        r == name_index(final(v)@, key@),
        final(v)@[r as int].name@ == key@,
        named_map(final(v)@) == (if named_map(old(v)@).contains_key(key@) {
            named_map(old(v)@)
        } else {
            named_map(old(v)@).insert(key@, zero)
        }),
        named_map(final(v)@)[key@] == final(v)@[r as int].value,
{
    let i = find_name(v, &key);
    proof {
        lemma_name_index(v@, key@);
    }
    if i < v.len() {
        i
    } else {
        let ghost s = v@;
        let entry = Named { name: key, value: zero };
        let ghost e = entry;
        v.push(entry);
        proof {
            lemma_map_after_push(s, e);
            lemma_name_index(v@, e.name@);
            lemma_name_index(s, e.name@);
            assert forall|a: int, b: int| #![trigger v@[a], v@[b]] 0 <= a < b < v@.len() implies v@[a].name@
                != v@[b].name@ by {
                if b == s.len() {
                    assert(s[a].name@ != e.name@);
                } else {
                    assert(s[a] == v@[a] && s[b] == v@[b]);
                }
            }
        }
        i
    }
}

/// Sets the value of the entry at position `i`, the first of its name.
pub fn set_at<T>(v: &mut Vec<Named<T>>, i: usize, b: T)
    requires
        i < old(v)@.len(),
        i == name_index(old(v)@, old(v)@[i as int].name@),
    ensures
        named_map(final(v)@) == named_map(old(v)@).insert(old(v)@[i as int].name@, b),
        final(v)@.len() == old(v)@.len(),
        forall|j: int| 0 <= j < final(v)@.len() ==> #[trigger] final(v)@[j].name@ == old(v)@[j].name@,
        names_unique(old(v)@) ==> names_unique(final(v)@),
{
    let ghost s = v@;
    let ghost x = Named { name: v@[i as int].name, value: b };
    v[i].value = b;
    proof {
        assert(v@ == s.update(i as int, x)) by {
            assert forall|j: int| 0 <= j < s.len() implies #[trigger] v@[j] == s.update(i as int, x)[j] by {
            }
        }
        lemma_map_after_update(s, i as int, x);
        if names_unique(s) {
            assert forall|a: int, c: int| #![trigger v@[a], v@[c]] 0 <= a < c < v@.len() implies v@[a].name@
                != v@[c].name@ by {
                assert(s[a].name@ != s[c].name@);
                assert(v@[a].name@ == s[a].name@ && v@[c].name@ == s[c].name@);
            }
        }
    }
}


} // verus!
