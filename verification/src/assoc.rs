use vstd::prelude::*;

verus! {

/// The store keeps every keyed collection as an association list whose
/// keys are pairwise distinct, so it denotes a finite map with a fixed
/// entry order.
pub open spec fn unique_keys<V>(m: Seq<(Seq<char>, V)>) -> bool {
    forall|i: int, j: int| 0 <= i < j < m.len() ==> m[i].0 != m[j].0
}

pub open spec fn has_key<V>(m: Seq<(Seq<char>, V)>, k: Seq<char>) -> bool {
    exists|i: int| 0 <= i < m.len() && m[i].0 == k
}

pub open spec fn idx_of<V>(m: Seq<(Seq<char>, V)>, k: Seq<char>) -> int {
    choose|i: int| 0 <= i < m.len() && m[i].0 == k
}

pub open spec fn val_of<V>(m: Seq<(Seq<char>, V)>, k: Seq<char>) -> V {
    m[idx_of(m, k)].1
}

/// The list after binding `k` to `v`: the existing entry is replaced in
/// place, or a new entry is appended.
pub open spec fn set_val<V>(m: Seq<(Seq<char>, V)>, k: Seq<char>, v: V) -> Seq<(Seq<char>, V)> {
    if has_key(m, k) {
        m.update(idx_of(m, k), (k, v))
    } else {
        m.push((k, v))
    }
}

/// The list after unbinding `k`; unchanged when `k` is absent.
pub open spec fn remove_key<V>(m: Seq<(Seq<char>, V)>, k: Seq<char>) -> Seq<(Seq<char>, V)> {
    if has_key(m, k) {
        m.remove(idx_of(m, k))
    } else {
        m
    }
}

pub broadcast proof fn lemma_set_val_unique<V>(m: Seq<(Seq<char>, V)>, k: Seq<char>, v: V)
    requires
        unique_keys(m),
    ensures
        unique_keys(#[trigger] set_val(m, k, v)),
        has_key(set_val(m, k, v), k),
        val_of(set_val(m, k, v), k) == v,
        forall|k2: Seq<char>| k2 != k ==> has_key(set_val(m, k, v), k2) == has_key(m, k2),
        forall|k2: Seq<char>|
            k2 != k && has_key(m, k2) ==> val_of(set_val(m, k, v), k2) == val_of(m, k2),
{
    let m2 = set_val(m, k, v);
    if has_key(m, k) {
        let i = idx_of(m, k);
        assert(0 <= i < m.len() && m[i].0 == k);
        assert forall|k2: Seq<char>| k2 != k && has_key(m, k2) implies has_key(m2, k2)
            && val_of(m2, k2) == val_of(m, k2) by {
            let j = idx_of(m, k2);
            assert(0 <= j < m.len() && m[j].0 == k2);
            assert(j != i);
            assert(m2[j].0 == k2);
            assert(has_key(m2, k2));
            let j2 = idx_of(m2, k2);
            assert(0 <= j2 < m2.len() && m2[j2].0 == k2);
            assert(j2 == j);
        };
        assert forall|k2: Seq<char>| k2 != k && has_key(m2, k2) implies has_key(m, k2) by {
            let j = idx_of(m2, k2);
            assert(m[j].0 == k2);
        };
        let i2 = idx_of(m2, k);
        assert(m2[i].0 == k);
        assert(0 <= i2 < m2.len() && m2[i2].0 == k);
        assert(i2 == i);
    } else {
        assert(m2[m.len() as int].0 == k);
        let i2 = idx_of(m2, k);
        assert(0 <= i2 < m2.len() && m2[i2].0 == k);
        assert(i2 == m.len());
        assert forall|k2: Seq<char>| k2 != k && has_key(m, k2) implies has_key(m2, k2)
            && val_of(m2, k2) == val_of(m, k2) by {
            let j = idx_of(m, k2);
            assert(m2[j].0 == k2);
            let j2 = idx_of(m2, k2);
            assert(0 <= j2 < m2.len() && m2[j2].0 == k2);
            assert(j2 < m.len());
            assert(j2 == j);
        };
        assert forall|k2: Seq<char>| k2 != k && has_key(m2, k2) implies has_key(m, k2) by {
            let j = idx_of(m2, k2);
            assert(j < m.len());
            assert(m[j].0 == k2);
        };
    }
}

pub broadcast proof fn lemma_remove_key_unique<V>(m: Seq<(Seq<char>, V)>, k: Seq<char>)
    requires
        unique_keys(m),
    ensures
        unique_keys(#[trigger] remove_key(m, k)),
        !has_key(remove_key(m, k), k),
        forall|k2: Seq<char>| k2 != k ==> has_key(remove_key(m, k), k2) == has_key(m, k2),
        forall|k2: Seq<char>|
            k2 != k && has_key(m, k2) ==> val_of(remove_key(m, k), k2) == val_of(m, k2),
{
    let m2 = remove_key(m, k);
    if has_key(m, k) {
        let i = idx_of(m, k);
        assert(0 <= i < m.len() && m[i].0 == k);
        assert forall|j: int| 0 <= j < m2.len() implies m2[j].0 != k by {
            if j < i {
                assert(m2[j] == m[j]);
            } else {
                assert(m2[j] == m[j + 1]);
            }
        };
        assert forall|k2: Seq<char>| k2 != k && has_key(m, k2) implies has_key(m2, k2)
            && val_of(m2, k2) == val_of(m, k2) by {
            let j = idx_of(m, k2);
            assert(0 <= j < m.len() && m[j].0 == k2);
            if j < i {
                assert(m2[j] == m[j]);
                assert(has_key(m2, k2));
            } else {
                assert(j > i);
                assert(m2[j - 1] == m[j]);
                assert(has_key(m2, k2));
            }
            let j2 = idx_of(m2, k2);
            assert(0 <= j2 < m2.len() && m2[j2].0 == k2);
            if j2 < i {
                assert(m2[j2] == m[j2]);
                assert(j2 == j);
            } else {
                assert(m2[j2] == m[j2 + 1]);
                assert(j2 + 1 == j);
            }
        };
        assert forall|k2: Seq<char>| k2 != k && has_key(m2, k2) implies has_key(m, k2) by {
            let j = idx_of(m2, k2);
            if j < i {
                assert(m[j].0 == k2);
            } else {
                assert(m[j + 1].0 == k2);
            }
        };
    }
}

/// The index of the first element satisfying `p`, or -1 when none does;
/// lookups in the store resolve to the first match, as the original
/// iterator-based searches did.
pub open spec fn first_where<T>(s: Seq<T>, p: spec_fn(T) -> bool) -> int
    decreases s.len(),
{
    if s.len() == 0 {
        -1
    } else if p(s[0]) {
        0
    } else {
        let r = first_where(s.drop_first(), p);
        if r == -1 {
            -1
        } else {
            r + 1
        }
    }
}

pub proof fn lemma_first_where<T>(s: Seq<T>, p: spec_fn(T) -> bool)
    ensures
        first_where(s, p) == -1 ==> forall|j: int| 0 <= j < s.len() ==> !p(s[j]),
        first_where(s, p) != -1 ==> 0 <= first_where(s, p) < s.len() && p(
            s[first_where(s, p)],
        ) && forall|j: int| 0 <= j < first_where(s, p) ==> !p(s[j]),
    decreases s.len(),
{
    if s.len() > 0 && !p(s[0]) {
        lemma_first_where(s.drop_first(), p);
        let r = first_where(s.drop_first(), p);
        if r == -1 {
            assert forall|j: int| 0 <= j < s.len() implies !p(s[j]) by {
                if j > 0 {
                    assert(!p(s.drop_first()[j - 1]));
                    assert(s.drop_first()[j - 1] == s[j]);
                }
            };
        } else {
            assert(first_where(s, p) == r + 1);
            assert(p(s.drop_first()[r]));
            assert(s.drop_first()[r] == s[r + 1]);
            assert forall|j: int| 0 <= j < r + 1 implies !p(s[j]) by {
                if j > 0 {
                    assert(!p(s.drop_first()[j - 1]));
                    assert(s.drop_first()[j - 1] == s[j]);
                }
            };
        }
    }
}

pub proof fn lemma_first_where_is<T>(s: Seq<T>, p: spec_fn(T) -> bool, i: int)
    requires
        0 <= i < s.len(),
        p(s[i]),
        forall|j: int| 0 <= j < i ==> !p(s[j]),
    ensures
        first_where(s, p) == i,
    decreases s.len(),
{
    if i == 0 {
    } else {
        assert(!p(s[0]));
        lemma_first_where_is(s.drop_first(), p, i - 1);
    }
}

pub proof fn lemma_first_where_none<T>(s: Seq<T>, p: spec_fn(T) -> bool)
    requires
        forall|j: int| 0 <= j < s.len() ==> !p(s[j]),
    ensures
        first_where(s, p) == -1,
    decreases s.len(),
{
    if s.len() > 0 {
        lemma_first_where_none(s.drop_first(), p);
    }
}

/// Appending an element does not move the first match; it can only create
/// one at the end where none existed.
pub proof fn lemma_first_where_push<T>(s: Seq<T>, p: spec_fn(T) -> bool, e: T)
    ensures
        first_where(s.push(e), p) == if first_where(s, p) != -1 {
            first_where(s, p)
        } else if p(e) {
            s.len() as int
        } else {
            -1
        },
    decreases s.len(),
{
    if s.len() == 0 {
        assert(s.push(e)[0] == e);
        assert(s.push(e).drop_first() =~= Seq::<T>::empty());
        assert(s.push(e).len() == 1);
        assert(first_where(s, p) == -1);
        if p(e) {
            assert(first_where(s.push(e), p) == 0);
        } else {
            assert(first_where(Seq::<T>::empty(), p) == -1);
            assert(first_where(s.push(e), p) == -1);
        }
    } else {
        assert(s.push(e)[0] == s[0]);
        lemma_first_where_push(s.drop_first(), p, e);
        lemma_first_where(s.drop_first(), p);
        lemma_first_where(s.drop_first().push(e), p);
        assert(s.push(e).drop_first() =~= s.drop_first().push(e));
        let rd = first_where(s.drop_first(), p);
        let rdp = first_where(s.drop_first().push(e), p);
        assert(first_where(s.push(e), p) == if p(s[0]) {
            0int
        } else if rdp == -1 {
            -1int
        } else {
            rdp + 1
        });
        assert(first_where(s, p) == if p(s[0]) {
            0int
        } else if rd == -1 {
            -1int
        } else {
            rd + 1
        });
        if !p(s[0]) {
            if rd != -1 {
                assert(rdp == rd);
            } else if p(e) {
                assert(rdp == s.drop_first().len() as int);
            } else {
                assert(rdp == -1);
            }
        }
    }
    let lhs = first_where(s.push(e), p);
    let rhs = if first_where(s, p) != -1 {
        first_where(s, p)
    } else if p(e) {
        s.len() as int
    } else {
        -1int
    };
    assert(lhs == rhs);
}

/// Replacing an element by one on which the predicate agrees does not
/// move the first match.
pub proof fn lemma_first_where_agree<T>(s: Seq<T>, p: spec_fn(T) -> bool, i: int, e: T)
    requires
        0 <= i < s.len(),
        p(s[i]) <==> p(e),
    ensures
        first_where(s.update(i, e), p) == first_where(s, p),
    decreases s.len(),
{
    let s2 = s.update(i, e);
    assert(s2.len() == s.len());
    if i == 0 {
        assert(s2[0] == e);
        assert(s2.drop_first() =~= s.drop_first());
    } else {
        assert(s2[0] == s[0]);
        assert(s2.drop_first() =~= s.drop_first().update(i - 1, e));
        lemma_first_where_agree(s.drop_first(), p, i - 1, e);
    }
}

/// One step of filtering a prefix: extending the prefix by one element
/// extends the filtered sequence exactly when the element matches.
pub proof fn lemma_filter_take_step<T>(s: Seq<T>, p: spec_fn(T) -> bool, i: int)
    requires
        0 <= i < s.len(),
    ensures
        s.take(i + 1).filter(p) == if p(s[i]) {
            s.take(i).filter(p).push(s[i])
        } else {
            s.take(i).filter(p)
        },
{
    reveal(Seq::filter);
    assert(s.take(i + 1).drop_last() =~= s.take(i));
    assert(s.take(i + 1).last() == s[i]);
}

/// Looks a key up, returning a reference to its value.
pub fn assoc_find<'a, V: DeepView>(m: &'a Vec<(String, V)>, k: &String) -> (r: Option<&'a V>)
    requires
        unique_keys(m.deep_view()),
    ensures
        r is Some <==> has_key(m.deep_view(), k@),
        r is Some ==> r.unwrap().deep_view() == val_of(m.deep_view(), k@),
{
    let ghost dm = m.deep_view();
    let mut i: usize = 0;
    while i < m.len()
        invariant
            unique_keys(dm),
            dm == m.deep_view(),
            dm.len() == m@.len(),
            i <= m@.len(),
            forall|j: int| 0 <= j < i ==> dm[j].0 != k@,
        decreases m@.len() - i,
    {
        assert(dm[i as int] == m@[i as int].deep_view());
        if m[i].0.eq(k) {
            assert(dm[i as int].0 == k@);
            assert(has_key(dm, k@));
            proof {
                let j2 = idx_of(dm, k@);
                assert(0 <= j2 < dm.len() && dm[j2].0 == k@);
                assert(j2 == i as int);
            }
            return Some(&m[i].1);
        }
        i = i + 1;
    }
    proof {
        if has_key(dm, k@) {
            let j = idx_of(dm, k@);
            assert(dm[j].0 == k@);
        }
    }
    None
}

/// Tells whether a key is bound.
pub fn assoc_contains<V: DeepView>(m: &Vec<(String, V)>, k: &String) -> (r: bool)
    requires
        unique_keys(m.deep_view()),
    ensures
        r == has_key(m.deep_view(), k@),
{
    let f = assoc_find(m, k);
    f.is_some()
}

/// Binds a key: replaces the existing entry's value or appends a new entry.
pub fn assoc_set<V: DeepView>(m: &mut Vec<(String, V)>, k: String, v: V)
    requires
        unique_keys(old(m).deep_view()),
    ensures
        final(m).deep_view() =~= set_val(old(m).deep_view(), k@, v.deep_view()),
        unique_keys(final(m).deep_view()),
{
    let ghost dm = old(m).deep_view();
    let ghost gk = k@;
    let ghost gv = v.deep_view();
    proof {
        assert(dm == m.deep_view());
        lemma_set_val_unique(dm, gk, gv);
    }
    let mut i: usize = 0;
    let n = m.len();
    while i < n
        invariant
            unique_keys(dm),
            dm == m.deep_view(),
            dm == old(m).deep_view(),
            gk == k@,
            gv == v.deep_view(),
            n == m@.len(),
            dm.len() == m@.len(),
            i <= m@.len(),
            forall|j: int| 0 <= j < i ==> dm[j].0 != gk,
        decreases m@.len() - i,
    {
        assert(dm[i as int] == m@[i as int].deep_view());
        if m[i].0.eq(&k) {
            assert(dm[i as int].0 == gk);
            assert(has_key(dm, gk));
            proof {
                let j2 = idx_of(dm, gk);
                assert(0 <= j2 < dm.len() && dm[j2].0 == gk);
                assert(j2 == i as int);
            }
            m.set(i, (k, v));
            proof {
                assert(m.deep_view() =~= set_val(dm, gk, gv));
            }
            return ;
        }
        i = i + 1;
    }
    proof {
        if has_key(dm, gk) {
            let j = idx_of(dm, gk);
            assert(dm[j].0 == gk);
        }
    }
    m.push((k, v));
    proof {
        assert(m.deep_view() =~= set_val(dm, gk, gv));
    }
}

/// Unbinds a key; does nothing when the key is absent.
pub fn assoc_remove<V: DeepView>(m: &mut Vec<(String, V)>, k: &String)
    requires
        unique_keys(old(m).deep_view()),
    ensures
        final(m).deep_view() =~= remove_key(old(m).deep_view(), k@),
        unique_keys(final(m).deep_view()),
{
    let ghost dm = old(m).deep_view();
    proof {
        assert(dm == m.deep_view());
        lemma_remove_key_unique(dm, k@);
    }
    let mut i: usize = 0;
    let n = m.len();
    while i < n
        invariant
            unique_keys(dm),
            dm == m.deep_view(),
            dm == old(m).deep_view(),
            n == m@.len(),
            dm.len() == m@.len(),
            i <= m@.len(),
            forall|j: int| 0 <= j < i ==> dm[j].0 != k@,
        decreases m@.len() - i,
    {
        assert(dm[i as int] == m@[i as int].deep_view());
        if m[i].0.eq(k) {
            assert(dm[i as int].0 == k@);
            assert(has_key(dm, k@));
            proof {
                let j2 = idx_of(dm, k@);
                assert(0 <= j2 < dm.len() && dm[j2].0 == k@);
                assert(j2 == i as int);
            }
            m.remove(i);
            proof {
                assert(m.deep_view() =~= remove_key(dm, k@));
            }
            return ;
        }
        i = i + 1;
    }
    proof {
        if has_key(dm, k@) {
            let j = idx_of(dm, k@);
            assert(dm[j].0 == k@);
        }
        assert(m.deep_view() =~= remove_key(dm, k@));
    }
}

} // verus!
