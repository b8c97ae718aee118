//! Finding things in sequences: the vocabulary of the crate's contracts.

use vstd::prelude::*;

verus! {

/// The index of the first item that satisfies `p`.
pub open spec fn first_index<T>(s: Seq<T>, p: spec_fn(T) -> bool) -> Option<int>
    decreases s.len(),
{
    if s.len() == 0 {
        None
    } else {
        match first_index(s.drop_last(), p) {
            Some(i) => Some(i),
            None => if p(s.last()) {
                Some(s.len() - 1)
            } else {
                None
            },
        }
    }
}

/// The first item that satisfies `p`.
pub open spec fn first_where<T>(s: Seq<T>, p: spec_fn(T) -> bool) -> Option<T> {
    match first_index(s, p) {
        Some(i) => Some(s[i]),
        None => None,
    }
}

/// What `first_index` finds is the first such item, and it finds one when
/// there is one.
pub proof fn lemma_first_index<T>(s: Seq<T>, p: spec_fn(T) -> bool)
    ensures
        match first_index(s, p) {
            Some(i) => 0 <= i < s.len() && p(s[i]) && forall|k: int| 0 <= k < i ==> !p(#[trigger] s[k]),
            None => forall|k: int| 0 <= k < s.len() ==> !p(#[trigger] s[k]),
        },
    decreases s.len(),
{
    if s.len() > 0 {
        let t = s.drop_last();
        lemma_first_index(t, p);
        match first_index(t, p) {
            Some(i) => {
                assert(s[i] == t[i]);
                assert forall|k: int| 0 <= k < i implies !p(#[trigger] s[k]) by {
                    assert(s[k] == t[k]);
                }
            },
            None => {
                assert forall|k: int| 0 <= k < s.len() - 1 implies !p(#[trigger] s[k]) by {
                    assert(s[k] == t[k]);
                }
            },
        }
    }
}

/// The items without repetitions, each where it first occurs.
pub open spec fn distinct<T>(s: Seq<T>) -> Seq<T>
    decreases s.len(),
{
    if s.len() == 0 {
        Seq::empty()
    } else {
        let d = distinct(s.drop_last());
        if d.contains(s.last()) {
            d
        } else {
            d.push(s.last())
        }
    }
}

/// `distinct` keeps every item and repeats none.
pub proof fn lemma_distinct<T>(s: Seq<T>)
    ensures
        distinct(s).no_duplicates(),
        forall|x: T| distinct(s).contains(x) <==> s.contains(x),
    decreases s.len(),
{
    if s.len() > 0 {
        let t = s.drop_last();
        let d = distinct(t);
        lemma_distinct(t);
        assert forall|x: T| distinct(s).contains(x) <==> s.contains(x) by {
            if s.contains(x) {
                let i = choose|i: int| 0 <= i < s.len() && s[i] == x;
                if i < s.len() - 1 {
                    assert(t[i] == x);
                    assert(t.contains(x));
                    assert(d.contains(x));
                    let j = choose|j: int| 0 <= j < d.len() && d[j] == x;
                    assert(d.push(s.last())[j] == x);
                } else {
                    assert(d.push(s.last())[d.len() as int] == x);
                }
            }
            if distinct(s).contains(x) {
                let j = choose|j: int| 0 <= j < distinct(s).len() && distinct(s)[j] == x;
                if j < d.len() {
                    assert(d[j] == x);
                    assert(d.contains(x));
                    assert(t.contains(x));
                    let i = choose|i: int| 0 <= i < t.len() && t[i] == x;
                    assert(s[i] == x);
                } else {
                    assert(s[s.len() - 1] == x);
                }
            }
        }
        if !d.contains(s.last()) {
            assert forall|i: int, j: int|
                0 <= i < distinct(s).len() && 0 <= j < distinct(s).len() && i
                    != j implies distinct(s)[i] != distinct(s)[j] by {
                if i < d.len() && j < d.len() {
                    assert(d[i] != d[j]);
                } else if i < d.len() {
                    assert(d.contains(d[i]));
                } else {
                    assert(d.contains(d[j]));
                }
            }
        }
    }
}

/// A set of strings as an ascending list.
pub open spec fn ascending_members(set: Set<Seq<char>>) -> Seq<Seq<char>> {
    choose|s: Seq<Seq<char>>|
        crate::text::ascending(s) && forall|t: Seq<char>|
            #![trigger s.contains(t)]
            s.contains(t) <==> set.contains(t)
}

/// An ascending list with the members of `set` is the one that
/// `ascending_members` means.
pub proof fn lemma_ascending_members(set: Set<Seq<char>>, s: Seq<Seq<char>>)
    requires
        crate::text::ascending(s),
        forall|t: Seq<char>|
            #![trigger s.contains(t)]
            s.contains(t) <==> set.contains(t),
    ensures
        s == ascending_members(set),
{
    let chosen = ascending_members(set);
    assert(crate::text::ascending(chosen) && forall|t: Seq<char>|
        #![trigger chosen.contains(t)]
        chosen.contains(t) <==> set.contains(t));
    assert forall|t: Seq<char>| s.contains(t) <==> chosen.contains(t) by {}
    crate::text::lemma_ascending_unique(s, chosen);
}

/// Every finite set of strings has an ascending list.
pub proof fn lemma_ascending_members_exist(set: Set<Seq<char>>)
    requires
        set.finite(),
    ensures
        crate::text::ascending(ascending_members(set)),
        forall|t: Seq<char>|
            #![trigger ascending_members(set).contains(t)]
            ascending_members(set).contains(t) <==> set.contains(t),
    decreases set.len(),
{
    if set.len() == 0 {
        let empty = Seq::<Seq<char>>::empty();
        assert(set =~= Set::empty());
        assert forall|t: Seq<char>|
            #![trigger empty.contains(t)]
            empty.contains(t) <==> set.contains(t) by {}
        lemma_ascending_members(set, empty);
    } else {
        let x = set.choose();
        let rest = set.remove(x);
        lemma_ascending_members_exist(rest);
        let s = ascending_members(rest);
        let p = |t: Seq<char>| crate::text::text_before(x, t);
        lemma_first_index(s, p);
        let i = match first_index(s, p) {
            Some(i) => i,
            None => s.len() as int,
        };
        let with = s.insert(i, x);
        assert forall|k: int| 0 <= k < i implies crate::text::text_before(#[trigger] s[k], x) by {
            assert(!p(s[k]));
            assert(s.contains(s[k]));
            crate::text::lemma_text_before_total(s[k], x);
        }
        assert forall|k: int| i <= k < s.len() implies crate::text::text_before(
            x,
            #[trigger] s[k],
        ) by {
            assert(p(s[i]));
            if i < k {
                assert(crate::text::text_before(s[i], s[k]));
                crate::text::lemma_text_before_transitive(x, s[i], s[k]);
            }
        }
        assert forall|a: int, b: int| 0 <= a < b < with.len() implies crate::text::text_before(
            #[trigger] with[a],
            #[trigger] with[b],
        ) by {
            let before_a = if a < i { a } else { a - 1 };
            let before_b = if b < i { b } else { b - 1 };
            if a != i {
                assert(with[a] == s[before_a]);
            }
            if b != i {
                assert(with[b] == s[before_b]);
            }
        }
        assert forall|t: Seq<char>|
            #![trigger with.contains(t)]
            with.contains(t) <==> set.contains(t) by {
            if with.contains(t) {
                let k = choose|k: int| 0 <= k < with.len() && with[k] == t;
                if k != i {
                    let at = if k < i { k } else { k - 1 };
                    assert(s[at] == t);
                    assert(s.contains(t));
                }
            }
            if set.contains(t) {
                if t == x {
                    assert(with[i] == t);
                } else {
                    assert(s.contains(t));
                    let k = choose|k: int| 0 <= k < s.len() && s[k] == t;
                    let at = if k < i { k } else { k + 1 };
                    assert(with[at] == t);
                }
            }
        }
        lemma_ascending_members(set, with);
    }
}

/// What one more item adds to a prefix.
pub proof fn lemma_take_push(names: Seq<Seq<char>>, i: int)
    requires
        0 <= i < names.len(),
    ensures
        forall|t: Seq<char>| #[trigger]
            names.take(i + 1).contains(t) <==> (names.take(i).contains(t) || t == names[i]),
{
    let taken = names.take(i);
    assert(names.take(i + 1) =~= taken.push(names[i]));
    assert forall|t: Seq<char>| #[trigger]
        names.take(i + 1).contains(t) <==> (taken.contains(t) || t == names[i]) by {
        if taken.contains(t) {
            let k = choose|k: int| 0 <= k < taken.len() && taken[k] == t;
            assert(taken.push(names[i])[k] == t);
        }
        assert(taken.push(names[i])[taken.len() as int] == names[i]);
        if taken.push(names[i]).contains(t) {
            let k = choose|k: int| 0 <= k < taken.push(names[i]).len() && taken.push(names[i])[k] == t;
            if k < taken.len() {
                assert(taken[k] == t);
            }
        }
    }
}

/// Filtering keeps a tail when exactly its items pass.
pub proof fn lemma_tail_filter<T>(s: Seq<T>, p: spec_fn(T) -> bool, from: int)
    requires
        0 <= from <= s.len(),
        forall|i: int| 0 <= i < s.len() ==> (p(#[trigger] s[i]) <==> i >= from),
    ensures
        s.filter(p) == s.skip(from),
    decreases s.len(),
{
    if s.len() == 0 {
        assert(s.filter(p) =~= s.skip(from));
    } else {
        let t = s.drop_last();
        assert(s =~= t.push(s.last()));
        t.lemma_filter_push(s.last(), p);
        assert(s.last() == s[s.len() - 1]);
        if from == s.len() {
            assert forall|i: int| 0 <= i < t.len() implies (p(#[trigger] t[i]) <==> i >= from
                - 1) by {
                assert(t[i] == s[i]);
            }
            lemma_tail_filter(t, p, from - 1);
            assert(s.skip(from) =~= t.skip(from - 1));
        } else {
            assert forall|i: int| 0 <= i < t.len() implies (p(#[trigger] t[i]) <==> i >= from) by {
                assert(t[i] == s[i]);
            }
            lemma_tail_filter(t, p, from);
            assert(s.skip(from) =~= t.skip(from).push(s.last()));
        }
    }
}

/// Filtering keeps a head when exactly its items pass.
pub proof fn lemma_head_filter<T>(s: Seq<T>, p: spec_fn(T) -> bool, to: int)
    requires
        0 <= to <= s.len(),
        forall|i: int| 0 <= i < s.len() ==> (p(#[trigger] s[i]) <==> i < to),
    ensures
        s.filter(p) == s.take(to),
    decreases s.len(),
{
    if s.len() == 0 {
        assert(s.filter(p) =~= s.take(to));
    } else {
        let t = s.drop_last();
        assert(s =~= t.push(s.last()));
        t.lemma_filter_push(s.last(), p);
        assert(s.last() == s[s.len() - 1]);
        let rest = if to == s.len() {
            to - 1
        } else {
            to
        };
        assert forall|i: int| 0 <= i < t.len() implies (p(#[trigger] t[i]) <==> i < rest) by {
            assert(t[i] == s[i]);
        }
        lemma_head_filter(t, p, rest);
        if to == s.len() {
            assert(s.take(to) =~= t.take(rest).push(s.last()));
        } else {
            assert(s.take(to) =~= t.take(rest));
        }
    }
}

/// What a filter keeps was there.
pub proof fn lemma_filter_origin<T>(s: Seq<T>, p: spec_fn(T) -> bool, i: int)
    requires
        0 <= i < s.filter(p).len(),
    ensures
        s.contains(s.filter(p)[i]),
    decreases s.len(),
{
    if s.len() > 0 {
        let t = s.drop_last();
        assert(s =~= t.push(s.last()));
        t.lemma_filter_push(s.last(), p);
        if i < t.filter(p).len() {
            lemma_filter_origin(t, p, i);
            let k = choose|k: int| 0 <= k < t.len() && t[k] == t.filter(p)[i];
            assert(s[k] == s.filter(p)[i]);
        } else {
            assert(s[s.len() - 1] == s.filter(p)[i]);
        }
    } else {
        assert(s.filter(p) =~= Seq::empty());
    }
}

/// A filter that one item passes keeps that item.
pub proof fn lemma_single_filter<T>(s: Seq<T>, p: spec_fn(T) -> bool, m: int)
    requires
        0 <= m < s.len(),
        forall|i: int| 0 <= i < s.len() ==> (p(#[trigger] s[i]) <==> i == m),
    ensures
        s.filter(p) == seq![s[m]],
    decreases s.len(),
{
    let t = s.drop_last();
    assert(s =~= t.push(s.last()));
    t.lemma_filter_push(s.last(), p);
    assert(s.last() == s[s.len() - 1]);
    if m == s.len() - 1 {
        assert forall|i: int| 0 <= i < t.len() implies (p(#[trigger] t[i]) <==> i < 0) by {
            assert(t[i] == s[i]);
        }
        lemma_head_filter(t, p, 0);
        assert(s.filter(p) =~= seq![s[m]]);
    } else {
        assert forall|i: int| 0 <= i < t.len() implies (p(#[trigger] t[i]) <==> i == m) by {
            assert(t[i] == s[i]);
        }
        lemma_single_filter(t, p, m);
    }
}

/// What one item contributes is among what all contribute.
pub proof fn lemma_flat_map_contains<A, B>(
    s: Seq<A>,
    f: spec_fn(A) -> Seq<B>,
    i: int,
    item: B,
)
    requires
        0 <= i < s.len(),
        f(s[i]).contains(item),
    ensures
        s.flat_map(f).contains(item),
    decreases s.len(),
{
    let t = s.drop_last();
    assert(s =~= t.push(s.last()));
    t.lemma_flat_map_push(f, s.last());
    if i == s.len() - 1 {
        let piece = f(s[i]);
        let k = choose|k: int| 0 <= k < piece.len() && piece[k] == item;
        assert(s.flat_map(f)[t.flat_map(f).len() + k] == item);
    } else {
        assert(t[i] == s[i]);
        lemma_flat_map_contains(t, f, i, item);
        let k = choose|k: int| 0 <= k < t.flat_map(f).len() && t.flat_map(f)[k] == item;
        assert(s.flat_map(f)[k] == item);
    }
}

/// What is among what all contribute, one of them contributes.
pub proof fn lemma_flat_map_origin<A, B>(s: Seq<A>, f: spec_fn(A) -> Seq<B>, item: B) -> (i: int)
    requires
        s.flat_map(f).contains(item),
    ensures
        0 <= i < s.len(),
        f(s[i]).contains(item),
    decreases s.len(),
{
    if s.len() == 0 {
        assert(s.flat_map(f) =~= Seq::empty());
        0
    } else {
        let t = s.drop_last();
        assert(s =~= t.push(s.last()));
        t.lemma_flat_map_push(f, s.last());
        let k = choose|k: int| 0 <= k < s.flat_map(f).len() && s.flat_map(f)[k] == item;
        if k < t.flat_map(f).len() {
            assert(t.flat_map(f)[k] == item);
            let i = lemma_flat_map_origin(t, f, item);
            assert(t[i] == s[i]);
            i
        } else {
            assert(f(s.last())[k - t.flat_map(f).len()] == item);
            s.len() - 1
        }
    }
}

} // verus!
