//! Text order and sorting by a text key: the order of `String`, insertion
//! into sorted order, and the proof that sorting this way orders the items
//! and keeps every one of them.
use vstd::prelude::*;

use crate::text::chars_of;

verus! {

/// `String`'s order: character by character, by code point (the order of
/// the UTF-8 bytes), a prefix first.
pub open spec fn lex_le(a: Seq<char>, b: Seq<char>) -> bool
    decreases a.len(),
{
    if a.len() == 0 {
        true
    } else if b.len() == 0 {
        false
    } else if a[0] != b[0] {
        a[0] < b[0]
    } else {
        lex_le(a.drop_first(), b.drop_first())
    }
}

/// Whether `a` comes no later than `b` in `String`'s order.
pub(crate) fn lex_le_str(a: &str, b: &str) -> (r: bool)
    ensures
        r == lex_le(a@, b@),
{
    let va = chars_of(a);
    let vb = chars_of(b);
    let mut i: usize = 0;
    assert(a@.skip(0) =~= a@);
    assert(b@.skip(0) =~= b@);
    while i < va.len() && i < vb.len() && va[i] == vb[i]
        invariant
            va@ == a@,
            vb@ == b@,
            i <= va.len(),
            i <= vb.len(),
            lex_le(a@, b@) == lex_le(a@.skip(i as int), b@.skip(i as int)),
        decreases va.len() - i,
    {
        assert(a@.skip(i as int).drop_first() =~= a@.skip(i + 1));
        assert(b@.skip(i as int).drop_first() =~= b@.skip(i + 1));
        i = i + 1;
    }
    if i == va.len() {
        true
    } else if i == vb.len() {
        false
    } else {
        assert(a@.skip(i as int)[0] == va@[i as int]);
        assert(b@.skip(i as int)[0] == vb@[i as int]);
        va[i] < vb[i]
    }
}

proof fn lemma_lex_total(a: Seq<char>, b: Seq<char>)
    ensures
        lex_le(a, b) || lex_le(b, a),
    decreases a.len(),
{
    if a.len() > 0 && b.len() > 0 {
        if a[0] == b[0] {
            lemma_lex_total(a.drop_first(), b.drop_first());
        }
    }
}

proof fn lemma_lex_trans(a: Seq<char>, b: Seq<char>, c: Seq<char>)
    requires
        lex_le(a, b),
        lex_le(b, c),
    ensures
        lex_le(a, c),
    decreases a.len(),
{
    if a.len() > 0 && b.len() > 0 && c.len() > 0 && a[0] == b[0] && b[0] == c[0] {
        lemma_lex_trans(a.drop_first(), b.drop_first(), c.drop_first());
    }
}

/// `x` put into `s` before the first item whose key its key does not come
/// after.
pub open spec fn insert_by<T>(x: T, s: Seq<T>, key: spec_fn(T) -> Seq<char>) -> Seq<T>
    decreases s.len(),
{
    if s.len() == 0 {
        seq![x]
    } else if lex_le(key(x), key(s[0])) {
        seq![x] + s
    } else {
        seq![s[0]] + insert_by(x, s.drop_first(), key)
    }
}

/// `s` sorted by `key`, inserting its items one after another.
pub open spec fn sort_by<T>(s: Seq<T>, key: spec_fn(T) -> Seq<char>) -> Seq<T>
    decreases s.len(),
{
    if s.len() == 0 {
        seq![]
    } else {
        insert_by(s.last(), sort_by(s.drop_last(), key), key)
    }
}

/// The items are in the order of their keys.
pub open spec fn sorted_by<T>(s: Seq<T>, key: spec_fn(T) -> Seq<char>) -> bool {
    forall|i: int, j: int|
        0 <= i < j < s.len() ==> lex_le(key(#[trigger] s[i]), key(#[trigger] s[j]))
}

/// Inserting before the first item whose key does not come before `x`'s
/// is inserting at that position.
pub(crate) proof fn lemma_insert_by_at<T>(x: T, s: Seq<T>, key: spec_fn(T) -> Seq<char>, j: int)
    requires
        0 <= j <= s.len(),
        forall|k: int| 0 <= k < j ==> !lex_le(key(x), key(#[trigger] s[k])),
        j < s.len() ==> lex_le(key(x), key(s[j])),
    ensures
        insert_by(x, s, key) == s.insert(j, x),
    decreases j,
{
    if j == 0 {
        if s.len() == 0 {
            assert(s.insert(0, x) =~= seq![x]);
        } else {
            assert(s.insert(0, x) =~= seq![x] + s);
        }
    } else {
        let t = s.drop_first();
        assert forall|k: int| 0 <= k < j - 1 implies !lex_le(key(x), key(#[trigger] t[k])) by {
            assert(t[k] == s[k + 1]);
        }
        if j - 1 < t.len() {
            assert(t[j - 1] == s[j]);
        }
        assert(!lex_le(key(x), key(s[0])));
        lemma_insert_by_at(x, t, key, j - 1);
        assert(s.insert(j, x) =~= seq![s[0]] + t.insert(j - 1, x));
    }
}

/// Where `x` goes in `s`.
spec fn insert_pos<T>(x: T, s: Seq<T>, key: spec_fn(T) -> Seq<char>) -> int
    decreases s.len(),
{
    if s.len() == 0 {
        0
    } else if lex_le(key(x), key(s[0])) {
        0
    } else {
        1 + insert_pos(x, s.drop_first(), key)
    }
}

proof fn lemma_insert_pos<T>(x: T, s: Seq<T>, key: spec_fn(T) -> Seq<char>)
    ensures
        0 <= insert_pos(x, s, key) <= s.len(),
        forall|k: int| 0 <= k < insert_pos(x, s, key) ==> !lex_le(key(x), key(#[trigger] s[k])),
        insert_pos(x, s, key) < s.len() ==> lex_le(key(x), key(s[insert_pos(x, s, key)])),
    decreases s.len(),
{
    if s.len() > 0 && !lex_le(key(x), key(s[0])) {
        lemma_insert_pos(x, s.drop_first(), key);
        assert forall|k: int| 0 <= k < insert_pos(x, s, key) implies !lex_le(
            key(x),
            key(#[trigger] s[k]),
        ) by {
            if k > 0 {
                assert(s[k] == s.drop_first()[k - 1]);
            }
        }
    }
}

proof fn lemma_insert_keeps_order<T>(x: T, s: Seq<T>, key: spec_fn(T) -> Seq<char>)
    requires
        sorted_by(s, key),
    ensures
        sorted_by(insert_by(x, s, key), key),
        insert_by(x, s, key).to_multiset() == s.to_multiset().insert(x),
{
    broadcast use vstd::seq_lib::to_multiset_insert;

    lemma_insert_pos(x, s, key);
    let p = insert_pos(x, s, key);
    lemma_insert_by_at(x, s, key, p);
    let r = s.insert(p, x);
    assert(r.to_multiset() == s.to_multiset().insert(x));
    assert forall|i: int, j: int| 0 <= i < j < r.len() implies lex_le(
        key(#[trigger] r[i]),
        key(#[trigger] r[j]),
    ) by {
        if j < p {
            assert(r[i] == s[i] && r[j] == s[j]);
        } else if j == p {
            assert(r[i] == s[i] && r[j] == x);
            lemma_lex_total(key(x), key(s[i]));
        } else if i < p {
            assert(r[i] == s[i] && r[j] == s[j - 1]);
        } else if i == p {
            assert(r[i] == x && r[j] == s[j - 1]);
            if j - 1 > p {
                lemma_lex_trans(key(x), key(s[p]), key(s[j - 1]));
            }
        } else {
            assert(r[i] == s[i - 1] && r[j] == s[j - 1]);
        }
    }
}

/// Sorting by a key orders the items by their keys and keeps every item,
/// each as often as it occurs.
pub proof fn lemma_sort_by<T>(s: Seq<T>, key: spec_fn(T) -> Seq<char>)
    ensures
        sorted_by(sort_by(s, key), key),
        sort_by(s, key).to_multiset() == s.to_multiset(),
    decreases s.len(),
{
    broadcast use vstd::seq_lib::to_multiset_build;

    if s.len() == 0 {
        assert(sort_by(s, key) =~= s);
    } else {
        lemma_sort_by(s.drop_last(), key);
        lemma_insert_keeps_order(s.last(), sort_by(s.drop_last(), key), key);
        assert(s.drop_last().push(s.last()) =~= s);
    }
}

} // verus!
