use vstd::prelude::*;

use crate::process::{status_label, ProcView, SortBy};
use crate::text::{lemma_lex_le_antisym, lemma_lex_le_total, lemma_lex_le_trans, lex_le};
use vstd::multiset::Multiset;
use vstd::relations::sorted_by;

verus! {

/// The value a row is compared by under some sort column: a number for the
/// numeric columns, a text for name and status.
pub enum KeyVal {
    Num(u64),
    Text(Seq<char>),
}

/// The key of a row under a sort column.
pub open spec fn key_of(p: ProcView, key: SortBy) -> KeyVal {
    match key {
        SortBy::Pid => KeyVal::Num(p.pid as u64),
        SortBy::Name => KeyVal::Text(p.name),
        SortBy::CpuUsage => KeyVal::Num(p.cpu_usage),
        SortBy::Memory => KeyVal::Num(p.memory),
        SortBy::RunTime => KeyVal::Num(p.run_time),
        SortBy::Status => KeyVal::Text(status_label(p.status)),
    }
}

/// Natural (ascending) order on key values. Keys of one column always have
/// the same shape; across shapes the order is immaterial.
pub open spec fn keyval_le(a: KeyVal, b: KeyVal) -> bool {
    match (a, b) {
        (KeyVal::Num(x), KeyVal::Num(y)) => x <= y,
        (KeyVal::Text(x), KeyVal::Text(y)) => lex_le(x, y),
        (KeyVal::Num(_), KeyVal::Text(_)) => true,
        (KeyVal::Text(_), KeyVal::Num(_)) => false,
    }
}

/// Row order under a sort column and direction: ascending is the natural
/// key order, descending its mirror.
pub open spec fn row_le(a: ProcView, b: ProcView, key: SortBy, ascending: bool) -> bool {
    if ascending {
        keyval_le(key_of(a, key), key_of(b, key))
    } else {
        keyval_le(key_of(b, key), key_of(a, key))
    }
}

/// `a` comes strictly before `b`.
pub open spec fn row_lt(a: ProcView, b: ProcView, key: SortBy, ascending: bool) -> bool {
    !row_le(b, a, key, ascending)
}

pub proof fn lemma_keyval_le_total(a: KeyVal, b: KeyVal)
    ensures
        keyval_le(a, b) || keyval_le(b, a),
{
    match (a, b) {
        (KeyVal::Text(x), KeyVal::Text(y)) => lemma_lex_le_total(x, y),
        _ => {},
    }
}

pub proof fn lemma_keyval_le_trans(a: KeyVal, b: KeyVal, c: KeyVal)
    requires
        keyval_le(a, b),
        keyval_le(b, c),
    ensures
        keyval_le(a, c),
{
    match (a, b, c) {
        (KeyVal::Text(x), KeyVal::Text(y), KeyVal::Text(z)) => lemma_lex_le_trans(x, y, z),
        _ => {},
    }
}

/// Keys ordered both ways are equal.
pub proof fn lemma_keyval_le_antisym(a: KeyVal, b: KeyVal)
    requires
        keyval_le(a, b),
        keyval_le(b, a),
    ensures
        a == b,
{
    match (a, b) {
        (KeyVal::Text(x), KeyVal::Text(y)) => lemma_lex_le_antisym(x, y),
        _ => {},
    }
}

pub proof fn lemma_row_le_total(a: ProcView, b: ProcView, key: SortBy, ascending: bool)
    ensures
        row_le(a, b, key, ascending) || row_le(b, a, key, ascending),
{
    lemma_keyval_le_total(key_of(a, key), key_of(b, key));
}

pub proof fn lemma_row_le_trans(a: ProcView, b: ProcView, c: ProcView, key: SortBy, ascending: bool)
    requires
        row_le(a, b, key, ascending),
        row_le(b, c, key, ascending),
    ensures
        row_le(a, c, key, ascending),
{
    if ascending {
        lemma_keyval_le_trans(key_of(a, key), key_of(b, key), key_of(c, key));
    } else {
        lemma_keyval_le_trans(key_of(c, key), key_of(b, key), key_of(a, key));
    }
}

/// Rows ordered both ways have equal keys.
pub proof fn lemma_row_le_antisym_keys(a: ProcView, b: ProcView, key: SortBy, ascending: bool)
    requires
        row_le(a, b, key, ascending),
        row_le(b, a, key, ascending),
    ensures
        key_of(a, key) == key_of(b, key),
{
    lemma_keyval_le_antisym(key_of(a, key), key_of(b, key));
}

// ---------------------------------------------------------------------------
// Stable insertion sort, at the specification level
// ---------------------------------------------------------------------------

/// Insert `x` into `s` before the first row strictly greater than `x`.
/// On a sorted `s` this puts `x` after every row with an equal key, which
/// is what makes the sort stable.
pub open spec fn insert_sorted(x: ProcView, s: Seq<ProcView>, key: SortBy, ascending: bool)
    -> Seq<ProcView>
    decreases s.len(),
{
    if s.len() == 0 {
        seq![x]
    } else if row_lt(x, s[0], key, ascending) {
        seq![x] + s
    } else {
        seq![s[0]] + insert_sorted(x, s.drop_first(), key, ascending)
    }
}

/// The rows of `s` in display order: sorted by the chosen column and
/// direction, equal keys keeping their relative order in `s`.
pub open spec fn sort_spec(s: Seq<ProcView>, key: SortBy, ascending: bool) -> Seq<ProcView>
    decreases s.len(),
{
    if s.len() == 0 {
        s
    } else {
        insert_sorted(s.last(), sort_spec(s.drop_last(), key, ascending), key, ascending)
    }
}

/// The row order as a binary predicate, for `sorted_by`.
pub open spec fn row_leq(key: SortBy, ascending: bool) -> spec_fn(ProcView, ProcView) -> bool {
    |a: ProcView, b: ProcView| row_le(a, b, key, ascending)
}

/// The rows whose key under `key` equals `k`.
pub open spec fn key_is(key: SortBy, k: KeyVal) -> spec_fn(ProcView) -> bool {
    |r: ProcView| key_of(r, key) == k
}

/// No two rows of `s` share a key under `key`.
pub open spec fn distinct_keys(s: Seq<ProcView>, key: SortBy) -> bool {
    forall|i: int, j: int|
        0 <= i < j < s.len() ==> key_of(s[i], key) != key_of(s[j], key)
}

/// The position `insert_sorted` places its row at: just before the first
/// row strictly greater than it.
pub open spec fn insert_pos(x: ProcView, s: Seq<ProcView>, key: SortBy, ascending: bool) -> int
    decreases s.len(),
{
    if s.len() == 0 {
        0
    } else if row_lt(x, s[0], key, ascending) {
        0
    } else {
        1 + insert_pos(x, s.drop_first(), key, ascending)
    }
}

/// `insert_sorted` is insertion at `insert_pos`, and `insert_pos` is the
/// first position whose row is strictly greater than the inserted one.
pub proof fn lemma_insert_sorted_is_insert(x: ProcView, s: Seq<ProcView>, key: SortBy, asc: bool)
    ensures
        0 <= insert_pos(x, s, key, asc) <= s.len(),
        insert_sorted(x, s, key, asc) == s.insert(insert_pos(x, s, key, asc), x),
        forall|m: int| 0 <= m < insert_pos(x, s, key, asc) ==> !row_lt(x, #[trigger] s[m], key, asc),
        insert_pos(x, s, key, asc) < s.len() ==> row_lt(x, s[insert_pos(x, s, key, asc)], key, asc),
    decreases s.len(),
{
    let pos = insert_pos(x, s, key, asc);
    if s.len() == 0 {
        assert(insert_sorted(x, s, key, asc) =~= s.insert(0, x));
    } else if row_lt(x, s[0], key, asc) {
        assert(insert_sorted(x, s, key, asc) =~= s.insert(0, x));
    } else {
        let rest = s.drop_first();
        lemma_insert_sorted_is_insert(x, rest, key, asc);
        let rpos = insert_pos(x, rest, key, asc);
        assert(pos == 1 + rpos);
        assert(insert_sorted(x, s, key, asc) =~= seq![s[0]] + rest.insert(rpos, x));
        assert(seq![s[0]] + rest.insert(rpos, x) =~= s.insert(pos, x));
        assert(forall|m: int| 1 <= m < pos ==> s[m] == rest[m - 1]);
    }
}

/// Inserting into a sorted sequence keeps it sorted.
pub proof fn lemma_insert_sorted_sorted(x: ProcView, s: Seq<ProcView>, key: SortBy, asc: bool)
    requires
        sorted_by(s, row_leq(key, asc)),
    ensures
        sorted_by(insert_sorted(x, s, key, asc), row_leq(key, asc)),
{
    lemma_insert_sorted_is_insert(x, s, key, asc);
    let pos = insert_pos(x, s, key, asc);
    let t = insert_sorted(x, s, key, asc);
    let leq = row_leq(key, asc);
    assert forall|i: int, j: int| 0 <= i < j < t.len() implies #[trigger] leq(t[i], t[j]) by {
        assert(forall|m: int| 0 <= m < pos ==> t[m] == s[m]);
        assert(t[pos] == x);
        assert(forall|m: int| pos < m < t.len() ==> t[m] == s[m - 1]);
        if pos < s.len() {
            // x comes weakly before the first strictly greater row
            assert(!row_le(s[pos], x, key, asc));
            lemma_row_le_total(x, s[pos], key, asc);
            assert(row_le(x, s[pos], key, asc));
        }
        if i == pos && j > pos {
            if j - 1 > pos {
                assert(row_leq(key, asc)(s[pos], s[j - 1]));
                lemma_row_le_trans(x, s[pos], s[j - 1], key, asc);
            }
            assert(row_le(x, s[j - 1], key, asc));
        } else if i < pos && j == pos {
            // rows before pos are not strictly greater than x
            assert(!row_lt(x, s[i], key, asc));
            assert(row_le(s[i], x, key, asc));
        } else if i < pos && j > pos {
            assert(row_leq(key, asc)(s[i], s[j - 1]));
        } else if i > pos {
            assert(row_leq(key, asc)(s[i - 1], s[j - 1]));
        } else {
            assert(j < pos);
            assert(row_leq(key, asc)(s[i], s[j]));
        }
        assert(row_le(t[i], t[j], key, asc));
    }
}

/// Inserting adds exactly one occurrence of the new row.
pub proof fn lemma_insert_sorted_multiset(x: ProcView, s: Seq<ProcView>, key: SortBy, asc: bool)
    ensures
        insert_sorted(x, s, key, asc).to_multiset() == s.to_multiset().insert(x),
{
    lemma_insert_sorted_is_insert(x, s, key, asc);
    vstd::seq_lib::to_multiset_insert(s, insert_pos(x, s, key, asc), x);
}

/// A sequence none of whose rows satisfies `p` filters to the empty sequence.
proof fn lemma_filter_none(s: Seq<ProcView>, p: spec_fn(ProcView) -> bool)
    requires
        forall|i: int| 0 <= i < s.len() ==> !p(#[trigger] s[i]),
    ensures
        s.filter(p) == Seq::<ProcView>::empty(),
    decreases s.len(),
{
    reveal(Seq::filter);
    if s.len() > 0 {
        lemma_filter_none(s.drop_last(), p);
    }
    assert(s.filter(p) =~= Seq::<ProcView>::empty());
}

/// A sequence all of whose rows satisfy `p` filters to itself.
proof fn lemma_filter_all(s: Seq<ProcView>, p: spec_fn(ProcView) -> bool)
    requires
        forall|i: int| 0 <= i < s.len() ==> p(#[trigger] s[i]),
    ensures
        s.filter(p) == s,
    decreases s.len(),
{
    reveal(Seq::filter);
    if s.len() > 0 {
        lemma_filter_all(s.drop_last(), p);
        assert(s.filter(p) =~= s);
    } else {
        assert(s.filter(p) =~= s);
    }
}

/// Filtering past one more row keeps it exactly when it matches.
pub proof fn lemma_filter_push(s: Seq<ProcView>, x: ProcView, p: spec_fn(ProcView) -> bool)
    ensures
        p(x) ==> s.push(x).filter(p) == s.filter(p).push(x),
        !p(x) ==> s.push(x).filter(p) == s.filter(p),
{
    assert(s.push(x) =~= s + seq![x]);
    Seq::filter_distributes_over_add(s, seq![x], p);
    lemma_filter_singleton(x, p);
    if p(x) {
        assert(s.filter(p) + seq![x] =~= s.filter(p).push(x));
    } else {
        assert(s.filter(p) + Seq::<ProcView>::empty() =~= s.filter(p));
    }
}

proof fn lemma_filter_singleton(x: ProcView, p: spec_fn(ProcView) -> bool)
    ensures
        p(x) ==> seq![x].filter(p) == seq![x],
        !p(x) ==> seq![x].filter(p) == Seq::<ProcView>::empty(),
{
    reveal_with_fuel(Seq::filter, 2);
    assert(seq![x].drop_last() =~= Seq::<ProcView>::empty());
    assert(seq![x].last() == x);
    if p(x) {
        assert(seq![x].filter(p) =~= seq![x]);
    } else {
        assert(seq![x].filter(p) =~= Seq::<ProcView>::empty());
    }
}

/// Inserting a row into a sorted sequence appends it to its key class and
/// leaves every other key class unchanged.
pub proof fn lemma_insert_sorted_filter(x: ProcView, s: Seq<ProcView>, key: SortBy, asc: bool,
    k: KeyVal)
    requires
        sorted_by(s, row_leq(key, asc)),
    ensures
        key_of(x, key) == k ==> insert_sorted(x, s, key, asc).filter(key_is(key, k))
            == s.filter(key_is(key, k)).push(x),
        key_of(x, key) != k ==> insert_sorted(x, s, key, asc).filter(key_is(key, k))
            == s.filter(key_is(key, k)),
{
    broadcast use vstd::seq_lib::group_seq_properties;

    lemma_insert_sorted_is_insert(x, s, key, asc);
    let p = key_is(key, k);
    let pos = insert_pos(x, s, key, asc);
    let t = insert_sorted(x, s, key, asc);
    let front = s.subrange(0, pos);
    let back = s.subrange(pos, s.len() as int);
    assert(t =~= (front + seq![x]) + back);
    assert(s =~= front + back);
    Seq::filter_distributes_over_add(front + seq![x], back, p);
    Seq::filter_distributes_over_add(front, seq![x], p);
    Seq::filter_distributes_over_add(front, back, p);
    lemma_filter_singleton(x, p);
    if key_of(x, key) == k {
        // no row with the same key stands at or after the insertion point
        assert forall|i: int| 0 <= i < back.len() implies !p(#[trigger] back[i]) by {
            if p(back[i]) {
                // back[i] has x's key, so it sits weakly before x ...
                lemma_keyval_le_total(k, k);
                assert(row_le(back[i], x, key, asc));
                // ... yet the row at the insertion point is strictly after x
                assert(row_lt(x, s[pos], key, asc));
                if i > 0 {
                    assert(back[i] == s[pos + i]);
                    assert(row_leq(key, asc)(s[pos], s[pos + i]));
                    lemma_row_le_trans(s[pos], back[i], x, key, asc);
                }
                assert(false);
            }
        }
        lemma_filter_none(back, p);
        assert(t.filter(p) =~= s.filter(p).push(x));
    } else {
        assert(t.filter(p) =~= s.filter(p));
    }
}

/// What the display order guarantees: same length, the same rows with the
/// same number of occurrences, and sortedness by the chosen column.
pub proof fn lemma_sort_spec_ensures(s: Seq<ProcView>, key: SortBy, asc: bool)
    ensures
        sort_spec(s, key, asc).len() == s.len(),
        sort_spec(s, key, asc).to_multiset() == s.to_multiset(),
        sorted_by(sort_spec(s, key, asc), row_leq(key, asc)),
    decreases s.len(),
{
    broadcast use vstd::seq_lib::group_to_multiset_ensures;

    if s.len() > 0 {
        let rest = s.drop_last();
        lemma_sort_spec_ensures(rest, key, asc);
        let t = sort_spec(rest, key, asc);
        lemma_insert_sorted_is_insert(s.last(), t, key, asc);
        lemma_insert_sorted_sorted(s.last(), t, key, asc);
        lemma_insert_sorted_multiset(s.last(), t, key, asc);
        assert(s =~= rest.push(s.last()));
        assert(rest.push(s.last()).to_multiset() == rest.to_multiset().insert(s.last()));
    }
}

/// The sort is stable: within every key class the display order keeps the
/// rows in their original relative order.
pub proof fn lemma_sort_stable(s: Seq<ProcView>, key: SortBy, asc: bool, k: KeyVal)
    ensures
        sort_spec(s, key, asc).filter(key_is(key, k)) == s.filter(key_is(key, k)),
    decreases s.len(),
{
    let p = key_is(key, k);
    if s.len() > 0 {
        let rest = s.drop_last();
        let x = s.last();
        lemma_sort_stable(rest, key, asc, k);
        lemma_sort_spec_ensures(rest, key, asc);
        let t = sort_spec(rest, key, asc);
        lemma_insert_sorted_filter(x, t, key, asc, k);
        assert(s =~= rest + seq![x]);
        Seq::filter_distributes_over_add(rest, seq![x], p);
        lemma_filter_singleton(x, p);
        if p(x) {
            assert(s.filter(p) =~= rest.filter(p).push(x));
        } else {
            assert(s.filter(p) =~= rest.filter(p));
        }
    } else {
        reveal(Seq::filter);
    }
}

/// Sorting an already sorted sequence changes nothing.
pub proof fn lemma_sort_of_sorted(s: Seq<ProcView>, key: SortBy, asc: bool)
    requires
        sorted_by(s, row_leq(key, asc)),
    ensures
        sort_spec(s, key, asc) == s,
    decreases s.len(),
{
    if s.len() > 0 {
        let rest = s.drop_last();
        let x = s.last();
        let leq = row_leq(key, asc);
        assert(forall|i: int, j: int| 0 <= i < j < rest.len() ==> leq(rest[i], rest[j]));
        lemma_sort_of_sorted(rest, key, asc);
        lemma_insert_sorted_is_insert(x, rest, key, asc);
        let pos = insert_pos(x, rest, key, asc);
        if pos < rest.len() {
            // the row there is not strictly greater, since s is sorted
            assert(leq(rest[pos], x));
        }
        assert(pos == rest.len());
        assert(rest.insert(pos, x) =~= s);
    }
}

/// Filtering keeps the rows that match and nothing else; re-filtering and
/// re-sorting with the same parameters therefore changes nothing.
pub proof fn lemma_pipeline_idempotent(s: Seq<ProcView>, pred: spec_fn(ProcView) -> bool,
    key: SortBy, asc: bool)
    ensures
        sort_spec(s.filter(pred), key, asc).filter(pred) == sort_spec(s.filter(pred), key, asc),
        sort_spec(sort_spec(s.filter(pred), key, asc).filter(pred), key, asc)
            == sort_spec(s.filter(pred), key, asc),
{
    broadcast use vstd::seq_lib::group_to_multiset_ensures;

    let t = s.filter(pred);
    let u = sort_spec(t, key, asc);
    lemma_sort_spec_ensures(t, key, asc);
    assert forall|i: int| 0 <= i < u.len() implies pred(#[trigger] u[i]) by {
        assert(u.contains(u[i]));
        assert(u.to_multiset().count(u[i]) > 0);
        assert(t.contains(u[i]));
        let j = choose|j: int| 0 <= j < t.len() && t[j] == u[i];
        s.lemma_filter_pred(pred, j);
    }
    lemma_filter_all(u, pred);
    lemma_sort_of_sorted(u, key, asc);
}

/// Reversing a sequence keeps its rows and their multiplicities.
proof fn lemma_reverse_multiset(s: Seq<ProcView>)
    ensures
        s.reverse().to_multiset() == s.to_multiset(),
    decreases s.len(),
{
    broadcast use vstd::seq_lib::group_to_multiset_ensures;
    broadcast use vstd::seq_lib::lemma_multiset_commutative;
    broadcast use vstd::multiset::group_multiset_axioms;

    if s.len() > 0 {
        let rest = s.drop_last();
        let x = s.last();
        lemma_reverse_multiset(rest);
        assert(s.reverse() =~= seq![x] + rest.reverse());
        assert((seq![x] + rest.reverse()).to_multiset()
            == seq![x].to_multiset().add(rest.reverse().to_multiset()));
        assert(seq![x] =~= Seq::<ProcView>::empty().push(x));
        assert(seq![x].to_multiset() =~= Multiset::<ProcView>::empty().insert(x));
        assert(s =~= rest.push(x));
        assert(s.to_multiset() == rest.to_multiset().insert(x));
        assert(Multiset::<ProcView>::empty().insert(x).add(rest.to_multiset())
            =~= rest.to_multiset().insert(x));
    }
}

/// Reversing a sorted sequence sorts it the other way around.
proof fn lemma_reverse_sorted_flips(s: Seq<ProcView>, key: SortBy, asc: bool)
    requires
        sorted_by(s, row_leq(key, asc)),
    ensures
        sorted_by(s.reverse(), row_leq(key, !asc)),
{
    let r = s.reverse();
    let flipped = row_leq(key, !asc);
    assert forall|i: int, j: int| 0 <= i < j < r.len() implies #[trigger] flipped(r[i], r[j]) by {
        let n = s.len() as int;
        assert(r[i] == s[n - 1 - i]);
        assert(r[j] == s[n - 1 - j]);
        assert(row_leq(key, asc)(s[n - 1 - j], s[n - 1 - i]));
        assert(row_le(s[n - 1 - j], s[n - 1 - i], key, asc));
        assert(row_le(s[n - 1 - i], s[n - 1 - j], key, !asc));
    }
}

/// Two rows at different positions sharing a value give that value a
/// multiplicity of at least two.
proof fn lemma_two_positions_count(s: Seq<ProcView>, i: int, j: int)
    requires
        0 <= i < j < s.len(),
        s[i] == s[j],
    ensures
        s.to_multiset().count(s[i]) >= 2,
{
    broadcast use vstd::seq_lib::group_to_multiset_ensures;
    broadcast use vstd::multiset::group_multiset_axioms;

    let t = s.remove(i);
    assert(t.to_multiset() == s.to_multiset().remove(s[i]));
    assert(t[j - 1] == s[j]);
    assert(t.contains(s[i]));
    assert(t.to_multiset().count(s[i]) > 0);
}

/// A permutation of a sequence with pairwise distinct keys has pairwise
/// distinct keys itself.
proof fn lemma_permutation_distinct_keys(s: Seq<ProcView>, t: Seq<ProcView>, key: SortBy)
    requires
        t.to_multiset() == s.to_multiset(),
        distinct_keys(s, key),
    ensures
        distinct_keys(t, key),
{
    broadcast use vstd::seq_lib::group_to_multiset_ensures;

    assert forall|i: int, j: int| 0 <= i < j < t.len() implies
        key_of(#[trigger] t[i], key) != key_of(#[trigger] t[j], key) by {
        if key_of(t[i], key) == key_of(t[j], key) {
            if t[i] == t[j] {
                lemma_two_positions_count(t, i, j);
                assert(s.to_multiset().count(t[i]) >= 2);
                let p = choose|p: int| 0 <= p < s.len() && s[p] == t[i];
                let s2 = s.remove(p);
                assert(s2.to_multiset() == s.to_multiset().remove(s[p]));
                assert(s2.to_multiset().count(t[i]) > 0);
                assert(s2.contains(t[i]));
                let q2 = choose|q2: int| 0 <= q2 < s2.len() && s2[q2] == t[i];
                let q = if q2 < p { q2 } else { q2 + 1 };
                assert(s[q] == s2[q2]);
                assert(p != q);
                assert(key_of(s[p], key) == key_of(s[q], key));
                assert(false);
            } else {
                assert(t.contains(t[i]));
                assert(t.contains(t[j]));
                assert(s.contains(t[i]));
                assert(s.contains(t[j]));
                let p = choose|p: int| 0 <= p < s.len() && s[p] == t[i];
                let q = choose|q: int| 0 <= q < s.len() && s[q] == t[j];
                assert(p != q);
                assert(key_of(s[p], key) == key_of(s[q], key));
                assert(false);
            }
        }
    }
}

/// Two sorted permutations of one another are equal when no key occurs
/// twice.
proof fn lemma_sorted_unique(a: Seq<ProcView>, b: Seq<ProcView>, key: SortBy, asc: bool)
    requires
        sorted_by(a, row_leq(key, asc)),
        sorted_by(b, row_leq(key, asc)),
        a.to_multiset() == b.to_multiset(),
        distinct_keys(a, key),
    ensures
        a == b,
    decreases a.len(),
{
    broadcast use vstd::seq_lib::group_to_multiset_ensures;

    if a.len() == 0 {
        assert(b.to_multiset().len() == 0);
        assert(a =~= b);
    } else {
        assert(a.to_multiset().len() == a.len());
        assert(b.len() == a.len());
        // each head occurs in the other sequence
        assert(a.contains(a[0]));
        assert(b.to_multiset().count(a[0]) > 0);
        assert(b.contains(a[0]));
        assert(b.contains(b[0]));
        assert(a.to_multiset().count(b[0]) > 0);
        assert(a.contains(b[0]));
        let i = choose|i: int| 0 <= i < a.len() && a[i] == b[0];
        let j = choose|j: int| 0 <= j < b.len() && b[j] == a[0];
        // heads are mutually ordered, so their keys agree
        if i > 0 {
            assert(row_leq(key, asc)(a[0], a[i]));
        } else {
            lemma_row_le_total(a[0], a[0], key, asc);
        }
        assert(row_le(a[0], b[0], key, asc));
        if j > 0 {
            assert(row_leq(key, asc)(b[0], b[j]));
        } else {
            lemma_row_le_total(b[0], b[0], key, asc);
        }
        assert(row_le(b[0], a[0], key, asc));
        lemma_row_le_antisym_keys(a[0], b[0], key, asc);
        // with distinct keys that makes them the same row
        if a[0] != b[0] {
            assert(i != 0);
            assert(key_of(a[0], key) != key_of(a[i], key));
            assert(false);
        }
        let a2 = a.drop_first();
        let b2 = b.drop_first();
        assert(a2 =~= a.remove(0));
        assert(b2 =~= b.remove(0));
        assert(a2.to_multiset() == a.to_multiset().remove(a[0]));
        assert(b2.to_multiset() == b.to_multiset().remove(b[0]));
        assert(forall|m: int, n: int| 0 <= m < n < a2.len()
            ==> row_leq(key, asc)(a[m + 1], a[n + 1]) && a2[m] == a[m + 1] && a2[n] == a[n + 1]);
        assert(sorted_by(a2, row_leq(key, asc)));
        assert(forall|m: int, n: int| 0 <= m < n < b2.len()
            ==> row_leq(key, asc)(b[m + 1], b[n + 1]) && b2[m] == b[m + 1] && b2[n] == b[n + 1]);
        assert(sorted_by(b2, row_leq(key, asc)));
        assert(distinct_keys(a2, key));
        lemma_sorted_unique(a2, b2, key, asc);
        assert(a =~= seq![a[0]] + a2);
        assert(b =~= seq![b[0]] + b2);
    }
}

/// With no ties in the chosen column, toggling the direction exactly
/// reverses the display order. (With ties it cannot: a stable sort keeps
/// equal-key rows in their original relative order in both directions.)
pub proof fn lemma_sort_toggle_reverses(s: Seq<ProcView>, key: SortBy, asc: bool)
    requires
        distinct_keys(s, key),
    ensures
        sort_spec(s, key, !asc) == sort_spec(s, key, asc).reverse(),
{
    let a = sort_spec(s, key, asc);
    let b = sort_spec(s, key, !asc);
    lemma_sort_spec_ensures(s, key, asc);
    lemma_sort_spec_ensures(s, key, !asc);
    lemma_reverse_sorted_flips(a, key, asc);
    lemma_reverse_multiset(a);
    lemma_permutation_distinct_keys(s, b, key);
    lemma_sorted_unique(b, a.reverse(), key, !asc);
}

} // verus!
