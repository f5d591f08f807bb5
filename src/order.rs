//! The order of strings (character by character, as `String`'s own order compares their
//! UTF-8 bytes) and sorted lists without repeats.
use vstd::prelude::*;
use crate::text::{chars_of, views};

verus! {

/// `a` sorts strictly before `b`.
pub open spec fn seq_less(a: Seq<char>, b: Seq<char>) -> bool
    decreases a.len(),
{
    if a.len() == 0 {
        b.len() > 0
    } else if b.len() == 0 {
        false
    } else if a[0] != b[0] {
        a[0] < b[0]
    } else {
        seq_less(a.drop_first(), b.drop_first())
    }
}

/// Each element sorts strictly before every later one.
pub open spec fn strictly_sorted(s: Seq<Seq<char>>) -> bool {
    forall|i: int, j: int| 0 <= i < j < s.len() ==> seq_less(#[trigger] s[i], #[trigger] s[j])
}

pub proof fn lemma_less_irreflexive(a: Seq<char>)
    ensures
        !seq_less(a, a),
    decreases a.len(),
{
    if a.len() > 0 {
        lemma_less_irreflexive(a.drop_first());
    }
}

pub proof fn lemma_less_transitive(a: Seq<char>, b: Seq<char>, c: Seq<char>)
    requires
        seq_less(a, b),
        seq_less(b, c),
    ensures
        seq_less(a, c),
    decreases a.len(),
{
    if a.len() > 0 && a[0] == b[0] && b[0] == c[0] {
        lemma_less_transitive(a.drop_first(), b.drop_first(), c.drop_first());
    }
}

pub proof fn lemma_less_total(a: Seq<char>, b: Seq<char>)
    requires
        a != b,
    ensures
        seq_less(a, b) || seq_less(b, a),
    decreases a.len(),
{
    if a.len() == 0 && b.len() == 0 {
        assert(a =~= b);
    } else if a.len() > 0 && b.len() > 0 && a[0] == b[0] {
        if a.drop_first() == b.drop_first() {
            assert(a =~= seq![a[0]] + a.drop_first());
            assert(b =~= seq![b[0]] + b.drop_first());
        }
        lemma_less_total(a.drop_first(), b.drop_first());
        assert(seq_less(a, b) == seq_less(a.drop_first(), b.drop_first()));
        assert(seq_less(b, a) == seq_less(b.drop_first(), a.drop_first()));
    }
}

/// Whether `a` sorts strictly before `b`.
pub fn less_than(a: &str, b: &str) -> (r: bool)
    ensures
        r == seq_less(a@, b@),
{
    let x = chars_of(a);
    let y = chars_of(b);
    let mut i: usize = 0;
    assert(x@.skip(0) =~= x@);
    assert(y@.skip(0) =~= y@);
    while i < x.len() && i < y.len() && x[i] == y[i]
        invariant
            i <= x@.len(),
            i <= y@.len(),
            seq_less(x@, y@) == seq_less(x@.skip(i as int), y@.skip(i as int)),
        decreases x@.len() - i,
    {
        assert(x@.skip(i as int).drop_first() =~= x@.skip(i + 1));
        assert(y@.skip(i as int).drop_first() =~= y@.skip(i + 1));
        i += 1;
    }
    if i == x.len() {
        i < y.len()
    } else if i == y.len() {
        false
    } else {
        assert(x@.skip(i as int)[0] == x@[i as int]);
        assert(y@.skip(i as int)[0] == y@[i as int]);
        x[i] < y[i]
    }
}

/// Adds `x` to a strictly sorted list, unless it is there already.
pub fn insert_sorted(list: &mut Vec<String>, x: String)
    requires
        strictly_sorted(views(old(list)@)),
    ensures
        strictly_sorted(views(final(list)@)),
        forall|y: Seq<char>|
            views(final(list)@).contains(y) <==> (views(old(list)@).contains(y) || y == x@),
{
    let ghost old_v = views(list@);
    let mut p: usize = 0;
    while p < list.len() && less_than(list[p].as_str(), x.as_str())
        invariant
            p <= list@.len(),
            views(list@) == old_v,
            forall|k: int| 0 <= k < p ==> seq_less(#[trigger] old_v[k], x@),
        decreases list@.len() - p,
    {
        p += 1;
    }
    if p < list.len() && list[p] == x {
        assert(old_v[p as int] == x@);
        assert forall|y: Seq<char>| old_v.contains(y) || y == x@ implies old_v.contains(y) by {
            if y == x@ {
                assert(old_v[p as int] == y);
            }
        }
        return;
    }
    proof {
        if p < old_v.len() {
            assert(old_v[p as int] != x@);
            lemma_less_total(old_v[p as int], x@);
            assert(seq_less(x@, old_v[p as int]));
            assert forall|k: int| p <= k < old_v.len() implies seq_less(x@, #[trigger] old_v[k]) by {
                if k > p {
                    lemma_less_transitive(x@, old_v[p as int], old_v[k]);
                }
            }
        }
    }
    let ghost xv = x@;
    list.insert(p, x);
    let ghost new_v = views(list@);
    assert(new_v =~= old_v.insert(p as int, xv));
    assert(strictly_sorted(new_v)) by {
        assert forall|i: int, j: int| 0 <= i < j < new_v.len() implies seq_less(
            #[trigger] new_v[i],
            #[trigger] new_v[j],
        ) by {
            if j < p {
            } else if j == p {
            } else if i < p {
                lemma_less_transitive(old_v[i], xv, old_v[j - 1]);
            } else if i == p {
            } else {
            }
        }
    }
    assert forall|y: Seq<char>| new_v.contains(y) <==> (old_v.contains(y) || y == xv) by {
        if new_v.contains(y) {
            let k = choose|k: int| 0 <= k < new_v.len() && new_v[k] == y;
            if k < p {
                assert(old_v[k] == y);
            } else if k > p {
                assert(old_v[k - 1] == y);
            }
        }
        if old_v.contains(y) {
            let k = choose|k: int| 0 <= k < old_v.len() && old_v[k] == y;
            if k < p {
                assert(new_v[k] == y);
            } else {
                assert(new_v[k + 1] == y);
            }
        }
        if y == xv {
            assert(new_v[p as int] == y);
        }
    }
}

/// The strings of `items`, sorted, each once.
pub fn sorted_unique(items: &Vec<String>) -> (r: Vec<String>)
    ensures
        strictly_sorted(views(r@)),
        forall|y: Seq<char>| views(r@).contains(y) <==> views(items@).contains(y),
{
    let mut r: Vec<String> = Vec::new();
    let mut i: usize = 0;
    while i < items.len()
        invariant
            i <= items@.len(),
            strictly_sorted(views(r@)),
            forall|y: Seq<char>|
                views(r@).contains(y) <==> views(items@).subrange(0, i as int).contains(y),
        decreases items@.len() - i,
    {
        let ghost before = views(items@).subrange(0, i as int);
        let ghost after = views(items@).subrange(0, i + 1);
        assert(after =~= before.push(items@[i as int]@));
        insert_sorted(&mut r, items[i].clone());
        assert forall|y: Seq<char>| after.contains(y) <==> (before.contains(y) || y
            == items@[i as int]@) by {
            if after.contains(y) {
                let k = choose|k: int| 0 <= k < after.len() && after[k] == y;
                if k < before.len() {
                    assert(before[k] == y);
                }
            }
            if before.contains(y) {
                let k = choose|k: int| 0 <= k < before.len() && before[k] == y;
                assert(after[k] == y);
            }
            if y == items@[i as int]@ {
                assert(after[i as int] == y);
            }
        }
        i += 1;
    }
    assert(views(items@).subrange(0, items@.len() as int) =~= views(items@));
    r
}

} // verus!
