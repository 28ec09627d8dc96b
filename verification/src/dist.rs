//! The mathematical definition of the Levenshtein edit distance between two
//! sequences, together with proofs of its metric laws.

use vstd::prelude::*;

verus! {

/// The least of three natural numbers.
pub open spec fn min3(a: nat, b: nat, c: nat) -> nat {
    if a <= b && a <= c {
        a
    } else if b <= c {
        b
    } else {
        c
    }
}

/// The Levenshtein edit distance between `s` and `t`: the minimum number of
/// single-element insertions, deletions and substitutions that turn `s` into
/// `t`. Defined by recursion on the last elements of the two sequences.
pub open spec fn edit_dist<T>(s: Seq<T>, t: Seq<T>) -> nat
    decreases s.len() + t.len(),
{
    if s.len() == 0 {
        t.len()
    } else if t.len() == 0 {
        s.len()
    } else {
        let sub_cost: nat = if s.last() == t.last() {
            0
        } else {
            1
        };
        min3(
            edit_dist(s.drop_last(), t.drop_last()) + sub_cost,
            edit_dist(s.drop_last(), t) + 1,
            edit_dist(s, t.drop_last()) + 1,
        )
    }
}

/// The distance between two empty sequences, and more generally between a
/// sequence and the empty sequence, is the length of the other sequence:
/// only insertions (or only deletions) can bridge them.
pub proof fn lemma_dist_empty<T>(s: Seq<T>, t: Seq<T>)
    ensures
        edit_dist(Seq::<T>::empty(), t) == t.len(),
        edit_dist(s, Seq::<T>::empty()) == s.len(),
{
}

/// The distance is bounded above by the sum of the lengths (delete everything,
/// then insert everything) and below by the difference of the lengths (each
/// edit changes a length by at most one).
pub proof fn lemma_dist_bounds<T>(s: Seq<T>, t: Seq<T>)
    ensures
        edit_dist(s, t) <= s.len() + t.len(),
        s.len() <= edit_dist(s, t) + t.len(),
        t.len() <= edit_dist(s, t) + s.len(),
    decreases s.len() + t.len(),
{
    if s.len() == 0 || t.len() == 0 {
    } else {
        lemma_dist_bounds(s.drop_last(), t.drop_last());
        lemma_dist_bounds(s.drop_last(), t);
        lemma_dist_bounds(s, t.drop_last());
    }
}

/// Non-negativity and totality: every pair of finite sequences, the empty
/// ones included, has a defined, non-negative distance.
pub proof fn lemma_dist_total<T>(s: Seq<T>, t: Seq<T>)
    ensures
        edit_dist(s, t) >= 0,
{
}

/// Identity: a sequence is at distance zero from itself.
pub proof fn lemma_dist_identity<T>(s: Seq<T>)
    ensures
        edit_dist(s, s) == 0,
    decreases s.len(),
{
    if s.len() > 0 {
        lemma_dist_identity(s.drop_last());
    }
}

/// The distance is zero only between sequences that are element-wise
/// identical, and always zero between those.
pub proof fn lemma_dist_zero_iff<T>(s: Seq<T>, t: Seq<T>)
    ensures
        edit_dist(s, t) == 0 <==> s == t,
    decreases s.len() + t.len(),
{
    if s.len() == 0 {
        if edit_dist(s, t) == 0 {
            assert(s =~= t);
        }
    } else if t.len() == 0 {
    } else {
        lemma_dist_zero_iff(s.drop_last(), t.drop_last());
        if edit_dist(s, t) == 0 {
            assert(edit_dist(s.drop_last(), t.drop_last()) + (if s.last() == t.last() {
                0nat
            } else {
                1nat
            }) == 0);
            assert(s =~= s.drop_last().push(s.last()));
            assert(t =~= t.drop_last().push(t.last()));
        } else if s == t {
            assert(s.drop_last() =~= t.drop_last());
        }
    }
}

/// Symmetry: the distance from `s` to `t` equals the distance from `t` to
/// `s`; every edit has an inverse edit of the same kind's cost.
pub proof fn lemma_dist_symmetry<T>(s: Seq<T>, t: Seq<T>)
    ensures
        edit_dist(s, t) == edit_dist(t, s),
    decreases s.len() + t.len(),
{
    if s.len() > 0 && t.len() > 0 {
        lemma_dist_symmetry(s.drop_last(), t.drop_last());
        lemma_dist_symmetry(s.drop_last(), t);
        lemma_dist_symmetry(s, t.drop_last());
    }
}

/// Appending one element to either sequence moves the distance up by at most
/// one.
proof fn lemma_dist_drop_widens<T>(s: Seq<T>, t: Seq<T>)
    ensures
        s.len() > 0 ==> edit_dist(s, t) <= edit_dist(s.drop_last(), t) + 1,
        t.len() > 0 ==> edit_dist(s, t) <= edit_dist(s, t.drop_last()) + 1,
{
}

/// Triangle inequality: editing `s` into `t` and then `t` into `u` is one
/// way to edit `s` into `u`, so the direct distance can be no larger.
pub proof fn lemma_dist_triangle<T>(s: Seq<T>, t: Seq<T>, u: Seq<T>)
    ensures
        edit_dist(s, u) <= edit_dist(s, t) + edit_dist(t, u),
    decreases s.len() + t.len() + u.len(),
{
    if t.len() == 0 {
        lemma_dist_bounds(s, u);
    } else if s.len() == 0 {
        lemma_dist_bounds(t, u);
    } else if u.len() == 0 {
        lemma_dist_bounds(s, t);
    } else {
        let s_ = s.drop_last();
        let t_ = t.drop_last();
        let u_ = u.drop_last();
        let d_sub: nat = edit_dist(s_, t_) + (if s.last() == t.last() {
            0nat
        } else {
            1nat
        });
        let d_del: nat = edit_dist(s_, t) + 1;
        let d_ins: nat = edit_dist(s, t_) + 1;
        let e_sub: nat = edit_dist(t_, u_) + (if t.last() == u.last() {
            0nat
        } else {
            1nat
        });
        let e_del: nat = edit_dist(t_, u) + 1;
        let e_ins: nat = edit_dist(t, u_) + 1;
        assert(edit_dist(s, t) == min3(d_sub, d_del, d_ins));
        assert(edit_dist(t, u) == min3(e_sub, e_del, e_ins));
        if edit_dist(s, t) == d_del {
            lemma_dist_triangle(s_, t, u);
            assert(edit_dist(s, u) <= edit_dist(s_, u) + 1);
        } else if edit_dist(t, u) == e_ins {
            lemma_dist_triangle(s, t, u_);
            assert(edit_dist(s, u) <= edit_dist(s, u_) + 1);
        } else if edit_dist(s, t) == d_sub && edit_dist(t, u) == e_sub {
            lemma_dist_triangle(s_, t_, u_);
            assert(edit_dist(s, u) <= edit_dist(s_, u_) + (if s.last() == u.last() {
                0nat
            } else {
                1nat
            }));
        } else if edit_dist(s, t) == d_sub && edit_dist(t, u) == e_del {
            lemma_dist_triangle(s_, t_, u);
            assert(edit_dist(s, u) <= edit_dist(s_, u) + 1);
        } else if edit_dist(s, t) == d_ins && edit_dist(t, u) == e_sub {
            lemma_dist_triangle(s, t_, u_);
            lemma_dist_drop_widens(t_, u);
            assert(edit_dist(s, u) <= edit_dist(s, u_) + 1);
        } else {
            lemma_dist_triangle(s, t_, u);
            assert(edit_dist(s, t) == d_ins && edit_dist(t, u) == e_del);
        }
    }
}

/// Single-edit bound: replacing one element of a sequence yields a sequence
/// at distance at most one from it.
pub proof fn lemma_dist_single_edit<T>(s: Seq<T>, i: int, v: T)
    requires
        0 <= i < s.len(),
    ensures
        edit_dist(s, s.update(i, v)) <= 1,
    decreases s.len(),
{
    let t = s.update(i, v);
    if i == s.len() - 1 {
        assert(t.drop_last() =~= s.drop_last());
        lemma_dist_identity(s.drop_last());
    } else {
        assert(t.drop_last() =~= s.drop_last().update(i, v));
        assert(t.last() == s.last());
        lemma_dist_single_edit(s.drop_last(), i, v);
    }
}

/// The distance between two non-empty prefixes obeys the dynamic-programming
/// recurrence: it is the least of the substitute-or-match, insert and delete
/// candidates built from the three neighbouring shorter prefixes.
pub proof fn lemma_edit_dist_step<T>(f: Seq<T>, s: Seq<T>, x: int, y: int)
    requires
        1 <= x <= f.len(),
        1 <= y <= s.len(),
    ensures
        edit_dist(f.take(x), s.take(y)) == min3(
            edit_dist(f.take(x - 1), s.take(y - 1)) + (if f[x - 1] == s[y - 1] {
                0nat
            } else {
                1nat
            }),
            edit_dist(f.take(x - 1), s.take(y)) + 1,
            edit_dist(f.take(x), s.take(y - 1)) + 1,
        ),
{
    let a = f.take(x);
    let b = s.take(y);
    assert(a.drop_last() =~= f.take(x - 1));
    assert(b.drop_last() =~= s.take(y - 1));
    assert(a.last() == f[x - 1]);
    assert(b.last() == s[y - 1]);
}

} // verus!
