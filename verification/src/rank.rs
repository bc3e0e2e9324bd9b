//! Ranking of result sets: a stable sort by a chosen comparator, forward or
//! reversed, and what holds of it.

use vstd::prelude::*;
use crate::config::{SortKey, SortOrder};
use crate::package::{AurPkg, AurPkgView, spec_compare_by, compare_by};
use crate::strutil::{lemma_lex_cmp_flip, lemma_lex_cmp_trans};

verus! {

/// Whether `a` may stand before `b` under `key` and `dir`.  The direction
/// reverses the comparator's sign, not the comparator.
pub open spec fn key_le(key: SortKey, dir: SortOrder, a: AurPkgView, b: AurPkgView) -> bool {
    match dir {
        SortOrder::Forward => spec_compare_by(key, a, b) != core::cmp::Ordering::Greater,
        SortOrder::Reverse => spec_compare_by(key, a, b) != core::cmp::Ordering::Less,
    }
}

/// `x` inserted into `s` after every entry that may stand before it; ties
/// keep the entries already in `s` in front, which makes the sort stable.
pub open spec fn insert_sorted(
    key: SortKey,
    dir: SortOrder,
    x: AurPkgView,
    s: Seq<AurPkgView>,
) -> Seq<AurPkgView>
    decreases s.len(),
{
    if s.len() == 0 {
        seq![x]
    } else if key_le(key, dir, s.last(), x) {
        s.push(x)
    } else {
        insert_sorted(key, dir, x, s.drop_last()).push(s.last())
    }
}

/// The ranking of `s`: every entry inserted in order into the ranking of
/// the entries before it.
pub open spec fn spec_rank(key: SortKey, dir: SortOrder, s: Seq<AurPkgView>) -> Seq<AurPkgView>
    decreases s.len(),
{
    if s.len() == 0 {
        Seq::empty()
    } else {
        insert_sorted(key, dir, s.last(), spec_rank(key, dir, s.drop_last()))
    }
}

/// Sortedness under `key` and `dir`: every adjacent pair in order.
pub open spec fn sorted_by_key(key: SortKey, dir: SortOrder, s: Seq<AurPkgView>) -> bool {
    forall|i: int| 0 <= i < s.len() - 1 ==> key_le(key, dir, #[trigger] s[i], s[i + 1])
}

fn le_exec(key: SortKey, dir: SortOrder, a: &AurPkg, b: &AurPkg) -> (r: bool)
    ensures
        r == key_le(key, dir, a@, b@),
{
    let c = compare_by(key, a, b);
    match dir {
        SortOrder::Forward => !matches!(c, core::cmp::Ordering::Greater),
        SortOrder::Reverse => !matches!(c, core::cmp::Ordering::Less),
    }
}

/// Inserting at the position the in-place search finds is what
/// `insert_sorted` means.
proof fn lemma_insert_at(key: SortKey, dir: SortOrder, x: AurPkgView, s: Seq<AurPkgView>, p: int)
    requires
        0 <= p <= s.len(),
        p > 0 ==> key_le(key, dir, s[p - 1], x),
        forall|j: int| p <= j < s.len() ==> !key_le(key, dir, s[j], x),
    ensures
        insert_sorted(key, dir, x, s) == s.take(p) + seq![x] + s.skip(p),
    decreases s.len(),
{
    if s.len() == 0 {
        assert(s.take(0) + seq![x] + s.skip(0) =~= seq![x]);
    } else if key_le(key, dir, s.last(), x) {
        assert(p == s.len());
        assert(s.take(p) + seq![x] + s.skip(p) =~= s.push(x));
    } else {
        assert(p < s.len());
        assert(forall|j: int| 0 <= j < s.len() - 1 ==> s.drop_last()[j] == s[j]);
        lemma_insert_at(key, dir, x, s.drop_last(), p);
        assert((s.drop_last().take(p) + seq![x] + s.drop_last().skip(p)).push(s.last()) =~= s.take(
            p,
        ) + seq![x] + s.skip(p));
    }
}

/// Sort `records` in place by the comparator `key` names, in direction
/// `dir`.  The sort is stable: entries the comparator ties keep their
/// input order.
pub fn rank(records: &mut Vec<AurPkg>, key: SortKey, dir: SortOrder)
    ensures
        final(records).deep_view() == spec_rank(key, dir, old(records).deep_view()),
{
    let ghost input = records.deep_view();
    let mut out: Vec<AurPkg> = Vec::new();
    proof {
        lemma_pkg_dv(*records);
        assert(out.deep_view() =~= spec_rank(key, dir, input.take(0)));
    }
    let ghost mut k: int = 0;
    loop
        invariant
            0 <= k <= input.len(),
            records.deep_view() =~= input.skip(k),
            out.deep_view() == spec_rank(key, dir, input.take(k)),
        ensures
            out.deep_view() == spec_rank(key, dir, input),
        decreases input.len() - k,
    {
        proof {
            lemma_pkg_dv(*records);
        }
        if records.len() == 0 {
            proof {
                assert(k == input.len());
                assert(input.take(k) =~= input);
            }
            break;
        }
        let ghost v_old = records@;
        let ghost dv_old = records.deep_view();
        proof {
            assert(k < input.len());
        }
        let x = records.remove(0);
        let ghost xv = x@;
        proof {
            lemma_pkg_dv(*records);
            assert(dv_old[0] == input.skip(k)[0]);
            assert(input.skip(k)[0] == input[k]);
            assert(xv == input[k]);
            assert forall|j: int| 0 <= j < records@.len() implies records.deep_view()[j]
                == input.skip(k + 1)[j] by {
                assert(records@[j] == v_old[j + 1]);
                assert(records.deep_view()[j] == records@[j]@);
                assert(v_old[j + 1]@ == dv_old[j + 1]);
                assert(dv_old[j + 1] == input.skip(k)[j + 1]);
                assert(input.skip(k)[j + 1] == input[k + 1 + j]);
                assert(input.skip(k + 1)[j] == input[k + 1 + j]);
            }
            assert(records.deep_view() =~= input.skip(k + 1));
        }
        let mut p: usize = out.len();
        proof {
            lemma_pkg_dv(out);
        }
        while p > 0 && !le_exec(key, dir, &out[p - 1], &x)
            invariant
                0 <= p <= out@.len(),
                forall|j: int| p <= j < out@.len() ==> !key_le(key, dir, out.deep_view()[j], xv),
                xv == x@,
            decreases p,
        {
            proof {
                lemma_pkg_dv(out);
                assert(out.deep_view()[p - 1] == out@[p - 1]@);
            }
            p = p - 1;
        }
        let ghost prev = out.deep_view();
        proof {
            lemma_pkg_dv(out);
            if p > 0 {
                assert(prev[p - 1] == out@[p - 1]@);
            }
        }
        out.insert(p, x);
        proof {
            lemma_pkg_dv(out);
            let ghost inserted = prev.take(p as int) + seq![xv] + prev.skip(p as int);
            assert forall|j: int| 0 <= j < out@.len() implies out.deep_view()[j] == inserted[j] by {}
            assert(out.deep_view() =~= inserted);
            lemma_insert_at(key, dir, xv, prev, p as int);
            assert(input.take(k + 1).drop_last() =~= input.take(k));
            assert(input.take(k + 1).last() == input[k]);
            assert(out.deep_view() == spec_rank(key, dir, input.take(k + 1)));
        }
        proof {
            k = k + 1;
        }
    }
    proof {
        lemma_pkg_dv(*records);
    }
    core::mem::swap(records, &mut out);
}

/// The deep view of a vector of records, element by element.
proof fn lemma_pkg_dv(v: Vec<AurPkg>)
    ensures
        v.deep_view().len() == v@.len(),
        forall|i: int| 0 <= i < v@.len() ==> v.deep_view()[i] == v@[i]@,
{
    assert forall|i: int| 0 <= i < v@.len() implies v.deep_view()[i] == v@[i]@ by {}
}


// ---------------------------------------------------------------------------
// Laws of ranking by name
// ---------------------------------------------------------------------------

proof fn lemma_name_le_total(dir: SortOrder, a: AurPkgView, b: AurPkgView)
    ensures
        key_le(SortKey::Name, dir, a, b) || key_le(SortKey::Name, dir, b, a),
{
    lemma_lex_cmp_flip(a.name, b.name);
}

proof fn lemma_name_le_trans(dir: SortOrder, a: AurPkgView, b: AurPkgView, c: AurPkgView)
    requires
        key_le(SortKey::Name, dir, a, b),
        key_le(SortKey::Name, dir, b, c),
    ensures
        key_le(SortKey::Name, dir, a, c),
{
    match dir {
        SortOrder::Forward => lemma_lex_cmp_trans(a.name, b.name, c.name),
        SortOrder::Reverse => {
            lemma_lex_cmp_flip(a.name, b.name);
            lemma_lex_cmp_flip(b.name, c.name);
            lemma_lex_cmp_flip(a.name, c.name);
            lemma_lex_cmp_trans(c.name, b.name, a.name);
        },
    }
}

/// The last entry of an insertion is the inserted entry or the old last.
proof fn lemma_insert_last(key: SortKey, dir: SortOrder, x: AurPkgView, s: Seq<AurPkgView>)
    ensures
        insert_sorted(key, dir, x, s).len() == s.len() + 1,
        insert_sorted(key, dir, x, s).last() == x || (s.len() > 0 && insert_sorted(
            key,
            dir,
            x,
            s,
        ).last() == s.last()),
    decreases s.len(),
{
    if s.len() > 0 && !key_le(key, dir, s.last(), x) {
        lemma_insert_last(key, dir, x, s.drop_last());
    }
}

/// Inserting into a sorted sequence keeps it sorted, by name.
proof fn lemma_insert_keeps_sorted(dir: SortOrder, x: AurPkgView, s: Seq<AurPkgView>)
    requires
        sorted_by_key(SortKey::Name, dir, s),
    ensures
        sorted_by_key(SortKey::Name, dir, insert_sorted(SortKey::Name, dir, x, s)),
    decreases s.len(),
{
    let key = SortKey::Name;
    if s.len() == 0 {
    } else if key_le(key, dir, s.last(), x) {
        let t = s.push(x);
        assert forall|i: int| 0 <= i < t.len() - 1 implies key_le(key, dir, #[trigger] t[i], t[i + 1]) by {
            if i < s.len() - 1 {
                assert(t[i] == s[i] && t[i + 1] == s[i + 1]);
            } else {
                assert(t[i] == s.last() && t[i + 1] == x);
            }
        }
    } else {
        assert(forall|j: int| 0 <= j < s.len() - 1 ==> s.drop_last()[j] == s[j]);
        assert(sorted_by_key(key, dir, s.drop_last()));
        lemma_insert_keeps_sorted(dir, x, s.drop_last());
        let u = insert_sorted(key, dir, x, s.drop_last());
        lemma_insert_last(key, dir, x, s.drop_last());
        let t = u.push(s.last());
        lemma_name_le_total(dir, s.last(), x);
        assert(key_le(key, dir, x, s.last()));
        assert forall|i: int| 0 <= i < t.len() - 1 implies key_le(key, dir, #[trigger] t[i], t[i + 1]) by {
            if i < u.len() - 1 {
                assert(t[i] == u[i] && t[i + 1] == u[i + 1]);
            } else {
                assert(t[i] == u.last() && t[i + 1] == s.last());
                if u.last() == x {
                } else {
                    assert(s.len() >= 2);
                    assert(s.drop_last().last() == s[s.len() - 2]);
                    assert(key_le(key, dir, s[s.len() - 2], s.last()));
                }
            }
        }
    }
}

/// Ranking by name leaves the sequence sorted by name.
pub proof fn lemma_rank_by_name_sorted(dir: SortOrder, s: Seq<AurPkgView>)
    ensures
        sorted_by_key(SortKey::Name, dir, spec_rank(SortKey::Name, dir, s)),
    decreases s.len(),
{
    if s.len() > 0 {
        lemma_rank_by_name_sorted(dir, s.drop_last());
        lemma_insert_keeps_sorted(dir, s.last(), spec_rank(SortKey::Name, dir, s.drop_last()));
    }
}

/// Ranking a sequence that is already sorted by name returns it unchanged.
pub proof fn lemma_rank_of_sorted(dir: SortOrder, s: Seq<AurPkgView>)
    requires
        sorted_by_key(SortKey::Name, dir, s),
    ensures
        spec_rank(SortKey::Name, dir, s) == s,
    decreases s.len(),
{
    let key = SortKey::Name;
    if s.len() > 0 {
        assert(forall|j: int| 0 <= j < s.len() - 1 ==> s.drop_last()[j] == s[j]);
        assert(sorted_by_key(key, dir, s.drop_last()));
        lemma_rank_of_sorted(dir, s.drop_last());
        if s.len() >= 2 {
            assert(s.drop_last().last() == s[s.len() - 2]);
            assert(key_le(key, dir, s[s.len() - 2], s.last()));
        }
        assert(spec_rank(key, dir, s) == insert_sorted(key, dir, s.last(), s.drop_last()));
        assert(insert_sorted(key, dir, s.last(), s.drop_last()) =~= s);
    }
}

/// Ranking by name is idempotent: ranking an already-ranked sequence gives
/// the same sequence again.
pub proof fn lemma_rank_by_name_idempotent(dir: SortOrder, s: Seq<AurPkgView>)
    ensures
        spec_rank(SortKey::Name, dir, spec_rank(SortKey::Name, dir, s)) == spec_rank(
            SortKey::Name,
            dir,
            s,
        ),
{
    lemma_rank_by_name_sorted(dir, s);
    lemma_rank_of_sorted(dir, spec_rank(SortKey::Name, dir, s));
}

/// Forward insertions of two strictly ordered entries commute.
proof fn lemma_insert_comm(a: AurPkgView, x: AurPkgView, w: Seq<AurPkgView>)
    requires
        spec_compare_by(SortKey::Name, a, x) == core::cmp::Ordering::Less,
    ensures
        insert_sorted(
            SortKey::Name,
            SortOrder::Forward,
            x,
            insert_sorted(SortKey::Name, SortOrder::Forward, a, w),
        ) == insert_sorted(
            SortKey::Name,
            SortOrder::Forward,
            a,
            insert_sorted(SortKey::Name, SortOrder::Forward, x, w),
        ),
    decreases w.len(),
{
    let key = SortKey::Name;
    let fwd = SortOrder::Forward;
    lemma_lex_cmp_flip(a.name, x.name);
    assert(key_le(key, fwd, a, x));
    assert(!key_le(key, fwd, x, a));
    if w.len() == 0 {
        assert(seq![a].last() == a);
        assert(insert_sorted(key, fwd, x, seq![a]) == seq![a].push(x));
        assert(seq![x].last() == x);
        assert(seq![x].drop_last() =~= Seq::<AurPkgView>::empty());
        assert(insert_sorted(key, fwd, a, seq![x]) == insert_sorted(
            key,
            fwd,
            a,
            Seq::empty(),
        ).push(x));
        assert(insert_sorted(key, fwd, a, Seq::empty()).push(x) =~= seq![a].push(x));
    } else {
        let b = w.last();
        if key_le(key, fwd, b, a) {
            lemma_name_le_trans(fwd, b, a, x);
            assert(insert_sorted(key, fwd, a, w) == w.push(a));
            assert(w.push(a).last() == a);
            assert(insert_sorted(key, fwd, x, w.push(a)) == w.push(a).push(x));
            assert(insert_sorted(key, fwd, x, w) == w.push(x));
            assert(w.push(x).last() == x);
            assert(insert_sorted(key, fwd, a, w.push(x)) == insert_sorted(
                key,
                fwd,
                a,
                w.push(x).drop_last(),
            ).push(x));
            assert(w.push(x).drop_last() =~= w);
        } else if key_le(key, fwd, b, x) {
            assert(insert_sorted(key, fwd, a, w) == insert_sorted(key, fwd, a, w.drop_last()).push(
                b,
            ));
            let u = insert_sorted(key, fwd, a, w.drop_last()).push(b);
            assert(u.last() == b);
            assert(insert_sorted(key, fwd, x, u) == u.push(x));
            assert(insert_sorted(key, fwd, x, w) == w.push(x));
            assert(w.push(x).last() == x);
            assert(insert_sorted(key, fwd, a, w.push(x)) == insert_sorted(
                key,
                fwd,
                a,
                w.push(x).drop_last(),
            ).push(x));
            assert(w.push(x).drop_last() =~= w);
        } else {
            lemma_insert_comm(a, x, w.drop_last());
            assert(insert_sorted(key, fwd, a, w) == insert_sorted(key, fwd, a, w.drop_last()).push(
                b,
            ));
            let ua = insert_sorted(key, fwd, a, w.drop_last()).push(b);
            assert(ua.last() == b);
            assert(ua.drop_last() =~= insert_sorted(key, fwd, a, w.drop_last()));
            assert(insert_sorted(key, fwd, x, ua) == insert_sorted(
                key,
                fwd,
                x,
                insert_sorted(key, fwd, a, w.drop_last()),
            ).push(b));
            assert(insert_sorted(key, fwd, x, w) == insert_sorted(key, fwd, x, w.drop_last()).push(
                b,
            ));
            let ux = insert_sorted(key, fwd, x, w.drop_last()).push(b);
            assert(ux.last() == b);
            assert(ux.drop_last() =~= insert_sorted(key, fwd, x, w.drop_last()));
            assert(insert_sorted(key, fwd, a, ux) == insert_sorted(
                key,
                fwd,
                a,
                insert_sorted(key, fwd, x, w.drop_last()),
            ).push(b));
        }
    }
}

/// Forward-ranking absorbs one reverse insertion: inserting under the
/// reversed comparator and then ranking forward is ranking the appended
/// sequence forward.
proof fn lemma_fwd_of_insert_rev(x: AurPkgView, t: Seq<AurPkgView>)
    ensures
        spec_rank(
            SortKey::Name,
            SortOrder::Forward,
            insert_sorted(SortKey::Name, SortOrder::Reverse, x, t),
        ) == insert_sorted(
            SortKey::Name,
            SortOrder::Forward,
            x,
            spec_rank(SortKey::Name, SortOrder::Forward, t),
        ),
    decreases t.len(),
{
    let key = SortKey::Name;
    let fwd = SortOrder::Forward;
    let rev = SortOrder::Reverse;
    if t.len() == 0 {
        assert(insert_sorted(key, rev, x, t) =~= seq![x]);
        assert(seq![x].drop_last() =~= Seq::<AurPkgView>::empty());
        assert(seq![x].last() == x);
        assert(spec_rank(key, fwd, seq![x]) == insert_sorted(
            key,
            fwd,
            x,
            spec_rank(key, fwd, Seq::empty()),
        ));
        assert(spec_rank(key, fwd, t) == Seq::<AurPkgView>::empty());
    } else if key_le(key, rev, t.last(), x) {
        assert(insert_sorted(key, rev, x, t) == t.push(x));
        assert(t.push(x).drop_last() =~= t);
        assert(t.push(x).last() == x);
    } else {
        // The reversed order rejects `t.last()` before `x`, so the
        // comparator puts `t.last()` strictly before `x`.
        assert(spec_compare_by(key, t.last(), x) == core::cmp::Ordering::Less);
        lemma_fwd_of_insert_rev(x, t.drop_last());
        let u = insert_sorted(key, rev, x, t.drop_last()).push(t.last());
        assert(insert_sorted(key, rev, x, t) == u);
        assert(u.drop_last() =~= insert_sorted(key, rev, x, t.drop_last()));
        assert(u.last() == t.last());
        assert(spec_rank(key, fwd, u) == insert_sorted(
            key,
            fwd,
            t.last(),
            spec_rank(key, fwd, insert_sorted(key, rev, x, t.drop_last())),
        ));
        assert(spec_rank(key, fwd, u) == insert_sorted(
            key,
            fwd,
            t.last(),
            insert_sorted(key, fwd, x, spec_rank(key, fwd, t.drop_last())),
        ));
        lemma_insert_comm(t.last(), x, spec_rank(key, fwd, t.drop_last()));
    }
}

/// Ranking by name in reverse and then forward gives exactly the forward
/// ranking of the input sequence.
pub proof fn lemma_rank_by_name_reverse_then_forward(s: Seq<AurPkgView>)
    ensures
        spec_rank(
            SortKey::Name,
            SortOrder::Forward,
            spec_rank(SortKey::Name, SortOrder::Reverse, s),
        ) == spec_rank(SortKey::Name, SortOrder::Forward, s),
    decreases s.len(),
{
    let key = SortKey::Name;
    let fwd = SortOrder::Forward;
    let rev = SortOrder::Reverse;
    if s.len() > 0 {
        lemma_rank_by_name_reverse_then_forward(s.drop_last());
        lemma_fwd_of_insert_rev(s.last(), spec_rank(key, rev, s.drop_last()));
    }
}

} // verus!
