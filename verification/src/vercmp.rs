//! The package-manager version comparator: epoch, version and release,
//! each compared segment-wise, digits numerically and letters lexically.

use vstd::prelude::*;
use crate::strutil::{
    is_digit_char, digit_val, dec_val, all_digits, lex_cmp, lemma_lex_cmp_eq, lemma_lex_cmp_flip,
    lemma_lex_cmp_trans,
};

verus! {

/// An ASCII letter.
pub open spec fn is_alpha_char(c: char) -> bool {
    (65 <= c as u32 <= 90) || (97 <= c as u32 <= 122)
}

/// A character that belongs to a segment; anything else separates segments.
pub open spec fn is_alnum_char(c: char) -> bool {
    is_digit_char(c) || is_alpha_char(c)
}

/// One segment of a version string: a run of digits read as a number, or a
/// run of letters.
pub enum Seg {
    Num(nat),
    Alpha(Seq<char>),
}

/// Length of the run of digits at the front of `s`.
pub open spec fn digit_run(s: Seq<char>) -> nat
    decreases s.len(),
{
    if s.len() > 0 && is_digit_char(s[0]) {
        1 + digit_run(s.drop_first())
    } else {
        0
    }
}

/// Length of the run of letters at the front of `s`.
pub open spec fn alpha_run(s: Seq<char>) -> nat
    decreases s.len(),
{
    if s.len() > 0 && is_alpha_char(s[0]) {
        1 + alpha_run(s.drop_first())
    } else {
        0
    }
}

/// The segments of a version part, in order, separators skipped.  A
/// separator run only delimits segments; its length carries no weight, so
/// `1..0` and `1.0` split alike.  (The reference implementation this
/// convention descends from additionally orders by separator-run length
/// when the runs differ; that tie-break is deliberately not reproduced, as
/// the comparison is specified here purely over the segment runs.)
pub open spec fn seg_split(s: Seq<char>) -> Seq<Seg>
    decreases s.len(),
    via seg_split_decreases
{
    if s.len() == 0 {
        Seq::empty()
    } else if !is_alnum_char(s[0]) {
        seg_split(s.drop_first())
    } else if is_digit_char(s[0]) {
        seq![Seg::Num(dec_val(s.take(digit_run(s) as int)))] + seg_split(s.skip(digit_run(s) as int))
    } else {
        seq![Seg::Alpha(s.take(alpha_run(s) as int))] + seg_split(s.skip(alpha_run(s) as int))
    }
}

#[via_fn]
proof fn seg_split_decreases(s: Seq<char>) {
    lemma_digit_run(s);
    lemma_alpha_run(s);
}

pub proof fn lemma_digit_run(s: Seq<char>)
    ensures
        digit_run(s) <= s.len(),
        forall|j: int| 0 <= j < digit_run(s) ==> is_digit_char(s[j]),
        digit_run(s) < s.len() ==> !is_digit_char(s[digit_run(s) as int]),
        s.len() > 0 && is_digit_char(s[0]) ==> digit_run(s) >= 1,
    decreases s.len(),
{
    if s.len() > 0 && is_digit_char(s[0]) {
        lemma_digit_run(s.drop_first());
        assert(forall|j: int| 0 < j < s.len() ==> #[trigger] s[j] == s.drop_first()[j - 1]);
    }
}

pub proof fn lemma_alpha_run(s: Seq<char>)
    ensures
        alpha_run(s) <= s.len(),
        forall|j: int| 0 <= j < alpha_run(s) ==> is_alpha_char(s[j]),
        alpha_run(s) < s.len() ==> !is_alpha_char(s[alpha_run(s) as int]),
        s.len() > 0 && is_alpha_char(s[0]) ==> alpha_run(s) >= 1,
    decreases s.len(),
{
    if s.len() > 0 && is_alpha_char(s[0]) {
        lemma_alpha_run(s.drop_first());
        assert(forall|j: int| 0 < j < s.len() ==> #[trigger] s[j] == s.drop_first()[j - 1]);
    }
}

/// Order on one segment position.  A missing segment sits between the
/// letters and the numbers: running out against digits means older, running
/// out against letters means newer; among present segments, digits beat
/// letters.
pub open spec fn seg_cmp(x: Option<Seg>, y: Option<Seg>) -> core::cmp::Ordering {
    match (x, y) {
        (None, None) => core::cmp::Ordering::Equal,
        (None, Some(Seg::Num(_))) => core::cmp::Ordering::Less,
        (None, Some(Seg::Alpha(_))) => core::cmp::Ordering::Greater,
        (Some(Seg::Num(_)), None) => core::cmp::Ordering::Greater,
        (Some(Seg::Alpha(_)), None) => core::cmp::Ordering::Less,
        (Some(Seg::Num(a)), Some(Seg::Num(b))) => if a < b {
            core::cmp::Ordering::Less
        } else if a > b {
            core::cmp::Ordering::Greater
        } else {
            core::cmp::Ordering::Equal
        },
        (Some(Seg::Alpha(a)), Some(Seg::Alpha(b))) => lex_cmp(a, b),
        (Some(Seg::Num(_)), Some(Seg::Alpha(_))) => core::cmp::Ordering::Greater,
        (Some(Seg::Alpha(_)), Some(Seg::Num(_))) => core::cmp::Ordering::Less,
    }
}

/// The first segment, if any.
pub open spec fn seg_head(x: Seq<Seg>) -> Option<Seg> {
    if x.len() > 0 {
        Some(x[0])
    } else {
        None
    }
}

/// Compare two segment sequences position by position.
pub open spec fn segs_cmp(x: Seq<Seg>, y: Seq<Seg>) -> core::cmp::Ordering
    decreases x.len(),
{
    if x.len() == 0 && y.len() == 0 {
        core::cmp::Ordering::Equal
    } else if x.len() == 0 || y.len() == 0 {
        seg_cmp(seg_head(x), seg_head(y))
    } else {
        match seg_cmp(seg_head(x), seg_head(y)) {
            core::cmp::Ordering::Equal => segs_cmp(x.drop_first(), y.drop_first()),
            o => o,
        }
    }
}

/// Compare one version part (the version or the release) by its segments.
pub open spec fn part_cmp(a: Seq<char>, b: Seq<char>) -> core::cmp::Ordering {
    segs_cmp(seg_split(a), seg_split(b))
}

/// The epoch of a version string: the leading digits when a `:` follows
/// them, else zero; and the remainder.
pub open spec fn epoch_of(s: Seq<char>) -> (nat, Seq<char>) {
    let dp = digit_run(s);
    if dp < s.len() && s[dp as int] == ':' {
        (dec_val(s.take(dp as int)), s.skip(dp as int + 1))
    } else {
        (0nat, s)
    }
}

/// Index of the last `-` in `s`, if any.
pub open spec fn last_dash(s: Seq<char>) -> Option<nat>
    decreases s.len(),
{
    if s.len() == 0 {
        None
    } else if s.last() == '-' {
        Some((s.len() - 1) as nat)
    } else {
        last_dash(s.drop_last())
    }
}

/// The version and release of an epoch-free version string: the release is
/// what follows the last `-`, absent when there is none.
pub open spec fn ver_rel_of(s: Seq<char>) -> (Seq<char>, Option<Seq<char>>) {
    match last_dash(s) {
        Some(i) => (s.take(i as int), Some(s.skip(i as int + 1))),
        None => (s, None),
    }
}

/// Compare two version strings by epoch, then version, then release; the
/// release counts only when both strings carry one.
pub open spec fn vercmp(a: Seq<char>, b: Seq<char>) -> core::cmp::Ordering {
    let (ea, ra) = epoch_of(a);
    let (eb, rb) = epoch_of(b);
    let (va, rela) = ver_rel_of(ra);
    let (vb, relb) = ver_rel_of(rb);
    if ea < eb {
        core::cmp::Ordering::Less
    } else if ea > eb {
        core::cmp::Ordering::Greater
    } else {
        match part_cmp(va, vb) {
            core::cmp::Ordering::Equal => match (rela, relb) {
                (Some(x), Some(y)) => part_cmp(x, y),
                _ => core::cmp::Ordering::Equal,
            },
            o => o,
        }
    }
}

// ---------------------------------------------------------------------------
// The comparator is an order
// ---------------------------------------------------------------------------

/// Flipping the operands of a segment comparison flips the outcome.
proof fn lemma_seg_cmp_flip(x: Option<Seg>, y: Option<Seg>)
    ensures
        seg_cmp(y, x) == (match seg_cmp(x, y) {
            core::cmp::Ordering::Less => core::cmp::Ordering::Greater,
            core::cmp::Ordering::Equal => core::cmp::Ordering::Equal,
            core::cmp::Ordering::Greater => core::cmp::Ordering::Less,
        }),
{
    match (x, y) {
        (Some(Seg::Alpha(a)), Some(Seg::Alpha(b))) => lemma_lex_cmp_flip(a, b),
        _ => (),
    }
}

/// Equal segments under `seg_cmp` are the same segment.
proof fn lemma_seg_cmp_eq(x: Option<Seg>, y: Option<Seg>)
    ensures
        seg_cmp(x, y) == core::cmp::Ordering::Equal <==> x == y,
{
    match (x, y) {
        (Some(Seg::Alpha(a)), Some(Seg::Alpha(b))) => lemma_lex_cmp_eq(a, b),
        _ => (),
    }
}

/// Transitivity at one segment position, with strictness carried through.
proof fn lemma_seg_cmp_trans(x: Option<Seg>, y: Option<Seg>, z: Option<Seg>)
    requires
        seg_cmp(x, y) != core::cmp::Ordering::Greater,
        seg_cmp(y, z) != core::cmp::Ordering::Greater,
    ensures
        seg_cmp(x, z) != core::cmp::Ordering::Greater,
        seg_cmp(x, y) == core::cmp::Ordering::Less || seg_cmp(y, z) == core::cmp::Ordering::Less
            ==> seg_cmp(x, z) == core::cmp::Ordering::Less,
{
    lemma_seg_cmp_eq(x, y);
    lemma_seg_cmp_eq(y, z);
    lemma_seg_cmp_eq(x, z);
    match (x, y, z) {
        (Some(Seg::Alpha(a)), Some(Seg::Alpha(b)), Some(Seg::Alpha(c))) => {
            lemma_lex_cmp_trans(a, b, c);
            lemma_lex_cmp_eq(a, b);
            lemma_lex_cmp_eq(b, c);
            lemma_lex_cmp_eq(a, c);
            if lex_cmp(a, b) == core::cmp::Ordering::Less || lex_cmp(b, c)
                == core::cmp::Ordering::Less {
                if lex_cmp(a, c) == core::cmp::Ordering::Equal {
                    lemma_lex_cmp_flip(a, b);
                    lemma_lex_cmp_trans(c, a, b);
                }
            }
        },
        _ => (),
    }
}

/// Flipping the operands of a segment-sequence comparison flips the
/// outcome.
pub proof fn lemma_segs_cmp_flip(x: Seq<Seg>, y: Seq<Seg>)
    ensures
        segs_cmp(y, x) == (match segs_cmp(x, y) {
            core::cmp::Ordering::Less => core::cmp::Ordering::Greater,
            core::cmp::Ordering::Equal => core::cmp::Ordering::Equal,
            core::cmp::Ordering::Greater => core::cmp::Ordering::Less,
        }),
    decreases x.len(), y.len(),
{
    lemma_seg_cmp_flip(seg_head(x), seg_head(y));
    if x.len() > 0 && y.len() > 0 {
        lemma_segs_cmp_flip(x.drop_first(), y.drop_first());
    }
}

/// Transitivity of the segment-sequence comparison, with strictness carried
/// through.
pub proof fn lemma_segs_cmp_trans(x: Seq<Seg>, y: Seq<Seg>, z: Seq<Seg>)
    requires
        segs_cmp(x, y) != core::cmp::Ordering::Greater,
        segs_cmp(y, z) != core::cmp::Ordering::Greater,
    ensures
        segs_cmp(x, z) != core::cmp::Ordering::Greater,
        segs_cmp(x, y) == core::cmp::Ordering::Less || segs_cmp(y, z) == core::cmp::Ordering::Less
            ==> segs_cmp(x, z) == core::cmp::Ordering::Less,
    decreases x.len(), y.len(), z.len(),
{
    let hx = seg_head(x);
    let hy = seg_head(y);
    let hz = seg_head(z);
    lemma_seg_cmp_trans(hx, hy, hz);
    lemma_seg_cmp_eq(hx, hy);
    lemma_seg_cmp_eq(hy, hz);
    lemma_seg_cmp_eq(hx, hz);
    if seg_cmp(hx, hy) == core::cmp::Ordering::Equal && seg_cmp(hy, hz)
        == core::cmp::Ordering::Equal {
        if x.len() > 0 && y.len() > 0 && z.len() > 0 {
            lemma_segs_cmp_trans(x.drop_first(), y.drop_first(), z.drop_first());
        }
    }
}

/// The comparison of a segment sequence with itself is `Equal`.
pub proof fn lemma_segs_cmp_refl(x: Seq<Seg>)
    ensures
        segs_cmp(x, x) == core::cmp::Ordering::Equal,
    decreases x.len(),
{
    lemma_seg_cmp_eq(seg_head(x), seg_head(x));
    if x.len() > 0 {
        lemma_segs_cmp_refl(x.drop_first());
    }
}

/// Comparing a version string with itself gives `Equal`.
pub proof fn lemma_vercmp_refl(a: Seq<char>)
    ensures
        vercmp(a, a) == core::cmp::Ordering::Equal,
{
    let (ea, ra) = epoch_of(a);
    let (va, rela) = ver_rel_of(ra);
    lemma_segs_cmp_refl(seg_split(va));
    match rela {
        Some(x) => lemma_segs_cmp_refl(seg_split(x)),
        None => (),
    }
}

/// Antisymmetry: flipping the operands of the version comparator flips the
/// outcome.
pub proof fn lemma_vercmp_antisym(a: Seq<char>, b: Seq<char>)
    ensures
        vercmp(b, a) == (match vercmp(a, b) {
            core::cmp::Ordering::Less => core::cmp::Ordering::Greater,
            core::cmp::Ordering::Equal => core::cmp::Ordering::Equal,
            core::cmp::Ordering::Greater => core::cmp::Ordering::Less,
        }),
{
    let (ea, ra) = epoch_of(a);
    let (eb, rb) = epoch_of(b);
    let (va, rela) = ver_rel_of(ra);
    let (vb, relb) = ver_rel_of(rb);
    lemma_segs_cmp_flip(seg_split(va), seg_split(vb));
    match (rela, relb) {
        (Some(x), Some(y)) => lemma_segs_cmp_flip(seg_split(x), seg_split(y)),
        _ => (),
    }
}

/// Whether a version string carries a release part.
pub open spec fn has_release(a: Seq<char>) -> bool {
    last_dash(epoch_of(a).1) is Some
}

/// Transitivity of the version comparator, for strings that agree on
/// whether they carry a release part.  (With a release on only some of the
/// operands the middle one can hide a strict release difference behind the
/// one-sided `Equal` rule, so the restriction is necessary.)
pub proof fn lemma_vercmp_trans(a: Seq<char>, b: Seq<char>, c: Seq<char>)
    requires
        vercmp(a, b) != core::cmp::Ordering::Greater,
        vercmp(b, c) != core::cmp::Ordering::Greater,
        has_release(a) == has_release(b),
        has_release(b) == has_release(c),
    ensures
        vercmp(a, c) != core::cmp::Ordering::Greater,
{
    let (ea, ra) = epoch_of(a);
    let (eb, rb) = epoch_of(b);
    let (ec, rc) = epoch_of(c);
    let (va, rela) = ver_rel_of(ra);
    let (vb, relb) = ver_rel_of(rb);
    let (vc, relc) = ver_rel_of(rc);
    if ea == eb && eb == ec {
        lemma_segs_cmp_trans(seg_split(va), seg_split(vb), seg_split(vc));
        if part_cmp(va, vb) == core::cmp::Ordering::Equal && part_cmp(vb, vc)
            == core::cmp::Ordering::Equal {
            match (rela, relb, relc) {
                (Some(x), Some(y), Some(z)) => lemma_segs_cmp_trans(
                    seg_split(x),
                    seg_split(y),
                    seg_split(z),
                ),
                _ => (),
            }
        }
    }
}

// ---------------------------------------------------------------------------
// Decimal values of digit runs
// ---------------------------------------------------------------------------

/// Ten to the `n`.
pub open spec fn pow10(n: nat) -> nat
    decreases n,
{
    if n == 0 {
        1
    } else {
        10 * pow10((n - 1) as nat)
    }
}

proof fn lemma_pow10_pos(n: nat)
    ensures
        pow10(n) >= 1,
    decreases n,
{
    if n > 0 {
        lemma_pow10_pos((n - 1) as nat);
    }
}

proof fn lemma_pow10_mono(a: nat, b: nat)
    requires
        a <= b,
    ensures
        pow10(a) <= pow10(b),
    decreases b,
{
    if a < b && b > 0 {
        lemma_pow10_mono(a, (b - 1) as nat);
        lemma_pow10_pos((b - 1) as nat);
    }
}

proof fn lemma_dec_val_upper(s: Seq<char>)
    requires
        all_digits(s),
    ensures
        dec_val(s) < pow10(s.len()),
    decreases s.len(),
{
    if s.len() > 0 {
        assert(forall|j: int| 0 <= j < s.len() - 1 ==> s.drop_last()[j] == s[j]);
        lemma_dec_val_upper(s.drop_last());
        assert(digit_val(s.last()) <= 9);
    }
}

proof fn lemma_dec_val_lower(s: Seq<char>)
    requires
        all_digits(s),
        s.len() > 0,
        s[0] != '0',
    ensures
        dec_val(s) >= pow10((s.len() - 1) as nat),
    decreases s.len(),
{
    if digit_val(s[0]) == 0 {
        crate::strutil::lemma_char_scalar_inj(s[0], '0');
    }
    if s.len() == 1 {
        assert(dec_val(s) == dec_val(s.drop_last()) * 10 + digit_val(s.last()));
        assert(dec_val(s.drop_last()) == 0) by {
            assert(s.drop_last().len() == 0);
        }
    } else {
        assert(forall|j: int| 0 <= j < s.len() - 1 ==> s.drop_last()[j] == s[j]);
        lemma_dec_val_lower(s.drop_last());
        assert(dec_val(s) == dec_val(s.drop_last()) * 10 + digit_val(s.last()));
        assert(dec_val(s.drop_last()) * 10 >= pow10((s.len() - 2) as nat) * 10) by (
        nonlinear_arith)
            requires
                dec_val(s.drop_last()) >= pow10((s.len() - 2) as nat),
        {}
    }
}

proof fn lemma_dec_val_front(s: Seq<char>)
    requires
        s.len() > 0,
    ensures
        dec_val(s) == digit_val(s[0]) * pow10((s.len() - 1) as nat) + dec_val(s.drop_first()),
    decreases s.len(),
{
    if s.len() == 1 {
        assert(s.drop_first().len() == 0);
        assert(dec_val(s) == dec_val(s.drop_last()) * 10 + digit_val(s.last()));
        assert(s.drop_last().len() == 0);
        assert(s.last() == s[0]);
        assert(pow10(0) == 1);
        assert(digit_val(s[0]) * 1 == digit_val(s[0]));
    } else {
        let dl = s.drop_last();
        assert(dl.len() > 0);
        assert(dl[0] == s[0]);
        lemma_dec_val_front(dl);
        assert(s.drop_first().drop_last() =~= dl.drop_first());
        assert(s.drop_first().last() == s.last());
        assert(dec_val(s.drop_first()) == dec_val(dl.drop_first()) * 10 + digit_val(s.last()));
        assert(dec_val(s) == dec_val(dl) * 10 + digit_val(s.last()));
        assert(dec_val(dl) * 10 == digit_val(s[0]) * pow10((s.len() - 1) as nat) + dec_val(
            dl.drop_first(),
        ) * 10) by (nonlinear_arith)
            requires
                dec_val(dl) == digit_val(s[0]) * pow10((s.len() - 2) as nat) + dec_val(
                    dl.drop_first(),
                ),
                pow10((s.len() - 1) as nat) == 10 * pow10((s.len() - 2) as nat),
                s.len() >= 2,
        {}
    }
}

proof fn lemma_dec_val_strip_zeros(s: Seq<char>, k: int)
    requires
        0 <= k <= s.len(),
        forall|j: int| 0 <= j < k ==> s[j] == '0',
    ensures
        dec_val(s) == dec_val(s.skip(k)),
    decreases k,
{
    if k > 0 {
        assert(s.len() > 0);
        assert(s[0] == '0');
        lemma_dec_val_front(s);
        assert(digit_val('0') == 0);
        assert(digit_val(s[0]) == 0);
        assert(digit_val(s[0]) * pow10((s.len() - 1) as nat) == 0) by (nonlinear_arith)
            requires
                digit_val(s[0]) == 0,
        {}
        assert(dec_val(s) == dec_val(s.drop_first()));
        assert(forall|j: int| 0 <= j < s.drop_first().len() ==> s.drop_first()[j] == s[j + 1]);
        lemma_dec_val_strip_zeros(s.drop_first(), k - 1);
        assert(s.drop_first().skip(k - 1) =~= s.skip(k));
    } else {
        assert(s.skip(0) =~= s);
    }
}

/// For digit runs of equal length, the lexicographic comparison is the
/// numeric one.
proof fn lemma_eq_len_cmp(a: Seq<char>, b: Seq<char>)
    requires
        all_digits(a),
        all_digits(b),
        a.len() == b.len(),
    ensures
        (lex_cmp(a, b) == core::cmp::Ordering::Less <==> dec_val(a) < dec_val(b)),
        (lex_cmp(a, b) == core::cmp::Ordering::Equal <==> dec_val(a) == dec_val(b)),
    decreases a.len(),
{
    if a.len() > 0 {
        let n1 = (a.len() - 1) as nat;
        lemma_dec_val_front(a);
        lemma_dec_val_front(b);
        assert(forall|j: int| 0 <= j < a.len() - 1 ==> a.drop_first()[j] == a[j + 1]);
        assert(forall|j: int| 0 <= j < b.len() - 1 ==> b.drop_first()[j] == b[j + 1]);
        lemma_dec_val_upper(a.drop_first());
        lemma_dec_val_upper(b.drop_first());
        if a[0] == b[0] {
            lemma_eq_len_cmp(a.drop_first(), b.drop_first());
        } else {
            if (a[0] as u32) == (b[0] as u32) {
                crate::strutil::lemma_char_scalar_inj(a[0], b[0]);
            }
            if (a[0] as u32) < (b[0] as u32) {
                assert(digit_val(a[0]) < digit_val(b[0]));
                assert(dec_val(a) < dec_val(b)) by (nonlinear_arith)
                    requires
                        dec_val(a) == digit_val(a[0]) * pow10(n1) + dec_val(a.drop_first()),
                        dec_val(b) == digit_val(b[0]) * pow10(n1) + dec_val(b.drop_first()),
                        dec_val(a.drop_first()) < pow10(n1),
                        digit_val(a[0]) < digit_val(b[0]),
                {}
            } else {
                assert(digit_val(b[0]) < digit_val(a[0]));
                assert(dec_val(b) < dec_val(a)) by (nonlinear_arith)
                    requires
                        dec_val(a) == digit_val(a[0]) * pow10(n1) + dec_val(a.drop_first()),
                        dec_val(b) == digit_val(b[0]) * pow10(n1) + dec_val(b.drop_first()),
                        dec_val(b.drop_first()) < pow10(n1),
                        digit_val(b[0]) < digit_val(a[0]),
                {}
            }
        }
    }
}

/// A shorter digit run without leading zeros names the smaller number.
proof fn lemma_len_cmp(a: Seq<char>, b: Seq<char>)
    requires
        all_digits(a),
        all_digits(b),
        a.len() < b.len(),
        b.len() > 0,
        b[0] != '0',
    ensures
        dec_val(a) < dec_val(b),
{
    lemma_dec_val_upper(a);
    lemma_dec_val_lower(b);
    lemma_pow10_mono(a.len(), (b.len() - 1) as nat);
}

/// Compare two all-digit strings by value: strip leading zeros, then the
/// longer run wins, then compare lexically.
fn cmp_digit_strs(a: &str, b: &str) -> (r: core::cmp::Ordering)
    requires
        all_digits(a@),
        all_digits(b@),
    ensures
        r == core::cmp::Ordering::Less <==> dec_val(a@) < dec_val(b@),
        r == core::cmp::Ordering::Equal <==> dec_val(a@) == dec_val(b@),
        r == core::cmp::Ordering::Greater <==> dec_val(a@) > dec_val(b@),
{
    let na = a.unicode_len();
    let nb = b.unicode_len();
    let mut za: usize = 0;
    while za < na && a.get_char(za) == '0'
        invariant
            na == a@.len(),
            0 <= za <= na,
            forall|j: int| 0 <= j < za ==> a@[j] == '0',
        decreases na - za,
    {
        za = za + 1;
    }
    let mut zb: usize = 0;
    while zb < nb && b.get_char(zb) == '0'
        invariant
            nb == b@.len(),
            0 <= zb <= nb,
            forall|j: int| 0 <= j < zb ==> b@[j] == '0',
        decreases nb - zb,
    {
        zb = zb + 1;
    }
    let sa = a.substring_char(za, na);
    let sb = b.substring_char(zb, nb);
    proof {
        lemma_dec_val_strip_zeros(a@, za as int);
        lemma_dec_val_strip_zeros(b@, zb as int);
        assert(sa@ =~= a@.skip(za as int));
        assert(sb@ =~= b@.skip(zb as int));
        assert(forall|j: int| 0 <= j < sa@.len() ==> sa@[j] == a@[za + j]);
        assert(forall|j: int| 0 <= j < sb@.len() ==> sb@[j] == b@[zb + j]);
        assert(all_digits(sa@));
        assert(all_digits(sb@));
    }
    let la = na - za;
    let lb = nb - zb;
    if la < lb {
        proof {
            lemma_len_cmp(sa@, sb@);
        }
        core::cmp::Ordering::Less
    } else if la > lb {
        proof {
            lemma_len_cmp(sb@, sa@);
        }
        core::cmp::Ordering::Greater
    } else {
        proof {
            lemma_eq_len_cmp(sa@, sb@);
            crate::strutil::lemma_lex_cmp_flip(sa@, sb@);
            lemma_eq_len_cmp(sb@, sa@);
        }
        crate::strutil::str_cmp(sa, sb)
    }
}

// ---------------------------------------------------------------------------
// Executable segmentation
// ---------------------------------------------------------------------------

fn char_is_alpha(c: char) -> (b: bool)
    ensures
        b == is_alpha_char(c),
{
    let u = c as u32;
    (65 <= u && u <= 90) || (97 <= u && u <= 122)
}

fn char_is_alnum(c: char) -> (b: bool)
    ensures
        b == is_alnum_char(c),
{
    crate::strutil::char_is_digit(c) || char_is_alpha(c)
}

/// Separators before a segment do not change the segmentation.
proof fn lemma_skip_separators(s: Seq<char>, i: int, j: int)
    requires
        0 <= i <= j <= s.len(),
        forall|k: int| i <= k < j ==> !is_alnum_char(s[k]),
    ensures
        seg_split(s.skip(i)) == seg_split(s.skip(j)),
    decreases j - i,
{
    if i < j {
        let t = s.skip(i);
        assert(t[0] == s[i]);
        assert(t.drop_first() =~= s.skip(i + 1));
        lemma_skip_separators(s, i + 1, j);
    }
}

/// A digit run is one numeric segment.
proof fn lemma_num_segment(s: Seq<char>, i: int, j: int)
    requires
        0 <= i < j <= s.len(),
        forall|k: int| i <= k < j ==> is_digit_char(s[k]),
        j < s.len() ==> !is_digit_char(s[j]),
    ensures
        seg_split(s.skip(i)) == seq![Seg::Num(dec_val(s.subrange(i, j)))] + seg_split(s.skip(j)),
{
    let t = s.skip(i);
    assert(forall|k: int| 0 <= k < t.len() ==> t[k] == s[i + k]);
    lemma_digit_run(t);
    let d = digit_run(t) as int;
    if d < j - i {
        assert(is_digit_char(t[d]));
        assert(!is_digit_char(t[d]));
    }
    if d > j - i {
        assert(j - i < t.len());
        assert(is_digit_char(t[j - i]));
        assert(t[j - i] == s[j]);
    }
    assert(digit_run(t) == j - i);
    assert(t.take(j - i) =~= s.subrange(i, j));
    assert(t.skip(j - i) =~= s.skip(j));
}

/// A letter run is one alphabetic segment.
proof fn lemma_alpha_segment(s: Seq<char>, i: int, j: int)
    requires
        0 <= i < j <= s.len(),
        forall|k: int| i <= k < j ==> is_alpha_char(s[k]),
        j < s.len() ==> !is_alpha_char(s[j]),
    ensures
        seg_split(s.skip(i)) == seq![Seg::Alpha(s.subrange(i, j))] + seg_split(s.skip(j)),
{
    let t = s.skip(i);
    assert(forall|k: int| 0 <= k < t.len() ==> t[k] == s[i + k]);
    lemma_alpha_run(t);
    let d = alpha_run(t) as int;
    if d < j - i {
        assert(is_alpha_char(t[d]));
        assert(!is_alpha_char(t[d]));
    }
    if d > j - i {
        assert(j - i < t.len());
        assert(is_alpha_char(t[j - i]));
        assert(t[j - i] == s[j]);
    }
    assert(alpha_run(t) == j - i);
    assert(t.take(j - i) =~= s.subrange(i, j));
    assert(t.skip(j - i) =~= s.skip(j));
}

/// First index at or after `from` holding a segment character.
fn skip_separators(s: &str, from: usize) -> (r: usize)
    requires
        from <= s@.len(),
    ensures
        from <= r <= s@.len(),
        forall|k: int| from <= k < r ==> !is_alnum_char(s@[k]),
        r < s@.len() ==> is_alnum_char(s@[r as int]),
{
    let n = s.unicode_len();
    let mut i: usize = from;
    while i < n && !char_is_alnum(s.get_char(i))
        invariant
            n == s@.len(),
            from <= i <= n,
            forall|k: int| from <= k < i ==> !is_alnum_char(s@[k]),
        decreases n - i,
    {
        i = i + 1;
    }
    i
}

/// End of the digit run starting at `from`.
fn digit_end(s: &str, from: usize) -> (r: usize)
    requires
        from < s@.len(),
        is_digit_char(s@[from as int]),
    ensures
        from < r <= s@.len(),
        forall|k: int| from <= k < r ==> is_digit_char(s@[k]),
        r < s@.len() ==> !is_digit_char(s@[r as int]),
{
    let n = s.unicode_len();
    let mut i: usize = from;
    while i < n && crate::strutil::char_is_digit(s.get_char(i))
        invariant
            n == s@.len(),
            from <= i <= n,
            forall|k: int| from <= k < i ==> is_digit_char(s@[k]),
        decreases n - i,
    {
        i = i + 1;
    }
    i
}

/// End of the letter run starting at `from`.
fn alpha_end(s: &str, from: usize) -> (r: usize)
    requires
        from < s@.len(),
        is_alpha_char(s@[from as int]),
    ensures
        from < r <= s@.len(),
        forall|k: int| from <= k < r ==> is_alpha_char(s@[k]),
        r < s@.len() ==> !is_alpha_char(s@[r as int]),
{
    let n = s.unicode_len();
    let mut i: usize = from;
    while i < n && char_is_alpha(s.get_char(i))
        invariant
            n == s@.len(),
            from <= i <= n,
            forall|k: int| from <= k < i ==> is_alpha_char(s@[k]),
        decreases n - i,
    {
        i = i + 1;
    }
    i
}

/// Compare two version parts segment by segment.
pub fn part_cmp_str(a: &str, b: &str) -> (r: core::cmp::Ordering)
    ensures
        r == part_cmp(a@, b@),
{
    let na = a.unicode_len();
    let nb = b.unicode_len();
    let mut ia: usize = 0;
    let mut ib: usize = 0;
    proof {
        assert(a@.skip(0) =~= a@);
        assert(b@.skip(0) =~= b@);
    }
    loop
        invariant
            na == a@.len(),
            nb == b@.len(),
            0 <= ia <= na,
            0 <= ib <= nb,
            part_cmp(a@, b@) == segs_cmp(seg_split(a@.skip(ia as int)), seg_split(b@.skip(ib as int))),
        decreases (na - ia) + (nb - ib),
    {
        let sa = skip_separators(a, ia);
        let sb = skip_separators(b, ib);
        proof {
            lemma_skip_separators(a@, ia as int, sa as int);
            lemma_skip_separators(b@, ib as int, sb as int);
        }
        ia = sa;
        ib = sb;
        let ghost ta = seg_split(a@.skip(ia as int));
        let ghost tb = seg_split(b@.skip(ib as int));
        if ia == na && ib == nb {
            proof {
                assert(a@.skip(ia as int).len() == 0);
                assert(b@.skip(ib as int).len() == 0);
            }
            return core::cmp::Ordering::Equal;
        }
        if ia == na {
            let cb = b.get_char(ib);
            proof {
                assert(a@.skip(ia as int).len() == 0);
                assert(ta.len() == 0);
                if is_digit_char(cb) {
                    let jb = b@.len();
                    lemma_digit_run(b@.skip(ib as int));
                    assert(seg_split(b@.skip(ib as int))[0] is Num) by {
                        let t = b@.skip(ib as int);
                        assert(t[0] == b@[ib as int]);
                        assert((seq![Seg::Num(dec_val(t.take(digit_run(t) as int)))] + seg_split(
                            t.skip(digit_run(t) as int),
                        ))[0] is Num);
                    }
                } else {
                    let t = b@.skip(ib as int);
                    assert(t[0] == b@[ib as int]);
                    assert((seq![Seg::Alpha(t.take(alpha_run(t) as int))] + seg_split(
                        t.skip(alpha_run(t) as int),
                    ))[0] is Alpha);
                }
            }
            if crate::strutil::char_is_digit(cb) {
                return core::cmp::Ordering::Less;
            }
            return core::cmp::Ordering::Greater;
        }
        if ib == nb {
            let ca = a.get_char(ia);
            proof {
                assert(b@.skip(ib as int).len() == 0);
                assert(tb.len() == 0);
                let t = a@.skip(ia as int);
                assert(t[0] == a@[ia as int]);
                if is_digit_char(ca) {
                    assert((seq![Seg::Num(dec_val(t.take(digit_run(t) as int)))] + seg_split(
                        t.skip(digit_run(t) as int),
                    ))[0] is Num);
                } else {
                    assert((seq![Seg::Alpha(t.take(alpha_run(t) as int))] + seg_split(
                        t.skip(alpha_run(t) as int),
                    ))[0] is Alpha);
                }
            }
            if crate::strutil::char_is_digit(ca) {
                return core::cmp::Ordering::Greater;
            }
            return core::cmp::Ordering::Less;
        }
        let ca_digit = crate::strutil::char_is_digit(a.get_char(ia));
        let cb_digit = crate::strutil::char_is_digit(b.get_char(ib));
        if ca_digit {
            let ja = digit_end(a, ia);
            proof {
                lemma_num_segment(a@, ia as int, ja as int);
            }
            if !cb_digit {
                let jb = alpha_end(b, ib);
                proof {
                    lemma_alpha_segment(b@, ib as int, jb as int);
                }
                return core::cmp::Ordering::Greater;
            }
            let jb = digit_end(b, ib);
            proof {
                lemma_num_segment(b@, ib as int, jb as int);
            }
            let pa = a.substring_char(ia, ja);
            let pb = b.substring_char(ib, jb);
            proof {
                assert(pa@ =~= a@.subrange(ia as int, ja as int));
                assert(pb@ =~= b@.subrange(ib as int, jb as int));
                assert(forall|k: int| 0 <= k < pa@.len() ==> pa@[k] == a@[ia + k]);
                assert(forall|k: int| 0 <= k < pb@.len() ==> pb@[k] == b@[ib + k]);
                assert(all_digits(pa@));
                assert(all_digits(pb@));
            }
            let res = cmp_digit_strs(pa, pb);
            if matches!(res, core::cmp::Ordering::Equal) {
                proof {
                    assert(ta[0] == Seg::Num(dec_val(pa@)));
                    assert(tb[0] == Seg::Num(dec_val(pb@)));
                    assert(ta.drop_first() =~= seg_split(a@.skip(ja as int)));
                    assert(tb.drop_first() =~= seg_split(b@.skip(jb as int)));
                }
                ia = ja;
                ib = jb;
            } else {
                proof {
                    assert(ta[0] == Seg::Num(dec_val(pa@)));
                    assert(tb[0] == Seg::Num(dec_val(pb@)));
                }
                return res;
            }
        } else {
            let ja = alpha_end(a, ia);
            proof {
                lemma_alpha_segment(a@, ia as int, ja as int);
            }
            if cb_digit {
                let jb = digit_end(b, ib);
                proof {
                    lemma_num_segment(b@, ib as int, jb as int);
                }
                return core::cmp::Ordering::Less;
            }
            let jb = alpha_end(b, ib);
            proof {
                lemma_alpha_segment(b@, ib as int, jb as int);
            }
            let pa = a.substring_char(ia, ja);
            let pb = b.substring_char(ib, jb);
            proof {
                assert(pa@ =~= a@.subrange(ia as int, ja as int));
                assert(pb@ =~= b@.subrange(ib as int, jb as int));
            }
            let res = crate::strutil::str_cmp(pa, pb);
            if matches!(res, core::cmp::Ordering::Equal) {
                proof {
                    lemma_lex_cmp_eq(pa@, pb@);
                    assert(ta[0] == Seg::Alpha(pa@));
                    assert(tb[0] == Seg::Alpha(pb@));
                    assert(ta.drop_first() =~= seg_split(a@.skip(ja as int)));
                    assert(tb.drop_first() =~= seg_split(b@.skip(jb as int)));
                }
                ia = ja;
                ib = jb;
            } else {
                proof {
                    assert(ta[0] == Seg::Alpha(pa@));
                    assert(tb[0] == Seg::Alpha(pb@));
                }
                return res;
            }
        }
    }
}

// ---------------------------------------------------------------------------
// Epoch and release splitting, and the whole comparator
// ---------------------------------------------------------------------------

proof fn lemma_last_dash_unique(s: Seq<char>, i: nat)
    requires
        i < s.len(),
        s[i as int] == '-',
        forall|j: int| i < j < s.len() ==> s[j] != '-',
    ensures
        last_dash(s) == Some(i),
    decreases s.len(),
{
    if i < s.len() - 1 {
        assert(forall|j: int| 0 <= j < s.len() - 1 ==> s.drop_last()[j] == s[j]);
        lemma_last_dash_unique(s.drop_last(), i);
    }
}

proof fn lemma_last_dash_none(s: Seq<char>)
    requires
        forall|j: int| 0 <= j < s.len() ==> s[j] != '-',
    ensures
        last_dash(s) == None::<nat>,
    decreases s.len(),
{
    if s.len() > 0 {
        assert(forall|j: int| 0 <= j < s.len() - 1 ==> s.drop_last()[j] == s[j]);
        lemma_last_dash_none(s.drop_last());
    }
}

/// Compare two whole version strings, with the epoch, version and release
/// convention of `vercmp`.
pub fn vercmp_str(a: &str, b: &str) -> (r: core::cmp::Ordering)
    ensures
        r == vercmp(a@, b@),
{
    let na = a.unicode_len();
    let nb = b.unicode_len();
    let da = digit_prefix_end(a);
    let db = digit_prefix_end(b);
    let (ea, resta) = if da < na && a.get_char(da) == ':' {
        (a.substring_char(0, da), a.substring_char(da + 1, na))
    } else {
        (a.substring_char(0, 0), a)
    };
    let (eb, restb) = if db < nb && b.get_char(db) == ':' {
        (b.substring_char(0, db), b.substring_char(db + 1, nb))
    } else {
        (b.substring_char(0, 0), b)
    };
    proof {
        lemma_digit_run(a@);
        lemma_digit_run(b@);
        assert(ea@.len() == 0 ==> dec_val(ea@) == 0);
        assert(eb@.len() == 0 ==> dec_val(eb@) == 0);
        assert(forall|k: int| 0 <= k < ea@.len() ==> ea@[k] == a@[k]);
        assert(forall|k: int| 0 <= k < eb@.len() ==> eb@[k] == b@[k]);
        assert(all_digits(ea@));
        assert(all_digits(eb@));
        assert(dec_val(ea@) == epoch_of(a@).0 && resta@ == epoch_of(a@).1) by {
            if da < na && a@[da as int] == ':' {
                assert(ea@ =~= a@.take(da as int));
                assert(resta@ =~= a@.skip(da as int + 1));
            }
        }
        assert(dec_val(eb@) == epoch_of(b@).0 && restb@ == epoch_of(b@).1) by {
            if db < nb && b@[db as int] == ':' {
                assert(eb@ =~= b@.take(db as int));
                assert(restb@ =~= b@.skip(db as int + 1));
            }
        }
    }
    let ecmp = cmp_digit_strs(ea, eb);
    if !matches!(ecmp, core::cmp::Ordering::Equal) {
        return ecmp;
    }
    let (va, rela) = split_release(resta);
    let (vb, relb) = split_release(restb);
    let vc = part_cmp_str(va, vb);
    if !matches!(vc, core::cmp::Ordering::Equal) {
        return vc;
    }
    match (rela, relb) {
        (Some(x), Some(y)) => part_cmp_str(x, y),
        _ => core::cmp::Ordering::Equal,
    }
}

/// End of the run of digits at the front of `s`.
fn digit_prefix_end(s: &str) -> (r: usize)
    ensures
        r == digit_run(s@),
{
    let n = s.unicode_len();
    let mut i: usize = 0;
    while i < n && crate::strutil::char_is_digit(s.get_char(i))
        invariant
            n == s@.len(),
            0 <= i <= n,
            forall|k: int| 0 <= k < i ==> is_digit_char(s@[k]),
        decreases n - i,
    {
        i = i + 1;
    }
    proof {
        lemma_digit_run(s@);
    }
    i
}

/// Split an epoch-free version string at its last `-`: the version, and the
/// release when there is one.
fn split_release<'a>(s: &'a str) -> (r: (&'a str, Option<&'a str>))
    ensures
        r.0@ == ver_rel_of(s@).0,
        match (r.1, ver_rel_of(s@).1) {
            (Some(x), Some(y)) => x@ == y,
            (None, None) => true,
            _ => false,
        },
{
    let n = s.unicode_len();
    let mut i: usize = n;
    while i > 0
        invariant
            n == s@.len(),
            0 <= i <= n,
            forall|j: int| i <= j < n ==> s@[j] != '-',
        decreases i,
    {
        i = i - 1;
        if s.get_char(i) == '-' {
            proof {
                lemma_last_dash_unique(s@, i as nat);
            }
            let ver = s.substring_char(0, i);
            let rel = s.substring_char(i + 1, n);
            proof {
                assert(ver@ =~= s@.take(i as int));
                assert(rel@ =~= s@.skip(i as int + 1));
            }
            return (ver, Some(rel));
        }
    }
    proof {
        lemma_last_dash_none(s@);
    }
    (s, None)
}

} // verus!
