//! Verified helpers on strings and character sequences: ASCII predicates,
//! trimming, searching, line splitting, lexicographic comparison, and
//! decimal conversion in both directions.

use vstd::prelude::*;
use vstd::string::*;

verus! {

/// Distinct characters have distinct scalar values.
pub proof fn lemma_char_scalar_inj(a: char, b: char)
    requires
        a as u32 == b as u32,
    ensures
        a == b,
{
    vstd::utf8::char_u32_cast(a, a as u32);
    vstd::utf8::char_u32_cast(b, b as u32);
}

// ---------------------------------------------------------------------------
// Character predicates
// ---------------------------------------------------------------------------

/// ASCII whitespace, the set stripped from line ends by `trim`.
pub open spec fn is_ascii_ws(c: char) -> bool {
    c == ' ' || c == '\t' || c == '\n' || c == '\r' || c == '\u{0b}' || c == '\u{0c}'
}

pub open spec fn is_digit_char(c: char) -> bool {
    48 <= c as u32 <= 57
}

pub open spec fn digit_val(c: char) -> nat {
    (c as u32 - 48) as nat
}

pub fn char_is_ws(c: char) -> (b: bool)
    ensures
        b == is_ascii_ws(c),
{
    c == ' ' || c == '\t' || c == '\n' || c == '\r' || c == '\u{0b}' || c == '\u{0c}'
}

pub fn char_is_digit(c: char) -> (b: bool)
    ensures
        b == is_digit_char(c),
{
    let u = c as u32;
    48 <= u && u <= 57
}

// ---------------------------------------------------------------------------
// Trimming
// ---------------------------------------------------------------------------

/// Length of the run of whitespace at the front of `s`.
pub open spec fn ws_prefix_len(s: Seq<char>) -> nat
    decreases s.len(),
{
    if s.len() > 0 && is_ascii_ws(s[0]) {
        1 + ws_prefix_len(s.drop_first())
    } else {
        0
    }
}

/// Length of the run of whitespace at the back of `s`.
pub open spec fn ws_suffix_len(s: Seq<char>) -> nat
    decreases s.len(),
{
    if s.len() > 0 && is_ascii_ws(s[s.len() - 1]) {
        1 + ws_suffix_len(s.drop_last())
    } else {
        0
    }
}

/// `s` with leading and trailing ASCII whitespace removed.
pub open spec fn trim_spec(s: Seq<char>) -> Seq<char> {
    let t = s.subrange(ws_prefix_len(s) as int, s.len() as int);
    t.subrange(0, t.len() - ws_suffix_len(t))
}

pub proof fn lemma_ws_prefix_len(s: Seq<char>)
    ensures
        ws_prefix_len(s) <= s.len(),
        forall|j: int| 0 <= j < ws_prefix_len(s) ==> is_ascii_ws(s[j]),
        ws_prefix_len(s) < s.len() ==> !is_ascii_ws(s[ws_prefix_len(s) as int]),
    decreases s.len(),
{
    if s.len() > 0 && is_ascii_ws(s[0]) {
        lemma_ws_prefix_len(s.drop_first());
        assert forall|j: int| 0 <= j < ws_prefix_len(s) implies is_ascii_ws(s[j]) by {
            if j > 0 {
                assert(s.drop_first()[j - 1] == s[j]);
            }
        }
        if ws_prefix_len(s) < s.len() {
            assert(s.drop_first()[ws_prefix_len(s) as int - 1] == s[ws_prefix_len(s) as int]);
        }
    }
}

pub proof fn lemma_ws_suffix_len(s: Seq<char>)
    ensures
        ws_suffix_len(s) <= s.len(),
        forall|j: int| s.len() - ws_suffix_len(s) <= j < s.len() ==> is_ascii_ws(s[j]),
        ws_suffix_len(s) < s.len() ==> !is_ascii_ws(s[s.len() - ws_suffix_len(s) - 1]),
    decreases s.len(),
{
    if s.len() > 0 && is_ascii_ws(s[s.len() - 1]) {
        lemma_ws_suffix_len(s.drop_last());
        assert forall|j: int| s.len() - ws_suffix_len(s) <= j < s.len() implies is_ascii_ws(s[j])
            by {
            if j < s.len() - 1 {
                assert(s.drop_last()[j] == s[j]);
            }
        }
        if ws_suffix_len(s) < s.len() {
            assert(s.drop_last()[s.len() - ws_suffix_len(s) - 1] == s[s.len() - ws_suffix_len(s)
                - 1]);
        }
    }
}

fn trim_start(s: &str) -> (r: &str)
    ensures
        r@ == s@.subrange(ws_prefix_len(s@) as int, s@.len() as int),
{
    let n = s.unicode_len();
    let mut i: usize = 0;
    while i < n && char_is_ws(s.get_char(i))
        invariant
            n == s@.len(),
            0 <= i <= n,
            forall|j: int| 0 <= j < i ==> is_ascii_ws(s@[j]),
        decreases n - i,
    {
        i = i + 1;
    }
    proof {
        lemma_ws_prefix_len(s@);
    }
    s.substring_char(i, n)
}

fn trim_end(s: &str) -> (r: &str)
    ensures
        r@ == s@.subrange(0, s@.len() - ws_suffix_len(s@)),
{
    let n = s.unicode_len();
    let mut i: usize = n;
    while i > 0 && char_is_ws(s.get_char(i - 1))
        invariant
            n == s@.len(),
            0 <= i <= n,
            forall|j: int| i <= j < n ==> is_ascii_ws(s@[j]),
        decreases i,
    {
        i = i - 1;
    }
    proof {
        lemma_ws_suffix_len(s@);
    }
    s.substring_char(0, i)
}

/// Strip leading and trailing ASCII whitespace.
pub fn trim(s: &str) -> (r: &str)
    ensures
        r@ == trim_spec(s@),
{
    let t = trim_start(s);
    trim_end(t)
}

// ---------------------------------------------------------------------------
// Searching and line splitting
// ---------------------------------------------------------------------------

/// First index `i >= from` with `s@[i] == c`, if any.
pub fn find_char_from(s: &str, from: usize, c: char) -> (r: Option<usize>)
    requires
        from <= s@.len(),
    ensures
        match r {
            Some(i) => from <= i < s@.len() && s@[i as int] == c && forall|j: int|
                from <= j < i ==> s@[j] != c,
            None => forall|j: int| from <= j < s@.len() ==> s@[j] != c,
        },
{
    let n = s.unicode_len();
    let mut i: usize = from;
    while i < n
        invariant
            n == s@.len(),
            from <= i <= n,
            forall|j: int| from <= j < i ==> s@[j] != c,
        decreases n - i,
    {
        if s.get_char(i) == c {
            return Some(i);
        }
        i = i + 1;
    }
    None
}

/// Index of the first occurrence of `c` in `s`, if any.
pub open spec fn first_occ(s: Seq<char>, c: char) -> Option<nat>
    decreases s.len(),
{
    if s.len() == 0 {
        None
    } else if s[0] == c {
        Some(0nat)
    } else {
        match first_occ(s.drop_first(), c) {
            Some(i) => Some((i + 1) as nat),
            None => None,
        }
    }
}

pub proof fn lemma_first_occ(s: Seq<char>, c: char)
    ensures
        match first_occ(s, c) {
            Some(i) => i < s.len() && s[i as int] == c && forall|j: int| 0 <= j < i ==> s[j] != c,
            None => forall|j: int| 0 <= j < s.len() ==> s[j] != c,
        },
    decreases s.len(),
{
    if s.len() > 0 && s[0] != c {
        lemma_first_occ(s.drop_first(), c);
        assert(forall|j: int| 0 < j < s.len() ==> s[j] == s.drop_first()[j - 1]);
    }
}

pub proof fn lemma_first_occ_unique(s: Seq<char>, c: char, i: nat)
    requires
        i < s.len(),
        s[i as int] == c,
        forall|j: int| 0 <= j < i ==> s[j] != c,
    ensures
        first_occ(s, c) == Some(i),
    decreases s.len(),
{
    if i > 0 {
        assert(forall|j: int| 0 < j < s.len() ==> s.drop_first()[j - 1] == s[j]);
        lemma_first_occ_unique(s.drop_first(), c, (i - 1) as nat);
    }
}

pub proof fn lemma_first_occ_none(s: Seq<char>, c: char)
    requires
        forall|j: int| 0 <= j < s.len() ==> s[j] != c,
    ensures
        first_occ(s, c) == None::<nat>,
{
    lemma_first_occ(s, c);
    if first_occ(s, c) is Some {
        assert(s[first_occ(s, c)->0 as int] == c);
    }
}

/// The lines of `s`: the maximal `'\n'`-free stretches, in order.  A final
/// newline yields a trailing empty line, as splitting on a separator does.
pub open spec fn split_lines_spec(s: Seq<char>) -> Seq<Seq<char>>
    decreases s.len(),
    via split_lines_spec_decreases
{
    match first_occ(s, '\n') {
        Some(i) => seq![s.take(i as int)] + split_lines_spec(s.skip(i as int + 1)),
        None => seq![s],
    }
}

#[via_fn]
proof fn split_lines_spec_decreases(s: Seq<char>) {
    lemma_first_occ(s, '\n');
}

pub fn split_lines(s: &str) -> (r: Vec<String>)
    ensures
        r.deep_view() == split_lines_spec(s@),
{
    let n = s.unicode_len();
    let mut out: Vec<String> = Vec::new();
    let mut from: usize = 0;
    proof {
        assert(s@.skip(0) =~= s@);
        assert(out.deep_view() + split_lines_spec(s@) =~= split_lines_spec(s@));
    }
    loop
        invariant
            n == s@.len(),
            0 <= from <= n,
            split_lines_spec(s@) == out.deep_view() + split_lines_spec(s@.skip(from as int)),
        decreases n - from,
    {
        let ghost rest = s@.skip(from as int);
        proof {
            assert(forall|j: int| 0 <= j < rest.len() ==> rest[j] == s@[from + j]);
        }
        match find_char_from(s, from, '\n') {
            Some(i) => {
                let piece = s.substring_char(from, i);
                proof {
                    lemma_first_occ_unique(rest, '\n', (i - from) as nat);
                    assert(rest.take(i - from) =~= s@.subrange(from as int, i as int));
                    assert(rest.skip(i - from + 1) =~= s@.skip(i as int + 1));
                    assert(split_lines_spec(rest) == seq![piece@] + split_lines_spec(
                        s@.skip(i as int + 1),
                    ));
                }
                let ghost prev_dv = out.deep_view();
                out.push(String::from_str(piece));
                proof {
                    assert(out.deep_view() =~= prev_dv.push(piece@));
                    assert(out.deep_view() + split_lines_spec(s@.skip(i as int + 1)) =~= prev_dv
                        + split_lines_spec(rest));
                }
                from = i + 1;
            },
            None => {
                let piece = s.substring_char(from, n);
                proof {
                    lemma_first_occ_none(rest, '\n');
                    assert(rest =~= s@.subrange(from as int, n as int));
                    assert(split_lines_spec(rest) == seq![piece@]);
                }
                let ghost prev_dv = out.deep_view();
                out.push(String::from_str(piece));
                proof {
                    assert(out.deep_view() =~= prev_dv.push(piece@));
                    assert(out.deep_view() =~= prev_dv + seq![piece@]);
                }
                return out;
            },
        }
    }
}

// ---------------------------------------------------------------------------
// Lexicographic comparison
// ---------------------------------------------------------------------------

/// Lexicographic comparison of two character sequences by scalar value; a
/// proper prefix compares before any extension of it.
pub open spec fn lex_cmp(a: Seq<char>, b: Seq<char>) -> core::cmp::Ordering
    decreases a.len(),
{
    if a.len() == 0 && b.len() == 0 {
        core::cmp::Ordering::Equal
    } else if a.len() == 0 {
        core::cmp::Ordering::Less
    } else if b.len() == 0 {
        core::cmp::Ordering::Greater
    } else if a[0] == b[0] {
        lex_cmp(a.drop_first(), b.drop_first())
    } else if (a[0] as u32) < (b[0] as u32) {
        core::cmp::Ordering::Less
    } else {
        core::cmp::Ordering::Greater
    }
}

pub proof fn lemma_lex_cmp_eq(a: Seq<char>, b: Seq<char>)
    ensures
        (lex_cmp(a, b) == core::cmp::Ordering::Equal) <==> (a == b),
    decreases a.len(),
{
    if a.len() == 0 && b.len() == 0 {
        assert(a =~= b);
    }
    if a.len() > 0 && b.len() > 0 && a[0] == b[0] {
        lemma_lex_cmp_eq(a.drop_first(), b.drop_first());
        assert(forall|i: int| 0 < i < a.len() ==> #[trigger] a[i] == a.drop_first()[i - 1]);
        assert(forall|i: int| 0 < i < b.len() ==> #[trigger] b[i] == b.drop_first()[i - 1]);
        if a.drop_first() == b.drop_first() {
            assert(a =~= b);
        }
        if a == b {
            assert(a.drop_first() =~= b.drop_first());
        }
    }
}

pub proof fn lemma_lex_cmp_flip(a: Seq<char>, b: Seq<char>)
    ensures
        lex_cmp(b, a) == (match lex_cmp(a, b) {
            core::cmp::Ordering::Less => core::cmp::Ordering::Greater,
            core::cmp::Ordering::Equal => core::cmp::Ordering::Equal,
            core::cmp::Ordering::Greater => core::cmp::Ordering::Less,
        }),
    decreases a.len(),
{
    if a.len() > 0 && b.len() > 0 {
        if a[0] == b[0] {
            lemma_lex_cmp_flip(a.drop_first(), b.drop_first());
        } else if a[0] as u32 == b[0] as u32 {
            lemma_char_scalar_inj(a[0], b[0]);
        }
    }
}

pub proof fn lemma_lex_cmp_trans(a: Seq<char>, b: Seq<char>, c: Seq<char>)
    requires
        lex_cmp(a, b) != core::cmp::Ordering::Greater,
        lex_cmp(b, c) != core::cmp::Ordering::Greater,
    ensures
        lex_cmp(a, c) != core::cmp::Ordering::Greater,
    decreases a.len(),
{
    if a.len() > 0 && b.len() > 0 && c.len() > 0 && a[0] == b[0] && b[0] == c[0] {
        lemma_lex_cmp_trans(a.drop_first(), b.drop_first(), c.drop_first());
    }
}

/// Compare two strings lexicographically, as `str`'s own ordering does.
pub fn str_cmp(a: &str, b: &str) -> (r: core::cmp::Ordering)
    ensures
        r == lex_cmp(a@, b@),
{
    let na = a.unicode_len();
    let nb = b.unicode_len();
    let mut i: usize = 0;
    proof {
        assert(a@.skip(0) =~= a@);
        assert(b@.skip(0) =~= b@);
    }
    loop
        invariant
            na == a@.len(),
            nb == b@.len(),
            0 <= i <= na,
            0 <= i <= nb,
            lex_cmp(a@, b@) == lex_cmp(a@.skip(i as int), b@.skip(i as int)),
        decreases na - i,
    {
        if i == na && i == nb {
            return core::cmp::Ordering::Equal;
        }
        if i == na {
            return core::cmp::Ordering::Less;
        }
        if i == nb {
            return core::cmp::Ordering::Greater;
        }
        let ca = a.get_char(i);
        let cb = b.get_char(i);
        proof {
            assert(a@.skip(i as int)[0] == a@[i as int]);
            assert(b@.skip(i as int)[0] == b@[i as int]);
        }
        if ca != cb {
            if (ca as u32) < (cb as u32) {
                return core::cmp::Ordering::Less;
            }
            return core::cmp::Ordering::Greater;
        }
        proof {
            assert(a@.skip(i as int).drop_first() =~= a@.skip(i as int + 1));
            assert(b@.skip(i as int).drop_first() =~= b@.skip(i as int + 1));
        }
        i = i + 1;
    }
}

/// String equality over the character views.
pub fn str_eq(a: &str, b: &str) -> (r: bool)
    ensures
        r == (a@ == b@),
{
    proof {
        lemma_lex_cmp_eq(a@, b@);
    }
    matches!(str_cmp(a, b), core::cmp::Ordering::Equal)
}

// ---------------------------------------------------------------------------
// Decimal numbers
// ---------------------------------------------------------------------------

pub open spec fn all_digits(s: Seq<char>) -> bool {
    forall|i: int| 0 <= i < s.len() ==> is_digit_char(s[i])
}

/// Value of a digit string read in base ten.
pub open spec fn dec_val(s: Seq<char>) -> nat
    decreases s.len(),
{
    if s.len() == 0 {
        0
    } else {
        dec_val(s.drop_last()) * 10 + digit_val(s.last())
    }
}

/// What `u64::from_str` accepts: an optional leading `'+'`, then one or more
/// digits whose value fits.
pub open spec fn spec_parse_u64(s: Seq<char>) -> Option<u64> {
    let digits = if s.len() > 0 && s[0] == '+' {
        s.drop_first()
    } else {
        s
    };
    if digits.len() > 0 && all_digits(digits) && dec_val(digits) <= u64::MAX {
        Some(dec_val(digits) as u64)
    } else {
        None
    }
}

proof fn lemma_dec_val_take_step(s: Seq<char>, i: int)
    requires
        0 <= i < s.len(),
    ensures
        dec_val(s.take(i + 1)) == dec_val(s.take(i)) * 10 + digit_val(s[i]),
{
    assert(s.take(i + 1).drop_last() =~= s.take(i));
    assert(s.take(i + 1).last() == s[i]);
}

proof fn lemma_dec_val_grows(s: Seq<char>, i: int)
    requires
        0 <= i <= s.len(),
    ensures
        dec_val(s) >= dec_val(s.take(i)),
    decreases s.len() - i,
{
    if i < s.len() {
        lemma_dec_val_take_step(s, i);
        lemma_dec_val_grows(s, i + 1);
        assert(dec_val(s.take(i + 1)) >= dec_val(s.take(i)));
    } else {
        assert(s.take(i) =~= s);
    }
}

/// Parse a non-negative decimal integer exactly as `u64::from_str` would.
pub fn parse_u64(s: &str) -> (r: Option<u64>)
    ensures
        r == spec_parse_u64(s@),
{
    let n = s.unicode_len();
    let start: usize = if n > 0 && s.get_char(0) == '+' {
        1
    } else {
        0
    };
    let ghost digits = if s@.len() > 0 && s@[0] == '+' {
        s@.drop_first()
    } else {
        s@
    };
    proof {
        assert(digits =~= s@.skip(start as int));
        assert(forall|j: int| 0 <= j < digits.len() ==> digits[j] == s@[start + j]);
    }
    if start == n {
        return None;
    }
    let mut acc: u64 = 0;
    let mut i: usize = start;
    proof {
        assert(digits.take(0) =~= Seq::<char>::empty());
    }
    while i < n
        invariant
            n == s@.len(),
            start <= i <= n,
            start < n,
            digits == s@.skip(start as int),
            digits == (if s@.len() > 0 && s@[0] == '+' {
                s@.drop_first()
            } else {
                s@
            }),
            forall|j: int| 0 <= j < digits.len() ==> digits[j] == s@[start + j],
            forall|j: int| start <= j < i ==> is_digit_char(s@[j]),
            acc == dec_val(digits.take(i - start)),
        decreases n - i,
    {
        let c = s.get_char(i);
        if !char_is_digit(c) {
            proof {
                assert(digits[i - start] == s@[i as int]);
                assert(!all_digits(digits));
            }
            return None;
        }
        let d: u64 = (c as u32 as u64) - 48;
        let ghost k = i - start;
        proof {
            lemma_dec_val_take_step(digits, k);
            assert(digits[k] == s@[i as int]);
        }
        if acc > (u64::MAX - d) / 10 {
            proof {
                assert(acc * 10 + d > u64::MAX) by (nonlinear_arith)
                    requires
                        acc > (u64::MAX - d) / 10,
                        d <= 9,
                {}
                lemma_dec_val_grows(digits, k + 1);
            }
            return None;
        }
        proof {
            assert(acc * 10 + d <= u64::MAX) by (nonlinear_arith)
                requires
                    acc <= (u64::MAX - d) / 10,
                    d <= 9,
            {}
        }
        acc = acc * 10 + d;
        i = i + 1;
    }
    proof {
        assert(digits.take(n - start) =~= digits);
    }
    Some(acc)
}

/// The decimal digit character for `v < 10`.
pub open spec fn digit_char(v: nat) -> char {
    ((v + 48) as u8) as char
}

/// Decimal representation of `v`, without sign or leading zeros.
pub open spec fn dec_str(v: nat) -> Seq<char>
    decreases v,
{
    if v < 10 {
        seq![digit_char(v)]
    } else {
        dec_str(v / 10).push(digit_char(v % 10))
    }
}

/// Decimal representation of a signed value.
pub open spec fn int_str(v: int) -> Seq<char> {
    if v >= 0 {
        dec_str(v as nat)
    } else {
        seq!['-'] + dec_str((-v) as nat)
    }
}

/// The digit bytes of `bs`, as characters.
pub open spec fn digits_to_chars(bs: Seq<u8>) -> Seq<char> {
    bs.map(|i: int, b: u8| b as char)
}

/// Relies on `String::from_utf8`: a vector of ASCII bytes decodes to the
/// string with exactly those characters.
#[verifier::external_body]
pub fn ascii_string(bytes: Vec<u8>) -> (r: String)
    requires
        forall|i: int| 0 <= i < bytes@.len() ==> bytes@[i] < 128,
    ensures
        r@.len() == bytes@.len(),
        forall|i: int| 0 <= i < bytes@.len() ==> r@[i] == bytes@[i] as char,
{
    String::from_utf8(bytes).unwrap_or_default()
}

/// Render `v` in decimal.
pub fn u64_to_string(v: u64) -> (r: String)
    ensures
        r@ == dec_str(v as nat),
{
    let mut rev: Vec<u8> = Vec::new();
    let mut cur: u64 = v;
    loop
        invariant_except_break
            rev@.len() == 0 ==> cur == v,
            rev@.len() > 0 ==> cur > 0 && dec_str(v as nat) =~= dec_str(cur as nat)
                + digits_to_chars(rev@).reverse(),
        invariant
            forall|j: int| 0 <= j < rev@.len() ==> 48 <= #[trigger] rev@[j] < 58,
        ensures
            dec_str(v as nat) =~= digits_to_chars(rev@).reverse(),
        decreases cur,
    {
        let ghost old_rev = rev@;
        let ghost old_cur = cur;
        let d: u8 = (cur % 10) as u8 + 48;
        rev.push(d);
        cur = cur / 10;
        proof {
            assert(rev@ == old_rev.push(d));
            assert(digits_to_chars(old_rev.push(d)).reverse() =~= seq![d as char]
                + digits_to_chars(old_rev).reverse());
            assert(d as char == digit_char((old_cur % 10) as nat));
            if old_cur >= 10 {
                assert(dec_str(old_cur as nat) == dec_str((old_cur / 10) as nat).push(digit_char(
                    (old_cur % 10) as nat,
                )));
                assert(dec_str((old_cur / 10) as nat).push(digit_char((old_cur % 10) as nat)) =~=
                    dec_str((old_cur / 10) as nat) + seq![digit_char((old_cur % 10) as nat)]);
                assert(dec_str(v as nat) =~= dec_str(cur as nat) + digits_to_chars(rev@).reverse());
            } else {
                assert(dec_str(old_cur as nat) =~= seq![digit_char((old_cur % 10) as nat)]);
                assert(dec_str(v as nat) =~= digits_to_chars(rev@).reverse());
            }
        }
        if cur == 0 {
            break;
        }
    }
    let mut out: Vec<u8> = Vec::new();
    let mut i: usize = rev.len();
    while i > 0
        invariant
            i <= rev@.len(),
            forall|j: int| 0 <= j < rev@.len() ==> 48 <= #[trigger] rev@[j] < 58,
            out@.len() == rev@.len() - i,
            forall|j: int| 0 <= j < out@.len() ==> out@[j] == rev@[rev@.len() - 1 - j],
        decreases i,
    {
        i = i - 1;
        let b = rev[i];
        out.push(b);
    }
    let r = ascii_string(out);
    proof {
        assert(r@ =~= digits_to_chars(rev@).reverse());
    }
    r
}

/// Render `v` in decimal with a sign when negative.
pub fn i64_to_string(v: i64) -> (r: String)
    ensures
        r@ == int_str(v as int),
{
    if v >= 0 {
        u64_to_string(v as u64)
    } else {
        let mag: u64 = ((-(v + 1)) as u64) + 1;
        let digits = u64_to_string(mag);
        let mut out = String::from_str("-");
        proof {
            reveal_strlit("-");
        }
        out.append(digits.as_str());
        proof {
            assert(out@ =~= int_str(v as int));
        }
        out
    }
}

} // verus!
