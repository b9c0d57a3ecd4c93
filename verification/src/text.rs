//! Character classes, trimming, comparison and number formatting on strings,
//! each stated over `Seq<char>` and proved.
use vstd::prelude::*;
use vstd::std_specs::iter::IteratorSpec;
use vstd::string::StringExecFns;

verus! {

// ---------------------------------------------------------------------------
// Character classes
// ---------------------------------------------------------------------------

/// The Unicode `White_Space` property, which `char::is_whitespace` and
/// `str::trim` go by.
pub open spec fn is_unicode_whitespace(c: char) -> bool {
    let u = c as u32;
    ||| 0x09 <= u <= 0x0d
    ||| u == 0x20
    ||| u == 0x85
    ||| u == 0xa0
    ||| u == 0x1680
    ||| 0x2000 <= u <= 0x200a
    ||| u == 0x2028
    ||| u == 0x2029
    ||| u == 0x202f
    ||| u == 0x205f
    ||| u == 0x3000
}

/// ASCII whitespace as `char::is_ascii_whitespace` defines it
/// (space, tab, line feed, form feed, carriage return).
pub open spec fn is_ascii_whitespace(c: char) -> bool {
    c == ' ' || c == '\t' || c == '\n' || c == '\x0C' || c == '\r'
}

pub open spec fn is_ascii_digit(c: char) -> bool {
    '0' <= c <= '9'
}

pub open spec fn is_ascii_upper(c: char) -> bool {
    'A' <= c <= 'Z'
}

pub open spec fn is_ascii_lower(c: char) -> bool {
    'a' <= c <= 'z'
}

pub open spec fn is_ascii_alphanumeric(c: char) -> bool {
    is_ascii_digit(c) || is_ascii_upper(c) || is_ascii_lower(c)
}

pub open spec fn is_ascii_hexdigit(c: char) -> bool {
    is_ascii_digit(c) || ('a' <= c <= 'f') || ('A' <= c <= 'F')
}

/// `char::to_ascii_uppercase`.
pub open spec fn ascii_upper(c: char) -> char {
    if is_ascii_lower(c) {
        ((c as u32) - 32) as char
    } else {
        c
    }
}

/// `char::to_ascii_lowercase`.
pub open spec fn ascii_lower(c: char) -> char {
    if is_ascii_upper(c) {
        ((c as u32) + 32) as char
    } else {
        c
    }
}

/// `str::eq_ignore_ascii_case`.
pub open spec fn eq_ignore_ascii_case(a: Seq<char>, b: Seq<char>) -> bool {
    &&& a.len() == b.len()
    &&& forall|i: int| 0 <= i < a.len() ==> ascii_lower(#[trigger] a[i]) == ascii_lower(b[i])
}

/// Every character of `s` is Unicode whitespace (so `s.trim()` is empty).
pub open spec fn all_whitespace(s: Seq<char>) -> bool {
    forall|i: int| 0 <= i < s.len() ==> is_unicode_whitespace(#[trigger] s[i])
}

// ---------------------------------------------------------------------------
// Trimming
// ---------------------------------------------------------------------------

/// `str::trim_start`.
pub open spec fn trim_start(s: Seq<char>) -> Seq<char>
    decreases s.len(),
{
    if s.len() > 0 && is_unicode_whitespace(s[0]) {
        trim_start(s.drop_first())
    } else {
        s
    }
}

/// `str::trim_end`.
pub open spec fn trim_end(s: Seq<char>) -> Seq<char>
    decreases s.len(),
{
    if s.len() > 0 && is_unicode_whitespace(s.last()) {
        trim_end(s.drop_last())
    } else {
        s
    }
}

/// `str::trim`.
pub open spec fn trim(s: Seq<char>) -> Seq<char> {
    trim_end(trim_start(s))
}

/// `str::trim_start_matches` with a single character pattern.
pub open spec fn trim_start_char(s: Seq<char>, c: char) -> Seq<char>
    decreases s.len(),
{
    if s.len() > 0 && s[0] == c {
        trim_start_char(s.drop_first(), c)
    } else {
        s
    }
}

/// `needle` occurs in `hay` exactly when `hay` is some text, then `needle`,
/// then some more text (either of them possibly empty).
pub proof fn law_contains_seq_is_infix(hay: Seq<char>, needle: Seq<char>)
    ensures
        contains_seq(hay, needle) <==> exists|p: Seq<char>, q: Seq<char>| hay == p + needle + q,
{
    if contains_seq(hay, needle) {
        let i = choose|i: int|
            0 <= i <= hay.len() - needle.len() && #[trigger] hay.subrange(i, i + needle.len())
                == needle;
        let p = hay.take(i);
        let q = hay.skip(i + needle.len());
        assert(hay =~= p + needle + q);
    }
    if exists|p: Seq<char>, q: Seq<char>| hay == p + needle + q {
        let (p, q) = choose|p: Seq<char>, q: Seq<char>| hay == p + needle + q;
        let i = p.len() as int;
        assert(hay.subrange(i, i + needle.len()) =~= needle);
    }
}

/// `needle` occurs in `hay` as a contiguous piece.
pub open spec fn contains_seq(hay: Seq<char>, needle: Seq<char>) -> bool {
    exists|i: int| 0 <= i <= hay.len() - needle.len() && #[trigger] hay.subrange(i, i + needle.len()) == needle
}

proof fn lemma_trim_start_skip(s: Seq<char>, i: int)
    requires
        0 <= i <= s.len(),
        forall|j: int| 0 <= j < i ==> is_unicode_whitespace(#[trigger] s[j]),
    ensures
        trim_start(s) == trim_start(s.skip(i)),
    decreases i,
{
    if i > 0 {
        assert(s.skip(1) == s.drop_first());
        lemma_trim_start_skip(s.drop_first(), i - 1);
        assert(s.drop_first().skip(i - 1) == s.skip(i));
    } else {
        assert(s.skip(0) == s);
    }
}

proof fn lemma_trim_end_take(s: Seq<char>, k: int)
    requires
        0 <= k <= s.len(),
        forall|j: int| k <= j < s.len() ==> is_unicode_whitespace(#[trigger] s[j]),
    ensures
        trim_end(s) == trim_end(s.take(k)),
    decreases s.len() - k,
{
    if k < s.len() {
        assert(s.take(s.len() - 1) == s.drop_last());
        lemma_trim_end_take(s.drop_last(), k);
        assert(s.drop_last().take(k) == s.take(k));
    } else {
        assert(s.take(k) == s);
    }
}

/// The trimmed sequence is the piece between the first and the last
/// non-whitespace character.
pub proof fn lemma_trim_bounds(s: Seq<char>, a: int, b: int)
    requires
        0 <= a <= b <= s.len(),
        forall|j: int| 0 <= j < a ==> is_unicode_whitespace(#[trigger] s[j]),
        forall|j: int| b <= j < s.len() ==> is_unicode_whitespace(#[trigger] s[j]),
        a < b ==> !is_unicode_whitespace(s[a]) && !is_unicode_whitespace(s[b - 1]),
        a == b ==> b == s.len(),
    ensures
        trim(s) == s.subrange(a, b),
{
    lemma_trim_start_skip(s, a);
    if a < b {
        assert(trim_start(s.skip(a)) == s.skip(a));
        let t = s.skip(a);
        lemma_trim_end_take(t, b - a);
        assert(t.take(b - a) == s.subrange(a, b));
        assert(t.take(b - a).last() == s[b - 1]);
    } else {
        assert(s.skip(a).len() == 0);
        assert(trim_start(s.skip(a)) == s.skip(a));
        assert(s.skip(a) == s.subrange(a, b));
    }
}

/// Trimming twice is trimming once.
pub proof fn lemma_trim_idempotent(s: Seq<char>)
    ensures
        trim(trim(s)) == trim(s),
{
    let t = trim(s);
    lemma_trim_bounds_exist(s);
    let (a, b) = trim_bounds(s);
    lemma_trim_bounds(s, a, b);
    if t.len() > 0 {
        lemma_trim_bounds(t, 0, t.len() as int);
        assert(t.subrange(0, t.len() as int) == t);
    } else {
        lemma_trim_bounds(t, 0, 0);
        assert(t.subrange(0, 0) == t);
    }
}

/// Whitespace added on either side is trimmed away again.
pub proof fn lemma_trim_whitespace_padding(w1: Seq<char>, v: Seq<char>, w2: Seq<char>)
    requires
        all_whitespace(w1),
        all_whitespace(w2),
    ensures
        trim(w1 + v + w2) == trim(v),
{
    let s = w1 + v + w2;
    let n = w1.len() as int;
    lemma_trim_bounds_exist(v);
    let (a, b) = trim_bounds(v);
    lemma_trim_bounds(v, a, b);
    assert forall|j: int| 0 <= j < n + a implies is_unicode_whitespace(#[trigger] s[j]) by {
        if j < n {
            assert(s[j] == w1[j]);
        } else {
            assert(s[j] == v[j - n]);
        }
    }
    if a < b {
        assert forall|j: int| n + b <= j < s.len() implies is_unicode_whitespace(#[trigger] s[j]) by {
            if j < n + v.len() {
                assert(s[j] == v[j - n]);
            } else {
                assert(s[j] == w2[j - n - v.len()]);
            }
        }
        assert(s[n + a] == v[a]);
        assert(s[n + b - 1] == v[b - 1]);
        lemma_trim_bounds(s, n + a, n + b);
        assert(s.subrange(n + a, n + b) == v.subrange(a, b));
    } else {
        assert forall|j: int| n + a <= j < s.len() implies is_unicode_whitespace(#[trigger] s[j]) by {
            if j < n + v.len() {
                assert(s[j] == v[j - n]);
            } else {
                assert(s[j] == w2[j - n - v.len()]);
            }
        }
        lemma_trim_bounds(s, s.len() as int, s.len() as int);
        assert forall|j: int| 0 <= j < s.len() implies is_unicode_whitespace(#[trigger] s[j]) by {
            if j >= n + a {
            }
        }
        assert(s.subrange(s.len() as int, s.len() as int) =~= v.subrange(a, b));
    }
}

/// The trimmed sequence neither starts nor ends with whitespace.
pub proof fn lemma_trim_edges(s: Seq<char>)
    ensures
        trim(s).len() > 0 ==> !is_unicode_whitespace(trim(s)[0]) && !is_unicode_whitespace(
            trim(s).last(),
        ),
        trim(s).len() == 0 <==> all_whitespace(s),
{
    lemma_trim_bounds_exist(s);
    let (a, b) = trim_bounds(s);
    lemma_trim_bounds(s, a, b);
    if a == b {
        assert(all_whitespace(s));
    } else {
        assert(!is_unicode_whitespace(s[a]));
    }
}

/// Every character of `s` before index `a` is whitespace.
pub open spec fn ws_before(s: Seq<char>, a: int) -> bool {
    forall|j: int| 0 <= j < a ==> is_unicode_whitespace(#[trigger] s[j])
}

/// Every character of `s` from index `b` on is whitespace.
pub open spec fn ws_from(s: Seq<char>, b: int) -> bool {
    forall|j: int| b <= j < s.len() ==> is_unicode_whitespace(#[trigger] s[j])
}

/// The indices between which `trim` keeps the characters of `s`.
pub open spec fn trim_bounds(s: Seq<char>) -> (int, int) {
    if all_whitespace(s) {
        (s.len() as int, s.len() as int)
    } else {
        let a = choose|a: int|
            0 <= a < s.len() && !is_unicode_whitespace(s[a]) && #[trigger] ws_before(s, a);
        let b = choose|b: int|
            a < b <= s.len() && !is_unicode_whitespace(s[b - 1]) && #[trigger] ws_from(s, b);
        (a, b)
    }
}

proof fn lemma_trim_bounds_exist(s: Seq<char>)
    ensures
        ({
            let (a, b) = trim_bounds(s);
            &&& 0 <= a <= b <= s.len()
            &&& forall|j: int| 0 <= j < a ==> is_unicode_whitespace(#[trigger] s[j])
            &&& forall|j: int| b <= j < s.len() ==> is_unicode_whitespace(#[trigger] s[j])
            &&& a < b ==> !is_unicode_whitespace(s[a]) && !is_unicode_whitespace(s[b - 1])
            &&& a == b ==> b == s.len()
        }),
{
    if !all_whitespace(s) {
        let k = choose|k: int| 0 <= k < s.len() && !is_unicode_whitespace(#[trigger] s[k]);
        let a0 = first_non_ws(s, 0, k);
        assert(ws_before(s, a0));
        let a = choose|a: int|
            0 <= a < s.len() && !is_unicode_whitespace(s[a]) && #[trigger] ws_before(s, a);
        assert(0 <= a < s.len() && !is_unicode_whitespace(s[a]));
        let b0 = last_non_ws(s, s.len() as int, a);
        assert(ws_from(s, b0));
        let b = choose|b: int|
            a < b <= s.len() && !is_unicode_whitespace(s[b - 1]) && #[trigger] ws_from(s, b);
        assert(a < b <= s.len() && !is_unicode_whitespace(s[b - 1]));
        assert(trim_bounds(s) == (a, b));
    }
}

proof fn first_non_ws(s: Seq<char>, i: int, k: int) -> (a: int)
    requires
        0 <= i <= k < s.len(),
        !is_unicode_whitespace(s[k]),
        forall|j: int| 0 <= j < i ==> is_unicode_whitespace(#[trigger] s[j]),
    ensures
        0 <= a <= k,
        !is_unicode_whitespace(s[a]),
        forall|j: int| 0 <= j < a ==> is_unicode_whitespace(#[trigger] s[j]),
    decreases k - i,
{
    if !is_unicode_whitespace(s[i]) {
        i
    } else {
        first_non_ws(s, i + 1, k)
    }
}

proof fn last_non_ws(s: Seq<char>, b: int, k: int) -> (r: int)
    requires
        0 <= k < b <= s.len(),
        !is_unicode_whitespace(s[k]),
        forall|j: int| b <= j < s.len() ==> is_unicode_whitespace(#[trigger] s[j]),
    ensures
        k < r <= s.len(),
        !is_unicode_whitespace(s[r - 1]),
        forall|j: int| r <= j < s.len() ==> is_unicode_whitespace(#[trigger] s[j]),
    decreases b - k,
{
    if !is_unicode_whitespace(s[b - 1]) {
        b
    } else {
        last_non_ws(s, b - 1, k)
    }
}

// ---------------------------------------------------------------------------
// Order
// ---------------------------------------------------------------------------

/// The order of `String`/`str` (`Ord`): lexicographic by code point, which
/// is the byte order of their UTF-8 encodings.
pub open spec fn seq_lt(a: Seq<char>, b: Seq<char>) -> bool
    decreases a.len(),
{
    if a.len() == 0 {
        b.len() > 0
    } else if b.len() == 0 {
        false
    } else if a[0] != b[0] {
        a[0] < b[0]
    } else {
        seq_lt(a.drop_first(), b.drop_first())
    }
}

proof fn lemma_char_code_point(c: char)
    ensures
        (c as u32) as int == c as int,
{
}

/// The order of strings is their order by code point: `a < b` exactly when
/// `a` is a proper prefix of `b`, or at the first place where they differ
/// the character of `a` has the smaller code point.
pub proof fn law_seq_lt_is_code_point_order(a: Seq<char>, b: Seq<char>)
    ensures
        seq_lt(a, b) <==> ((a.len() < b.len() && a == b.take(a.len() as int)) || exists|k: int|
            0 <= k < a.len() && k < b.len() && a.take(k) == b.take(k) && (a[k] as u32) < (
            #[trigger] b[k] as u32)),
    decreases a.len(),
{
    if a.len() == 0 {
        assert(a == b.take(0));
    } else if b.len() == 0 {
    } else if a[0] != b[0] {
        if a.len() < b.len() {
            assert(b.take(a.len() as int)[0] == b[0]);
            assert(a != b.take(a.len() as int));
        }
        lemma_char_code_point(a[0]);
        lemma_char_code_point(b[0]);
        if (a[0] as u32) < (b[0] as u32) {
            assert(a.take(0) =~= b.take(0));
        }
        assert forall|k: int|
            0 <= k < a.len() && k < b.len() && a.take(k) == b.take(k) && (a[k] as u32) < (
            #[trigger] b[k] as u32) implies k == 0 by {
            if k > 0 {
                assert(a.take(k)[0] == b.take(k)[0]);
            }
        }
    } else {
        let a1 = a.drop_first();
        let b1 = b.drop_first();
        law_seq_lt_is_code_point_order(a1, b1);
        if a1.len() < b1.len() && a1 == b1.take(a1.len() as int) {
            assert(a == b.take(a.len() as int)) by {
                assert forall|i: int| 0 <= i < a.len() implies #[trigger] a[i] == b.take(a.len() as int)[i] by {
                    if i > 0 {
                        assert(a[i] == a1[i - 1]);
                        assert(b1.take(a1.len() as int)[i - 1] == b1[i - 1]);
                    }
                }
                assert(a =~= b.take(a.len() as int));
            }
        }
        if a.len() < b.len() && a == b.take(a.len() as int) {
            assert(a1 =~= b1.take(a1.len() as int)) by {
                assert forall|i: int| 0 <= i < a1.len() implies #[trigger] a1[i] == b1.take(a1.len() as int)[i] by {
                    assert(a[i + 1] == b.take(a.len() as int)[i + 1]);
                }
            }
        }
        if exists|k: int|
            0 <= k < a1.len() && k < b1.len() && a1.take(k) == b1.take(k) && (a1[k] as u32) < (
            #[trigger] b1[k] as u32) {
            let k = choose|k: int|
                0 <= k < a1.len() && k < b1.len() && a1.take(k) == b1.take(k) && (a1[k] as u32) < (
                #[trigger] b1[k] as u32);
            assert(a.take(k + 1) =~= b.take(k + 1)) by {
                assert forall|i: int| 0 <= i < k + 1 implies #[trigger] a.take(k + 1)[i] == b.take(k + 1)[i] by {
                    if i > 0 {
                        assert(a1.take(k)[i - 1] == b1.take(k)[i - 1]);
                    }
                }
            }
            assert((a[k + 1] as u32) < (b[k + 1] as u32));
        }
        if exists|k: int|
            0 <= k < a.len() && k < b.len() && a.take(k) == b.take(k) && (a[k] as u32) < (
            #[trigger] b[k] as u32) {
            let k = choose|k: int|
                0 <= k < a.len() && k < b.len() && a.take(k) == b.take(k) && (a[k] as u32) < (
                #[trigger] b[k] as u32);
            assert(k > 0);
            assert(a1.take(k - 1) =~= b1.take(k - 1)) by {
                assert forall|i: int| 0 <= i < k - 1 implies #[trigger] a1.take(k - 1)[i] == b1.take(k - 1)[i] by {
                    assert(a.take(k)[i + 1] == b.take(k)[i + 1]);
                }
            }
            assert((a1[k - 1] as u32) < (b1[k - 1] as u32));
        }
    }
}

pub proof fn lemma_seq_lt_irreflexive(a: Seq<char>)
    ensures
        !seq_lt(a, a),
    decreases a.len(),
{
    if a.len() > 0 {
        lemma_seq_lt_irreflexive(a.drop_first());
    }
}

pub proof fn lemma_seq_lt_transitive(a: Seq<char>, b: Seq<char>, c: Seq<char>)
    requires
        seq_lt(a, b),
        seq_lt(b, c),
    ensures
        seq_lt(a, c),
    decreases a.len(),
{
    if a.len() > 0 && b.len() > 0 && c.len() > 0 {
        if a[0] == b[0] && b[0] == c[0] {
            lemma_seq_lt_transitive(a.drop_first(), b.drop_first(), c.drop_first());
        }
    }
}

pub proof fn lemma_seq_lt_total(a: Seq<char>, b: Seq<char>)
    ensures
        seq_lt(a, b) || seq_lt(b, a) || a == b,
    decreases a.len(),
{
    if a.len() > 0 && b.len() > 0 {
        if a[0] == b[0] {
            lemma_seq_lt_total(a.drop_first(), b.drop_first());
            if a.drop_first() == b.drop_first() {
                assert(a == seq![a[0]] + a.drop_first());
                assert(b == seq![b[0]] + b.drop_first());
            }
        }
    } else if a.len() == 0 && b.len() == 0 {
        assert(a == b);
    }
}

pub proof fn lemma_seq_lt_asymmetric(a: Seq<char>, b: Seq<char>)
    requires
        seq_lt(a, b),
    ensures
        !seq_lt(b, a),
        a != b,
{
    if seq_lt(b, a) {
        lemma_seq_lt_transitive(a, b, a);
        lemma_seq_lt_irreflexive(a);
    }
    if a == b {
        lemma_seq_lt_irreflexive(a);
    }
}

// ---------------------------------------------------------------------------
// Number formatting
// ---------------------------------------------------------------------------

pub open spec fn digit_char(d: int) -> char {
    ((d + 48) as u32) as char
}

/// A lower-case hexadecimal digit.
pub open spec fn hex_digit_char(d: int) -> char {
    if d < 10 {
        digit_char(d)
    } else {
        ((d - 10 + 97) as u32) as char
    }
}

/// The digits of `n` in `base` (no sign, no leading zeros; `0` is `"0"`),
/// as `format!("{n}")` and `format!("{n:o}")` write them.
pub open spec fn digits_in_base(n: nat, base: nat) -> Seq<char>
    recommends
        2 <= base <= 10,
    decreases n,
{
    if base < 2 || n < base {
        seq![digit_char(n as int)]
    } else {
        proof {
            assert(n / base < n) by (nonlinear_arith)
                requires
                    base >= 2,
                    n >= base,
            ;
        }
        digits_in_base(n / base, base).push(digit_char((n % base) as int))
    }
}

/// `format!("{n}")`.
pub open spec fn decimal(n: nat) -> Seq<char> {
    digits_in_base(n, 10)
}

/// `format!("{n:o}")`.
pub open spec fn octal(n: nat) -> Seq<char> {
    digits_in_base(n, 8)
}

/// `format!("{b:02x}")`.
pub open spec fn hex_byte(b: u8) -> Seq<char> {
    seq![hex_digit_char(b as int / 16), hex_digit_char(b as int % 16)]
}

/// The number that the digit characters `ds` stand for, read in `base`.
pub open spec fn numeral_value(ds: Seq<char>, base: nat) -> int
    decreases ds.len(),
{
    if ds.len() == 0 {
        0
    } else {
        numeral_value(ds.drop_last(), base) * base + (ds.last() as int - '0' as int)
    }
}

/// `digits_in_base(n, base)` is a numeral for `n`: read back in `base` it
/// gives `n`, each character is a digit below `base`, and it starts with `0`
/// only when it is the single digit of zero.
pub proof fn law_digits_in_base_read_back(n: nat, base: nat)
    requires
        2 <= base <= 10,
    ensures
        numeral_value(digits_in_base(n, base), base) == n,
        digits_in_base(n, base).len() >= 1,
        forall|i: int|
            0 <= i < digits_in_base(n, base).len() ==> '0' as int <= (#[trigger] digits_in_base(
                n,
                base,
            )[i]) as int && (digits_in_base(n, base)[i] as int) < '0' as int + base,
        digits_in_base(n, base)[0] == '0' ==> n == 0 && digits_in_base(n, base).len() == 1,
    decreases n,
{
    let ds = digits_in_base(n, base);
    if n < base {
        assert(ds.drop_last().len() == 0);
        assert(ds.last() as int == n + '0' as int);
        assert(numeral_value(ds, base) == numeral_value(ds.drop_last(), base) * base + n);
    } else {
        assert(n / base < n) by (nonlinear_arith)
            requires
                base >= 2,
                n >= base,
        ;
        assert(n / base >= 1) by (nonlinear_arith)
            requires
                base >= 2,
                n >= base,
        ;
        law_digits_in_base_read_back(n / base, base);
        let hi = digits_in_base(n / base, base);
        assert(ds == hi.push(digit_char((n % base) as int)));
        assert(ds.drop_last() =~= hi);
        assert(n == (n / base) * base + n % base) by (nonlinear_arith)
            requires
                base >= 2,
        ;
        assert(ds[0] == hi[0]);
        assert(ds.last() as int == (n % base) as int + '0' as int);
        assert(numeral_value(ds, base) == numeral_value(hi, base) * base + (n % base) as int);
        assert(numeral_value(hi, base) * base == (n / base) * base);
        assert forall|i: int| 0 <= i < ds.len() implies '0' as int <= (#[trigger] ds[i]) as int
            && (ds[i] as int) < '0' as int + base by {
            if i < hi.len() {
                assert(ds[i] == hi[i]);
            }
        }
    }
}

/// The number of bytes that UTF-8 takes for `c` (`char::len_utf8`).
pub open spec fn char_utf8_len(c: char) -> nat {
    let u = c as u32;
    if u < 0x80 {
        1
    } else if u < 0x800 {
        2
    } else if u < 0x10000 {
        3
    } else {
        4
    }
}

/// The length in bytes of the UTF-8 encoding of `s` (`str::len`).
pub open spec fn utf8_len(s: Seq<char>) -> nat
    decreases s.len(),
{
    if s.len() == 0 {
        0
    } else {
        utf8_len(s.drop_last()) + char_utf8_len(s.last())
    }
}

proof fn lemma_char_utf8_len_is_encoding_len(c: char)
    ensures
        char_utf8_len(c) == vstd::utf8::encode_scalar(c as u32).len(),
{
    vstd::utf8::char_is_scalar(c);
}

proof fn lemma_encode_utf8_len_last(s: Seq<char>)
    requires
        s.len() > 0,
    ensures
        vstd::utf8::encode_utf8(s).len() == vstd::utf8::encode_utf8(s.drop_last()).len()
            + vstd::utf8::encode_scalar(s.last() as u32).len(),
    decreases s.len(),
{
    let e = vstd::utf8::encode_scalar(s[0] as u32);
    assert(vstd::utf8::encode_utf8(s) == e + vstd::utf8::encode_utf8(s.drop_first()));
    if s.len() == 1 {
        assert(vstd::utf8::encode_utf8(s.drop_first()) == Seq::<u8>::empty());
        assert(vstd::utf8::encode_utf8(s.drop_last()) == Seq::<u8>::empty());
    } else {
        lemma_encode_utf8_len_last(s.drop_first());
        assert(s.drop_last().drop_first() =~= s.drop_first().drop_last());
        assert(s.drop_first().last() == s.last());
        assert(s.drop_last()[0] == s[0]);
        assert(vstd::utf8::encode_utf8(s.drop_last()) == e + vstd::utf8::encode_utf8(
            s.drop_last().drop_first(),
        ));
    }
}

/// `utf8_len` is the length of the UTF-8 encoding of the text, byte for byte.
pub proof fn law_utf8_len_is_encoding_len(s: Seq<char>)
    ensures
        utf8_len(s) == vstd::utf8::encode_utf8(s).len(),
    decreases s.len(),
{
    if s.len() > 0 {
        law_utf8_len_is_encoding_len(s.drop_last());
        lemma_encode_utf8_len_last(s);
        lemma_char_utf8_len_is_encoding_len(s.last());
    }
}

// ---------------------------------------------------------------------------
// Executable helpers
// ---------------------------------------------------------------------------

/// Appends one character to a `String` (`String::push`).
#[verifier::external_body]
pub(crate) fn push_char(s: &mut String, c: char)
    ensures
        final(s)@ == old(s)@.push(c),
{
    s.push(c);
}

/// The characters of `s`, in order.
pub fn chars_of(s: &str) -> (out: Vec<char>)
    ensures
        out@ == s@,
{
    let mut out: Vec<char> = Vec::new();
    for c in it: s.chars()
        invariant
            out@ == it.seq().take(it.index() as int),
    {
        out.push(c);
    }
    out
}

/// The string made of `chars[from..to]`.
pub fn string_from_chars(chars: &Vec<char>, from: usize, to: usize) -> (s: String)
    requires
        from <= to <= chars.len(),
    ensures
        s@ == chars@.subrange(from as int, to as int),
{
    let mut s = String::new();
    let mut i = from;
    while i < to
        invariant
            from <= i <= to <= chars.len(),
            s@ == chars@.subrange(from as int, i as int),
        decreases to - i,
    {
        push_char(&mut s, chars[i]);
        assert(chars@.subrange(from as int, i + 1) == chars@.subrange(from as int, i as int).push(
            chars@[i as int],
        ));
        i = i + 1;
    }
    s
}

/// A copy of `s` as an owned `String`.
pub fn owned(s: &str) -> (r: String)
    ensures
        r@ == s@,
{
    String::from_str(s)
}

/// `s1 + s2` as a new `String`.
pub fn concat(s1: &str, s2: &str) -> (r: String)
    ensures
        r@ == s1@ + s2@,
{
    let mut r = String::from_str(s1);
    r.append(s2);
    r
}

pub fn is_unicode_whitespace_char(c: char) -> (b: bool)
    ensures
        b == is_unicode_whitespace(c),
{
    let u = c as u32;
    (0x09 <= u && u <= 0x0d) || u == 0x20 || u == 0x85 || u == 0xa0 || u == 0x1680 || (0x2000
        <= u && u <= 0x200a) || u == 0x2028 || u == 0x2029 || u == 0x202f || u == 0x205f || u
        == 0x3000
}

pub fn is_ascii_whitespace_char(c: char) -> (b: bool)
    ensures
        b == is_ascii_whitespace(c),
{
    c == ' ' || c == '\t' || c == '\n' || c == '\x0C' || c == '\r'
}

pub fn is_ascii_alphanumeric_char(c: char) -> (b: bool)
    ensures
        b == is_ascii_alphanumeric(c),
{
    ('0' <= c && c <= '9') || ('A' <= c && c <= 'Z') || ('a' <= c && c <= 'z')
}

pub fn is_ascii_hexdigit_char(c: char) -> (b: bool)
    ensures
        b == is_ascii_hexdigit(c),
{
    ('0' <= c && c <= '9') || ('a' <= c && c <= 'f') || ('A' <= c && c <= 'F')
}

pub fn ascii_upper_char(c: char) -> (r: char)
    ensures
        r == ascii_upper(c),
{
    if 'a' <= c && c <= 'z' {
        let u = (c as u32) - 32;
        let r = u as u8 as char;
        assert(r as u32 == u);
        r
    } else {
        c
    }
}

pub fn ascii_lower_char(c: char) -> (r: char)
    ensures
        r == ascii_lower(c),
{
    if 'A' <= c && c <= 'Z' {
        let u = (c as u32) + 32;
        let r = u as u8 as char;
        assert(r as u32 == u);
        r
    } else {
        c
    }
}

/// Every character of `s` is Unicode whitespace (`s.trim().is_empty()`).
pub fn is_blank(s: &str) -> (b: bool)
    ensures
        b == all_whitespace(s@),
        b == (trim(s@).len() == 0),
{
    proof {
        lemma_trim_edges(s@);
    }
    let chars = chars_of(s);
    let mut i: usize = 0;
    while i < chars.len()
        invariant
            i <= chars.len(),
            chars@ == s@,
            forall|j: int| 0 <= j < i ==> is_unicode_whitespace(#[trigger] chars@[j]),
        decreases chars.len() - i,
    {
        if !is_unicode_whitespace_char(chars[i]) {
            assert(!all_whitespace(s@)) by {
                assert(!is_unicode_whitespace(s@[i as int]));
            }
            proof {
                lemma_trim_edges(s@);
            }
            return false;
        }
        i = i + 1;
    }
    true
}

/// The indices between which `str::trim` keeps the characters of `chars`.
pub fn trim_range(chars: &Vec<char>) -> (r: (usize, usize))
    ensures
        r.0 <= r.1 <= chars.len(),
        trim(chars@) == chars@.subrange(r.0 as int, r.1 as int),
{
    let mut a: usize = 0;
    while a < chars.len() && is_unicode_whitespace_char(chars[a])
        invariant
            a <= chars.len(),
            forall|j: int| 0 <= j < a ==> is_unicode_whitespace(#[trigger] chars@[j]),
        decreases chars.len() - a,
    {
        a = a + 1;
    }
    let mut b: usize = chars.len();
    while b > a && is_unicode_whitespace_char(chars[b - 1])
        invariant
            a <= b <= chars.len(),
            forall|j: int| b <= j < chars.len() ==> is_unicode_whitespace(#[trigger] chars@[j]),
        decreases b,
    {
        b = b - 1;
    }
    proof {
        lemma_trim_bounds(chars@, a as int, b as int);
    }
    (a, b)
}

/// Whether the UTF-8 encoding of `s` is longer than `limit` bytes
/// (`s.len() > limit`).
pub fn utf8_len_exceeds(s: &str, limit: usize) -> (b: bool)
    ensures
        b == (utf8_len(s@) > limit),
{
    let chars = chars_of(s);
    let mut total: usize = 0;
    let mut i: usize = 0;
    while i < chars.len()
        invariant
            i <= chars.len(),
            chars@ == s@,
            total == utf8_len(chars@.take(i as int)),
            total <= limit,
        decreases chars.len() - i,
    {
        let u = chars[i] as u32;
        let w: usize = if u < 0x80 {
            1
        } else if u < 0x800 {
            2
        } else if u < 0x10000 {
            3
        } else {
            4
        };
        assert(chars@.take(i + 1).drop_last() == chars@.take(i as int));
        if w > limit - total {
            proof {
                lemma_utf8_len_prefix(chars@, i + 1);
            }
            return true;
        }
        total = total + w;
        i = i + 1;
    }
    assert(chars@.take(i as int) == chars@);
    false
}

/// A prefix takes no more bytes than the whole.
pub proof fn lemma_utf8_len_prefix(s: Seq<char>, k: int)
    requires
        0 <= k <= s.len(),
    ensures
        utf8_len(s.take(k)) <= utf8_len(s),
    decreases s.len() - k,
{
    if k < s.len() {
        lemma_utf8_len_prefix(s.drop_last(), k);
        assert(s.drop_last().take(k) == s.take(k));
    } else {
        assert(s.take(k) == s);
    }
}

/// `s.trim().to_string()`.
pub fn trim_to_string(s: &str) -> (r: String)
    ensures
        r@ == trim(s@),
{
    let chars = chars_of(s);
    let (a, b) = trim_range(&chars);
    string_from_chars(&chars, a, b)
}

/// `s.trim_start_matches(c)`, as characters.
pub fn trim_start_char_chars(chars: &Vec<char>, c: char) -> (r: usize)
    ensures
        r <= chars.len(),
        trim_start_char(chars@, c) == chars@.skip(r as int),
{
    let mut i: usize = 0;
    assert(chars@.skip(0) == chars@);
    while i < chars.len() && chars[i] == c
        invariant
            i <= chars.len(),
            trim_start_char(chars@, c) == trim_start_char(chars@.skip(i as int), c),
        decreases chars.len() - i,
    {
        assert(chars@.skip(i as int).drop_first() == chars@.skip(i + 1));
        i = i + 1;
    }
    assert(trim_start_char(chars@.skip(i as int), c) == chars@.skip(i as int));
    i
}

/// `hay.contains(needle)` on character sequences.
pub fn contains_chars(hay: &Vec<char>, needle: &Vec<char>) -> (b: bool)
    ensures
        b == contains_seq(hay@, needle@),
{
    if needle.len() > hay.len() {
        return false;
    }
    let last = hay.len() - needle.len();
    let mut i: usize = 0;
    while i <= last
        invariant
            last == hay.len() - needle.len(),
            needle.len() <= hay.len(),
            i <= last + 1,
            forall|k: int|
                0 <= k < i ==> #[trigger] hay@.subrange(k, k + needle.len()) != needle@,
        decreases last + 1 - i,
    {
        let mut j: usize = 0;
        let mut matched = true;
        while j < needle.len()
            invariant
                j <= needle.len(),
                i <= last,
                last == hay.len() - needle.len(),
                matched == (forall|t: int| 0 <= t < j ==> hay@[i + t] == needle@[t]),
            decreases needle.len() - j,
        {
            if hay[i + j] != needle[j] {
                matched = false;
            }
            j = j + 1;
        }
        if matched {
            assert(hay@.subrange(i as int, i + needle.len()) == needle@);
            return true;
        }
        assert(hay@.subrange(i as int, i + needle.len()) != needle@) by {
            let t = choose|t: int| 0 <= t < needle.len() && hay@[i + t] != needle@[t];
            assert(hay@.subrange(i as int, i + needle.len())[t] == hay@[i + t]);
        }
        i = i + 1;
    }
    false
}

/// `str::eq_ignore_ascii_case` on strings held as characters.
pub fn eq_ignore_ascii_case_chars(a: &Vec<char>, b: &Vec<char>) -> (r: bool)
    ensures
        r == eq_ignore_ascii_case(a@, b@),
{
    if a.len() != b.len() {
        return false;
    }
    let mut i: usize = 0;
    while i < a.len()
        invariant
            i <= a.len(),
            a.len() == b.len(),
            forall|j: int| 0 <= j < i ==> ascii_lower(#[trigger] a@[j]) == ascii_lower(b@[j]),
        decreases a.len() - i,
    {
        if ascii_lower_char(a[i]) != ascii_lower_char(b[i]) {
            return false;
        }
        i = i + 1;
    }
    true
}

/// `a < b` for strings held as characters.
pub fn chars_lt(a: &Vec<char>, b: &Vec<char>) -> (r: bool)
    ensures
        r == seq_lt(a@, b@),
{
    let mut i: usize = 0;
    assert(a@.skip(0) == a@);
    assert(b@.skip(0) == b@);
    while i < a.len() && i < b.len() && a[i] == b[i]
        invariant
            i <= a.len(),
            i <= b.len(),
            seq_lt(a@, b@) == seq_lt(a@.skip(i as int), b@.skip(i as int)),
        decreases a.len() - i,
    {
        assert(a@.skip(i as int).drop_first() == a@.skip(i + 1));
        assert(b@.skip(i as int).drop_first() == b@.skip(i + 1));
        i = i + 1;
    }
    if i == a.len() {
        i < b.len()
    } else if i == b.len() {
        false
    } else {
        a[i] < b[i]
    }
}

/// `a == b` for strings held as characters.
pub fn chars_eq(a: &Vec<char>, b: &Vec<char>) -> (r: bool)
    ensures
        r == (a@ == b@),
{
    if a.len() != b.len() {
        return false;
    }
    let mut i: usize = 0;
    while i < a.len()
        invariant
            i <= a.len(),
            a.len() == b.len(),
            forall|j: int| 0 <= j < i ==> a@[j] == b@[j],
        decreases a.len() - i,
    {
        if a[i] != b[i] {
            return false;
        }
        i = i + 1;
    }
    assert(a@ == b@);
    true
}

fn digit_to_char(d: u64) -> (c: char)
    requires
        d < 16,
    ensures
        c == hex_digit_char(d as int),
{
    let v: u8 = if d < 10 {
        (d as u8) + 48
    } else {
        (d as u8) - 10 + 97
    };
    let c = v as char;
    assert(c as u32 == v as u32);
    c
}

/// `n` written in `base` (2 to 10) as `format!` writes it.
pub fn format_in_base(n: u64, base: u64) -> (s: String)
    requires
        2 <= base <= 10,
    ensures
        s@ == digits_in_base(n as nat, base as nat),
    decreases n,
{
    if n < base {
        let mut s = String::new();
        push_char(&mut s, digit_to_char(n));
        assert(s@ == seq![digit_char(n as int)]);
        s
    } else {
        assert(n / base < n) by (nonlinear_arith)
            requires
                base >= 2,
                n >= base,
        ;
        let mut s = format_in_base(n / base, base);
        push_char(&mut s, digit_to_char(n % base));
        s
    }
}

/// `format!("{n}")`.
pub fn format_decimal(n: u64) -> (s: String)
    ensures
        s@ == decimal(n as nat),
{
    format_in_base(n, 10)
}

/// `format!("{n:o}")`.
pub fn format_octal(n: u64) -> (s: String)
    ensures
        s@ == octal(n as nat),
{
    format_in_base(n, 8)
}

/// Each byte as two lower-case hexadecimal digits, in order.
pub open spec fn hex_string(bytes: Seq<u8>) -> Seq<char>
    decreases bytes.len(),
{
    if bytes.len() == 0 {
        seq![]
    } else {
        hex_string(bytes.drop_last()) + hex_byte(bytes.last())
    }
}

/// The value of a lower-case hexadecimal digit.
pub open spec fn hex_digit_value(c: char) -> int {
    if '0' <= c <= '9' {
        c as int - '0' as int
    } else {
        c as int - 'a' as int + 10
    }
}

proof fn lemma_hex_byte_read_back(b: u8)
    ensures
        hex_byte(b).len() == 2,
        hex_digit_value(hex_byte(b)[0]) * 16 + hex_digit_value(hex_byte(b)[1]) == b as int,
        forall|k: int|
            0 <= k < 2 ==> ('0' <= #[trigger] hex_byte(b)[k] <= '9' || 'a' <= hex_byte(b)[k] <= 'f'),
{
}

/// `hex_string(bytes)` holds two lower-case hexadecimal digits per byte, and
/// the pair at `2 * i` reads back as the byte at `i`.
pub proof fn law_hex_string_read_back(bytes: Seq<u8>)
    ensures
        hex_string(bytes).len() == 2 * bytes.len(),
        forall|i: int|
            0 <= i < bytes.len() ==> hex_digit_value(hex_string(bytes)[2 * i]) * 16
                + hex_digit_value(hex_string(bytes)[2 * i + 1]) == (#[trigger] bytes[i]) as int,
        forall|k: int|
            0 <= k < hex_string(bytes).len() ==> ('0' <= #[trigger] hex_string(bytes)[k] <= '9' || 'a'
                <= hex_string(bytes)[k] <= 'f'),
    decreases bytes.len(),
{
    if bytes.len() > 0 {
        let init = bytes.drop_last();
        law_hex_string_read_back(init);
        lemma_hex_byte_read_back(bytes.last());
        let h = hex_string(bytes);
        let hi = hex_string(init);
        let hb = hex_byte(bytes.last());
        assert(h == hi + hb);
        assert forall|i: int| 0 <= i < bytes.len() implies hex_digit_value(h[2 * i]) * 16
            + hex_digit_value(h[2 * i + 1]) == (#[trigger] bytes[i]) as int by {
            if i < init.len() {
                assert(h[2 * i] == hi[2 * i]);
                assert(h[2 * i + 1] == hi[2 * i + 1]);
                assert(bytes[i] == init[i]);
            } else {
                assert(h[2 * i] == hb[0]);
                assert(h[2 * i + 1] == hb[1]);
            }
        }
        assert forall|k: int| 0 <= k < h.len() implies ('0' <= #[trigger] h[k] <= '9' || 'a' <= h[k]
            <= 'f') by {
            if k < hi.len() {
                assert(h[k] == hi[k]);
            } else {
                assert(h[k] == hb[k - hi.len()]);
            }
        }
    }
}

/// Each byte as two lower-case hexadecimal digits, in order.
pub fn hex_encode(bytes: &[u8]) -> (s: String)
    ensures
        s@ == hex_string(bytes@),
{
    let mut s = String::new();
    let mut i: usize = 0;
    while i < bytes.len()
        invariant
            i <= bytes.len(),
            s@ == hex_string(bytes@.take(i as int)),
        decreases bytes.len() - i,
    {
        assert(bytes@.take(i + 1).drop_last() == bytes@.take(i as int));
        push_hex_byte(&mut s, bytes[i]);
        i = i + 1;
    }
    assert(bytes@.take(bytes.len() as int) == bytes@);
    s
}

/// Appends `format!("{b:02x}")` to `s`.
pub fn push_hex_byte(s: &mut String, b: u8)
    ensures
        final(s)@ == old(s)@ + hex_byte(b),
{
    let hi = digit_to_char((b / 16) as u64);
    let lo = digit_to_char((b % 16) as u64);
    push_char(s, hi);
    push_char(s, lo);
}

} // verus!
