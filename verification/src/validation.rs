//! Light-weight checks shared by the configuration and the node registry:
//! non-empty fields, identifiers, tag lists and the normal form of a list of
//! strings.
use vstd::prelude::*;
use vstd::string::StringExecFns;

use crate::text::{
    all_whitespace, chars_eq, chars_lt, chars_of, decimal, format_decimal, is_ascii_alphanumeric,
    is_ascii_alphanumeric_char, is_blank, lemma_seq_lt_asymmetric, lemma_seq_lt_total,
    lemma_seq_lt_transitive, lemma_trim_idempotent, lemma_trim_whitespace_padding, owned, seq_lt, trim, trim_to_string, utf8_len,
    utf8_len_exceeds,
};

verus! {

/// The longest identifier accepted, in bytes.
pub const IDENTIFIER_MAX_CHARS: usize = 128;

/// A check that failed, with the message that says why.
#[derive(Debug, Clone)]
pub struct ValidationError {
    message: String,
}

impl View for ValidationError {
    type V = Seq<char>;

    closed spec fn view(&self) -> Seq<char> {
        self.message@
    }
}

impl ValidationError {
    pub fn new(message: String) -> (e: Self)
        ensures
            e@ == message@,
    {
        ValidationError { message }
    }

    /// The message, as `Display` writes it.
    pub fn message(&self) -> (m: &str)
        ensures
            m@ == self@,
    {
        self.message.as_str()
    }

    /// The message as an owned string (what `to_string` gives).
    pub fn to_message_string(&self) -> (m: String)
        ensures
            m@ == self@,
    {
        self.message.clone()
    }
}

impl PartialEq for ValidationError {
    fn eq(&self, other: &Self) -> (r: bool) {
        self.message == other.message
    }
}

impl vstd::std_specs::cmp::PartialEqSpecImpl for ValidationError {
    open spec fn obeys_eq_spec() -> bool {
        true
    }

    open spec fn eq_spec(&self, other: &Self) -> bool {
        self@ == other@
    }
}

impl Eq for ValidationError {

}

// ---------------------------------------------------------------------------
// Messages
// ---------------------------------------------------------------------------

pub open spec fn msg_empty(field: Seq<char>) -> Seq<char> {
    field + " must not be empty"@
}

pub open spec fn msg_identifier_too_long(field: Seq<char>) -> Seq<char> {
    field + " must be <= 128 characters"@
}

pub open spec fn msg_identifier_charset(field: Seq<char>) -> Seq<char> {
    field + " must use only ASCII letters, numbers, '-', '_' or '.'"@
}

pub open spec fn msg_too_many_tags(field: Seq<char>, max_tags: nat) -> Seq<char> {
    field + " must contain at most "@ + decimal(max_tags) + " tags"@
}

pub open spec fn msg_tag_too_long(field: Seq<char>, index: nat, max_tag_bytes: nat) -> Seq<char> {
    field + "["@ + decimal(index) + "] must be <= "@ + decimal(max_tag_bytes) + " bytes"@
}

// ---------------------------------------------------------------------------
// What each check rejects
// ---------------------------------------------------------------------------

pub open spec fn is_identifier_char(c: char) -> bool {
    is_ascii_alphanumeric(c) || c == '-' || c == '_' || c == '.'
}

/// The error of `validate_non_empty`, if any.
pub open spec fn non_empty_error(field: Seq<char>, value: Seq<char>) -> Option<Seq<char>> {
    if all_whitespace(value) {
        Some(msg_empty(field))
    } else {
        None
    }
}

/// The error of `validate_identifier`, if any: the first of blank, longer than
/// 128 bytes, or holding a character other than ASCII letters, digits, `-`,
/// `_` and `.`.
pub open spec fn identifier_error(field: Seq<char>, value: Seq<char>) -> Option<Seq<char>> {
    if all_whitespace(value) {
        Some(msg_empty(field))
    } else if utf8_len(value) > IDENTIFIER_MAX_CHARS {
        Some(msg_identifier_too_long(field))
    } else if !(forall|i: int| 0 <= i < value.len() ==> is_identifier_char(#[trigger] value[i])) {
        Some(msg_identifier_charset(field))
    } else {
        None
    }
}

/// The value at `i` is the first one longer than `max_tag_bytes` bytes.
pub open spec fn first_long_tag(values: Seq<Seq<char>>, max_tag_bytes: nat, i: int) -> bool {
    &&& 0 <= i < values.len()
    &&& utf8_len(values[i]) > max_tag_bytes
    &&& forall|j: int| 0 <= j < i ==> utf8_len(#[trigger] values[j]) <= max_tag_bytes
}

/// The error of `validate_tag_list`, if any: too many tags, or else the first
/// tag that is too long.
pub open spec fn tag_list_error(
    field: Seq<char>,
    values: Seq<Seq<char>>,
    max_tags: nat,
    max_tag_bytes: nat,
) -> Option<Seq<char>> {
    if values.len() > max_tags {
        Some(msg_too_many_tags(field, max_tags))
    } else if exists|i: int| #[trigger] first_long_tag(values, max_tag_bytes, i) {
        let i = choose|i: int| #[trigger] first_long_tag(values, max_tag_bytes, i);
        Some(msg_tag_too_long(field, i as nat, max_tag_bytes))
    } else {
        None
    }
}

/// The views of a sequence of strings.
pub open spec fn string_views(v: Seq<String>) -> Seq<Seq<char>> {
    v.map_values(|s: String| s@)
}

/// Sorted in increasing order with no value twice.
pub open spec fn strictly_sorted(s: Seq<Seq<char>>) -> bool {
    forall|i: int, j: int| 0 <= i < j < s.len() ==> seq_lt(#[trigger] s[i], #[trigger] s[j])
}

/// `t` is what some value of `values` trims to, and it is not empty.
pub open spec fn kept_value(values: Seq<Seq<char>>, t: Seq<char>) -> bool {
    t.len() > 0 && exists|i: int| 0 <= i < values.len() && #[trigger] trim(values[i]) == t
}

/// `out` is the normal form of `values`: the values trimmed, the empty ones
/// dropped, sorted, and each kept once.
pub open spec fn is_normalized_list(values: Seq<Seq<char>>, out: Seq<Seq<char>>) -> bool {
    &&& strictly_sorted(out)
    &&& forall|t: Seq<char>| #[trigger] out.contains(t) <==> kept_value(values, t)
}

// ---------------------------------------------------------------------------
// Checks
// ---------------------------------------------------------------------------

/// Refuses a value that is empty or only whitespace.
pub fn validate_non_empty(field: &str, value: &str) -> (r: Result<(), ValidationError>)
    ensures
        r is Err <==> non_empty_error(field@, value@) is Some,
        r matches Err(e) ==> Some(e@) == non_empty_error(field@, value@),
{
    if is_blank(value) {
        let mut message = owned(field);
        message.append(" must not be empty");
        return Err(ValidationError::new(message));
    }
    Ok(())
}

/// Refuses a value that is blank, longer than 128 bytes, or holds a character
/// other than ASCII letters, digits, `-`, `_` and `.`.
pub fn validate_identifier(field: &str, value: &str) -> (r: Result<(), ValidationError>)
    ensures
        r is Err <==> identifier_error(field@, value@) is Some,
        r matches Err(e) ==> Some(e@) == identifier_error(field@, value@),
{
    match validate_non_empty(field, value) {
        Err(e) => return Err(e),
        Ok(()) => {},
    }
    if utf8_len_exceeds(value, IDENTIFIER_MAX_CHARS) {
        let mut message = owned(field);
        message.append(" must be <= 128 characters");
        return Err(ValidationError::new(message));
    }
    let chars = chars_of(value);
    let mut i: usize = 0;
    while i < chars.len()
        invariant
            i <= chars.len(),
            chars@ == value@,
            !all_whitespace(value@),
            utf8_len(value@) <= IDENTIFIER_MAX_CHARS,
            forall|j: int| 0 <= j < i ==> is_identifier_char(#[trigger] chars@[j]),
        decreases chars.len() - i,
    {
        let c = chars[i];
        if !(is_ascii_alphanumeric_char(c) || c == '-' || c == '_' || c == '.') {
            let mut message = owned(field);
            message.append(" must use only ASCII letters, numbers, '-', '_' or '.'");
            assert(!is_identifier_char(value@[i as int]));
            return Err(ValidationError::new(message));
        }
        i = i + 1;
    }
    Ok(())
}

/// Refuses a list of more than `max_tags` tags, or one with a tag longer than
/// `max_tag_bytes` bytes (the first such tag is named by its index).
pub fn validate_tag_list(
    field: &str,
    values: &[String],
    max_tags: usize,
    max_tag_bytes: usize,
) -> (r: Result<(), ValidationError>)
    ensures
        r is Err <==> tag_list_error(
            field@,
            string_views(values@),
            max_tags as nat,
            max_tag_bytes as nat,
        ) is Some,
        r matches Err(e) ==> Some(e@) == tag_list_error(
            field@,
            string_views(values@),
            max_tags as nat,
            max_tag_bytes as nat,
        ),
{
    let ghost views = string_views(values@);
    if values.len() > max_tags {
        let mut message = owned(field);
        message.append(" must contain at most ");
        message.append(format_decimal(max_tags as u64).as_str());
        message.append(" tags");
        return Err(ValidationError::new(message));
    }
    let mut i: usize = 0;
    while i < values.len()
        invariant
            i <= values.len(),
            values.len() <= max_tags,
            views == string_views(values@),
            forall|j: int| 0 <= j < i ==> utf8_len(#[trigger] views[j]) <= max_tag_bytes,
        decreases values.len() - i,
    {
        if utf8_len_exceeds(values[i].as_str(), max_tag_bytes) {
            assert(first_long_tag(views, max_tag_bytes as nat, i as int));
            let ghost k = choose|k: int| #[trigger] first_long_tag(views, max_tag_bytes as nat, k);
            assert(k == i) by {
                if k < i {
                    assert(utf8_len(views[k]) <= max_tag_bytes);
                } else if k > i {
                    assert(utf8_len(views[i as int]) <= max_tag_bytes);
                }
            }
            let mut message = owned(field);
            message.append("[");
            message.append(format_decimal(i as u64).as_str());
            message.append("] must be <= ");
            message.append(format_decimal(max_tag_bytes as u64).as_str());
            message.append(" bytes");
            return Err(ValidationError::new(message));
        }
        i = i + 1;
    }
    assert(!exists|k: int| #[trigger] first_long_tag(views, max_tag_bytes as nat, k));
    Ok(())
}

proof fn lemma_kept_value_step(vs: Seq<Seq<char>>, i: int, x: Seq<char>)
    requires
        0 <= i < vs.len(),
    ensures
        kept_value(vs.take(i + 1), x) <==> (kept_value(vs.take(i), x) || (x == trim(vs[i])
            && x.len() > 0)),
{
    if kept_value(vs.take(i + 1), x) {
        let k = choose|k: int| 0 <= k < i + 1 && #[trigger] trim(vs.take(i + 1)[k]) == x;
        if k < i {
            assert(vs.take(i)[k] == vs.take(i + 1)[k]);
        }
    }
    if kept_value(vs.take(i), x) {
        let k = choose|k: int| 0 <= k < i && #[trigger] trim(vs.take(i)[k]) == x;
        assert(vs.take(i + 1)[k] == vs.take(i)[k]);
    }
    if x == trim(vs[i]) && x.len() > 0 {
        assert(vs.take(i + 1)[i] == vs[i]);
    }
}

proof fn lemma_insert_sorted(s: Seq<Seq<char>>, p: int, t: Seq<char>)
    requires
        strictly_sorted(s),
        0 <= p <= s.len(),
        forall|k: int| 0 <= k < p ==> seq_lt(#[trigger] s[k], t),
        p < s.len() ==> seq_lt(t, s[p]),
    ensures
        strictly_sorted(s.insert(p, t)),
{
    let r = s.insert(p, t);
    assert forall|i: int, j: int| 0 <= i < j < r.len() implies seq_lt(#[trigger] r[i], #[trigger] r[j]) by {
        if j < p {
            assert(r[i] == s[i] && r[j] == s[j]);
        } else if j == p {
            assert(r[i] == s[i] && r[j] == t);
        } else if i < p {
            assert(r[i] == s[i] && r[j] == s[j - 1]);
            assert(seq_lt(s[p], s[j - 1]) || p == j - 1);
            lemma_seq_lt_transitive(s[i], t, s[p]);
            if p < j - 1 {
                lemma_seq_lt_transitive(s[i], s[p], s[j - 1]);
            }
        } else if i == p {
            assert(r[i] == t && r[j] == s[j - 1]);
            if p < j - 1 {
                lemma_seq_lt_transitive(t, s[p], s[j - 1]);
            }
        } else {
            assert(r[i] == s[i - 1] && r[j] == s[j - 1]);
        }
    }
}

/// Trims every value, drops the empty ones, sorts what is left and keeps each
/// value once.
pub fn normalize_string_list(values: Vec<String>) -> (out: Vec<String>)
    ensures
        is_normalized_list(string_views(values@), string_views(out@)),
{
    let ghost vs = string_views(values@);
    let mut out: Vec<String> = Vec::new();
    let mut i: usize = 0;
    assert(string_views(out@) =~= Seq::<Seq<char>>::empty());
    while i < values.len()
        invariant
            i <= values.len(),
            vs == string_views(values@),
            strictly_sorted(string_views(out@)),
            forall|x: Seq<char>| #[trigger]
                string_views(out@).contains(x) <==> kept_value(vs.take(i as int), x),
        decreases values.len() - i,
    {
        let ghost ov = string_views(out@);
        let t = trim_to_string(values[i].as_str());
        let tc = chars_of(t.as_str());
        proof {
            assert(vs[i as int] == values@[i as int]@);
            assert forall|x: Seq<char>|
                kept_value(vs.take(i + 1), x) <==> (kept_value(vs.take(i as int), x) || (x
                    == trim(vs[i as int]) && x.len() > 0)) by {
                lemma_kept_value_step(vs, i as int, x);
            }
        }
        if tc.len() > 0 {
            let mut p: usize = 0;
            let mut found = false;
            while p < out.len()
                invariant_except_break
                    !found,
                    forall|k: int| 0 <= k < p ==> seq_lt(#[trigger] ov[k], t@),
                invariant
                    p <= out.len(),
                    ov == string_views(out@),
                    tc@ == t@,
                ensures
                    p <= out.len(),
                    found ==> p < out.len() && ov[p as int] == t@,
                    !found ==> forall|k: int| 0 <= k < p ==> seq_lt(#[trigger] ov[k], t@),
                    !found ==> p < out.len() ==> seq_lt(t@, ov[p as int]),
                decreases out.len() - p,
            {
                let oc = chars_of(out[p].as_str());
                assert(oc@ == ov[p as int]);
                if chars_lt(&oc, &tc) {
                    p = p + 1;
                } else {
                    proof {
                        lemma_seq_lt_total(oc@, tc@);
                    }
                    if chars_eq(&oc, &tc) {
                        found = true;
                    }
                    break;
                }
            }
            if !found {
                proof {
                    lemma_insert_sorted(ov, p as int, t@);
                }
                out.insert(p, t);
                proof {
                    assert(string_views(out@) =~= ov.insert(p as int, t@));
                    assert forall|x: Seq<char>| #[trigger]
                        string_views(out@).contains(x) <==> kept_value(vs.take(i + 1), x) by {
                        let nv = string_views(out@);
                        if nv.contains(x) {
                            let k = choose|k: int| 0 <= k < nv.len() && nv[k] == x;
                            if k < p {
                                assert(ov[k] == x);
                                assert(ov.contains(x));
                            } else if k > p {
                                assert(ov[k - 1] == x);
                                assert(ov.contains(x));
                            }
                        }
                        if ov.contains(x) {
                            let k = choose|k: int| 0 <= k < ov.len() && ov[k] == x;
                            if k < p {
                                assert(nv[k] == x);
                            } else {
                                assert(nv[k + 1] == x);
                            }
                        }
                        if x == t@ {
                            assert(nv[p as int] == x);
                        }
                    }
                }
            } else {
                proof {
                    assert forall|x: Seq<char>| #[trigger]
                        string_views(out@).contains(x) <==> kept_value(vs.take(i + 1), x) by {
                        if x == t@ {
                            assert(ov[p as int] == x);
                        }
                    }
                }
            }
        } else {
            proof {
                assert forall|x: Seq<char>| #[trigger]
                    string_views(out@).contains(x) <==> kept_value(vs.take(i + 1), x) by {}
            }
        }
        i = i + 1;
    }
    assert(vs.take(values.len() as int) == vs);
    out
}

// ---------------------------------------------------------------------------
// Laws of the normal form
// ---------------------------------------------------------------------------

proof fn lemma_sorted_unique(a: Seq<Seq<char>>, b: Seq<Seq<char>>)
    requires
        strictly_sorted(a),
        strictly_sorted(b),
        forall|t: Seq<char>| a.contains(t) <==> b.contains(t),
    ensures
        a == b,
    decreases a.len() + b.len(),
{
    if a.len() == 0 {
        if b.len() > 0 {
            assert(b.contains(b[0]));
        }
        assert(a =~= b);
    } else if b.len() == 0 {
        assert(a.contains(a[0]));
    } else {
        assert(a.contains(a[0]));
        let k = choose|k: int| 0 <= k < b.len() && b[k] == a[0];
        assert(b.contains(b[0]));
        let m = choose|m: int| 0 <= m < a.len() && a[m] == b[0];
        if k > 0 {
            assert(seq_lt(b[0], b[k]));
            if m > 0 {
                assert(seq_lt(a[0], a[m]));
                lemma_seq_lt_asymmetric(a[0], a[m]);
            } else {
                lemma_seq_lt_asymmetric(b[0], b[k]);
            }
        }
        assert(a[0] == b[0]);
        let a1 = a.drop_first();
        let b1 = b.drop_first();
        assert forall|t: Seq<char>| a1.contains(t) <==> b1.contains(t) by {
            if a1.contains(t) {
                let i = choose|i: int| 0 <= i < a1.len() && a1[i] == t;
                assert(a[i + 1] == t);
                assert(a.contains(t));
                let j = choose|j: int| 0 <= j < b.len() && b[j] == t;
                if j == 0 {
                    assert(seq_lt(a[0], a[i + 1]));
                    lemma_seq_lt_asymmetric(a[0], a[i + 1]);
                }
                assert(b1[j - 1] == t);
            }
            if b1.contains(t) {
                let i = choose|i: int| 0 <= i < b1.len() && b1[i] == t;
                assert(b[i + 1] == t);
                assert(b.contains(t));
                let j = choose|j: int| 0 <= j < a.len() && a[j] == t;
                if j == 0 {
                    assert(seq_lt(b[0], b[i + 1]));
                    lemma_seq_lt_asymmetric(b[0], b[i + 1]);
                }
                assert(a1[j - 1] == t);
            }
        }
        lemma_sorted_unique(a1, b1);
        assert(a =~= seq![a[0]] + a1);
        assert(b =~= seq![b[0]] + b1);
    }
}

/// The normal form of a list is determined by the list: any two lists that
/// are both the normal form of `values` are the same.
pub proof fn law_normal_form_unique(values: Seq<Seq<char>>, out1: Seq<Seq<char>>, out2: Seq<Seq<char>>)
    requires
        is_normalized_list(values, out1),
        is_normalized_list(values, out2),
    ensures
        out1 == out2,
{
    assert forall|t: Seq<char>| out1.contains(t) <==> out2.contains(t) by {
        assert(out1.contains(t) <==> kept_value(values, t));
        assert(out2.contains(t) <==> kept_value(values, t));
    }
    lemma_sorted_unique(out1, out2);
}

/// Every value of a normal form is non-empty and already trimmed.
pub proof fn law_normal_form_values_trimmed(values: Seq<Seq<char>>, out: Seq<Seq<char>>)
    requires
        is_normalized_list(values, out),
    ensures
        forall|k: int| 0 <= k < out.len() ==> (#[trigger] out[k]).len() > 0 && trim(out[k])
            == out[k],
{
    assert forall|k: int| 0 <= k < out.len() implies (#[trigger] out[k]).len() > 0 && trim(out[k])
        == out[k] by {
        assert(out.contains(out[k]));
        assert(kept_value(values, out[k]));
        let i = choose|i: int| 0 <= i < values.len() && #[trigger] trim(values[i]) == out[k];
        lemma_trim_idempotent(values[i]);
    }
}

/// The normal form depends only on what the values trim to: two lists of
/// the same length whose values trim alike, place by place, have the same
/// normal form.
pub proof fn law_normalize_depends_on_trimmed_values(
    a: Seq<Seq<char>>,
    b: Seq<Seq<char>>,
    out_a: Seq<Seq<char>>,
    out_b: Seq<Seq<char>>,
)
    requires
        a.len() == b.len(),
        forall|i: int| 0 <= i < a.len() ==> trim(#[trigger] a[i]) == trim(b[i]),
        is_normalized_list(a, out_a),
        is_normalized_list(b, out_b),
    ensures
        out_a == out_b,
{
    assert forall|t: Seq<char>| out_a.contains(t) <==> out_b.contains(t) by {
        if kept_value(a, t) {
            let i = choose|i: int| 0 <= i < a.len() && #[trigger] trim(a[i]) == t;
            assert(trim(b[i]) == t);
        }
        if kept_value(b, t) {
            let i = choose|i: int| 0 <= i < b.len() && #[trigger] trim(b[i]) == t;
            assert(trim(a[i]) == t);
        }
        assert(out_a.contains(t) <==> kept_value(a, t));
        assert(out_b.contains(t) <==> kept_value(b, t));
    }
    lemma_sorted_unique(out_a, out_b);
}

/// Padding every value with a space on each side (`format!(" {v} ")`)
/// leaves the normal form unchanged.
pub proof fn law_normalize_ignores_space_padding(
    values: Seq<Seq<char>>,
    out: Seq<Seq<char>>,
    out_padded: Seq<Seq<char>>,
)
    requires
        is_normalized_list(values, out),
        is_normalized_list(values.map_values(|v: Seq<char>| seq![' '] + v + seq![' ']), out_padded),
    ensures
        out_padded == out,
{
    let padded = values.map_values(|v: Seq<char>| seq![' '] + v + seq![' ']);
    assert forall|i: int| 0 <= i < values.len() implies trim(#[trigger] values[i]) == trim(padded[i]) by {
        let sp = seq![' '];
        assert(all_whitespace(sp));
        lemma_trim_whitespace_padding(sp, values[i], sp);
    }
    law_normalize_depends_on_trimmed_values(values, padded, out, out_padded);
}

/// Normalizing a normal form changes nothing.
pub proof fn law_normalize_idempotent(values: Seq<Seq<char>>, once: Seq<Seq<char>>, twice: Seq<Seq<char>>)
    requires
        is_normalized_list(values, once),
        is_normalized_list(once, twice),
    ensures
        twice == once,
{
    law_normal_form_values_trimmed(values, once);
    assert forall|t: Seq<char>| once.contains(t) <==> twice.contains(t) by {
        if once.contains(t) {
            let k = choose|k: int| 0 <= k < once.len() && once[k] == t;
            assert(trim(once[k]) == t);
            assert(kept_value(once, t));
        }
        if twice.contains(t) {
            assert(kept_value(once, t));
            let i = choose|i: int| 0 <= i < once.len() && #[trigger] trim(once[i]) == t;
            assert(trim(once[i]) == once[i]);
        }
    }
    lemma_sorted_unique(once, twice);
}

/// The normal form depends only on which values occur, not on their order or
/// how often they occur.
pub proof fn law_normalize_ignores_order_and_repeats(
    a: Seq<Seq<char>>,
    b: Seq<Seq<char>>,
    out_a: Seq<Seq<char>>,
    out_b: Seq<Seq<char>>,
)
    requires
        a.to_set() == b.to_set(),
        is_normalized_list(a, out_a),
        is_normalized_list(b, out_b),
    ensures
        out_a == out_b,
{
    assert forall|t: Seq<char>| kept_value(a, t) <==> kept_value(b, t) by {
        if kept_value(a, t) {
            let i = choose|i: int| 0 <= i < a.len() && #[trigger] trim(a[i]) == t;
            assert(a.to_set().contains(a[i]));
            assert(b.to_set().contains(a[i]));
            let j = choose|j: int| 0 <= j < b.len() && b[j] == a[i];
            assert(trim(b[j]) == t);
        }
        if kept_value(b, t) {
            let i = choose|i: int| 0 <= i < b.len() && #[trigger] trim(b[i]) == t;
            assert(b.to_set().contains(b[i]));
            assert(a.to_set().contains(b[i]));
            let j = choose|j: int| 0 <= j < a.len() && a[j] == b[i];
            assert(trim(a[j]) == t);
        }
    }
    assert forall|t: Seq<char>| out_a.contains(t) <==> out_b.contains(t) by {
        assert(out_a.contains(t) <==> kept_value(a, t));
        assert(out_b.contains(t) <==> kept_value(b, t));
    }
    lemma_sorted_unique(out_a, out_b);
}

/// An identifier is accepted exactly when it is not blank, takes at most 128
/// bytes in UTF-8, and every character is an ASCII letter (either case), an
/// ASCII digit, `-`, `_` or `.`.
pub proof fn law_identifier_accepted(field: Seq<char>, value: Seq<char>)
    ensures
        identifier_error(field, value) is None <==> {
            &&& !all_whitespace(value)
            &&& utf8_len(value) <= 128
            &&& forall|i: int|
                0 <= i < value.len() ==> {
                    let c = #[trigger] value[i];
                    ||| 'a' <= c <= 'z'
                    ||| 'A' <= c <= 'Z'
                    ||| '0' <= c <= '9'
                    ||| c == '-'
                    ||| c == '_'
                    ||| c == '.'
                }
        },
{
}

proof fn lemma_first_long_tag_exists(values: Seq<Seq<char>>, max_tag_bytes: nat, i: int)
    requires
        0 <= i < values.len(),
        utf8_len(values[i]) > max_tag_bytes,
    ensures
        exists|k: int| #[trigger] first_long_tag(values, max_tag_bytes, k),
    decreases i,
{
    if forall|j: int| 0 <= j < i ==> utf8_len(#[trigger] values[j]) <= max_tag_bytes {
        assert(first_long_tag(values, max_tag_bytes, i));
    } else {
        let j = choose|j: int| 0 <= j < i && utf8_len(#[trigger] values[j]) > max_tag_bytes;
        lemma_first_long_tag_exists(values, max_tag_bytes, j);
    }
}

/// A tag list is accepted exactly when it holds at most `max_tags` values and
/// none of them takes more than `max_tag_bytes` bytes in UTF-8.
pub proof fn law_tag_list_accepted(
    field: Seq<char>,
    values: Seq<Seq<char>>,
    max_tags: nat,
    max_tag_bytes: nat,
)
    ensures
        tag_list_error(field, values, max_tags, max_tag_bytes) is None <==> {
            &&& values.len() <= max_tags
            &&& forall|i: int| 0 <= i < values.len() ==> utf8_len(#[trigger] values[i]) <= max_tag_bytes
        },
{
    if exists|i: int| 0 <= i < values.len() && utf8_len(#[trigger] values[i]) > max_tag_bytes {
        let i = choose|i: int| 0 <= i < values.len() && utf8_len(#[trigger] values[i]) > max_tag_bytes;
        lemma_first_long_tag_exists(values, max_tag_bytes, i);
    }
}

} // verus!
