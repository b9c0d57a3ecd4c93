//! Checks and normal forms for configuration values: URLs, tag lists,
//! SHA-256 digests and TOTP secrets.
use vstd::prelude::*;
use vstd::string::StringExecFns;

use crate::text::{
    all_whitespace, ascii_upper, ascii_upper_char, chars_of, contains_chars, contains_seq,
    eq_ignore_ascii_case, eq_ignore_ascii_case_chars, is_ascii_hexdigit, is_ascii_hexdigit_char,
    is_ascii_lower, is_ascii_upper, is_ascii_whitespace, is_ascii_whitespace_char, owned, push_char,
    string_from_chars, trim, trim_start_char, trim_start_char_chars, trim_to_string, utf8_len,
};
use crate::validation::{
    is_normalized_list, msg_empty, normalize_string_list, string_views, tag_list_error,
    validate_non_empty, validate_tag_list, ValidationError,
};

verus! {

/// The most tags a node may carry.
pub const MAX_NODE_TAGS: usize = 16;

/// The longest tag a node may carry, in bytes.
pub const MAX_NODE_TAG_BYTES: usize = 64;

/// A configuration value that was refused, with the message that says why.
#[derive(Debug, Clone)]
pub struct ConfigError {
    message: String,
}

impl View for ConfigError {
    type V = Seq<char>;

    closed spec fn view(&self) -> Seq<char> {
        self.message@
    }
}

impl ConfigError {
    pub fn new(message: String) -> (e: Self)
        ensures
            e@ == message@,
    {
        ConfigError { message }
    }

    /// The message, as `Display` writes it.
    pub fn message(&self) -> (m: &str)
        ensures
            m@ == self@,
    {
        self.message.as_str()
    }

    /// A configuration error that carries the message of a failed check.
    pub fn from_validation(error: ValidationError) -> (e: Self)
        ensures
            e@ == error@,
    {
        ConfigError { message: error.to_message_string() }
    }
}

// ---------------------------------------------------------------------------
// Outside calls
// ---------------------------------------------------------------------------

/// What `url::Url::parse` gives for `input`: the scheme and the query of the
/// parsed URL, or the message of the parse error.
pub uninterp spec fn url_parse(input: Seq<char>) -> Result<(Seq<char>, Option<Seq<char>>), Seq<char>>;

/// The (name, value) pairs, percent-decoded, that `url::form_urlencoded::parse`
/// yields for `query`.
pub uninterp spec fn form_urlencoded_pairs(query: Seq<char>) -> Seq<(Seq<char>, Seq<char>)>;

/// What `base32::decode` gives for the RFC 4648 alphabet, with or without
/// padding, on `data`.
pub uninterp spec fn base32_rfc4648_decode(padding: bool, data: Seq<char>) -> Option<Seq<u8>>;

/// The parts of a parsed URL that the checks read.
pub struct UrlParts {
    pub scheme: String,
    pub query: Option<String>,
}

pub open spec fn opt_view(o: Option<String>) -> Option<Seq<char>> {
    match o {
        Some(s) => Some(s@),
        None => None,
    }
}

/// A parse outcome as plain values.
pub open spec fn url_outcome(r: Result<UrlParts, String>) -> Result<(Seq<char>, Option<Seq<char>>), Seq<char>> {
    match r {
        Ok(p) => Ok((p.scheme@, opt_view(p.query))),
        Err(e) => Err(e@),
    }
}

/// All ASCII, and no upper-case letter.
pub open spec fn is_lower_ascii(s: Seq<char>) -> bool {
    forall|i: int| 0 <= i < s.len() ==> (#[trigger] s[i] as u32) < 0x80 && !is_ascii_upper(s[i])
}

/// Calls `url::Url::parse` and keeps the scheme and the query, or the error's
/// message. The contract claims that the outcome is a function of `input`,
/// and, as the crate documents, that a scheme comes lower-cased and in ASCII.
#[verifier::external_body]
fn parse_url(input: &str) -> (r: Result<UrlParts, String>)
    ensures
        url_outcome(r) == url_parse(input@),
        r is Ok ==> is_lower_ascii(r->Ok_0.scheme@),
{
    match url::Url::parse(input) {
        Ok(url) => Ok(UrlParts { scheme: url.scheme().to_string(), query: url.query().map(|q| q.to_string()) }),
        Err(error) => Err(error.to_string()),
    }
}

pub open spec fn pair_views(v: Seq<(String, String)>) -> Seq<(Seq<char>, Seq<char>)> {
    v.map_values(|p: (String, String)| (p.0@, p.1@))
}

/// Calls `url::form_urlencoded::parse` on the bytes of `query` and collects
/// the pairs it yields as owned strings. The contract claims only that the
/// pairs are a function of `query`.
#[verifier::external_body]
fn query_pairs(query: &str) -> (r: Vec<(String, String)>)
    ensures
        pair_views(r@) == form_urlencoded_pairs(query@),
{
    url::form_urlencoded::parse(query.as_bytes()).map(|(k, v)| (k.into_owned(), v.into_owned())).collect()
}

pub open spec fn opt_bytes_view(o: Option<Vec<u8>>) -> Option<Seq<u8>> {
    match o {
        Some(v) => Some(v@),
        None => None,
    }
}

/// Calls `base32::decode` with the RFC 4648 alphabet. The contract claims
/// that the result is a function of `padding` and `data`, and, as the
/// crate's source shows, that input holding a non-ASCII character decodes to
/// nothing.
#[verifier::external_body]
fn decode_base32(padding: bool, data: &str) -> (r: Option<Vec<u8>>)
    ensures
        opt_bytes_view(r) == base32_rfc4648_decode(padding, data@),
        !vstd::string::is_ascii(data) ==> r is None,
{
    base32::decode(base32::Alphabet::Rfc4648 { padding }, data)
}

// ---------------------------------------------------------------------------
// URLs
// ---------------------------------------------------------------------------

pub open spec fn str_views(v: Seq<&str>) -> Seq<Seq<char>> {
    v.map_values(|s: &str| s@)
}

/// `parts.join(sep)`.
pub open spec fn seq_join(parts: Seq<Seq<char>>, sep: Seq<char>) -> Seq<char>
    decreases parts.len(),
{
    if parts.len() == 0 {
        seq![]
    } else if parts.len() == 1 {
        parts[0]
    } else {
        seq_join(parts.drop_last(), sep) + sep + parts.last()
    }
}

/// The error of `validate_url` for a given outcome of parsing the URL.
pub open spec fn url_outcome_error(
    field: Seq<char>,
    parsed: Result<(Seq<char>, Option<Seq<char>>), Seq<char>>,
    schemes: Seq<Seq<char>>,
) -> Option<Seq<char>> {
    match parsed {
        Err(e) => Some("invalid "@ + field + ": "@ + e),
        Ok((scheme, _)) => if schemes.contains(scheme) {
            None
        } else {
            Some(field + " must use one of these schemes: "@ + seq_join(schemes, ", "@))
        },
    }
}

/// The error of `validate_url`, if any.
pub open spec fn url_error(field: Seq<char>, value: Seq<char>, schemes: Seq<Seq<char>>) -> Option<
    Seq<char>,
> {
    url_outcome_error(field, url_parse(value), schemes)
}

/// `parts.join(sep)` as a `String`.
pub fn join_strs(parts: &[&str], sep: &str) -> (r: String)
    ensures
        r@ == seq_join(str_views(parts@), sep@),
{
    let ghost v = str_views(parts@);
    let mut r = String::new();
    let mut i: usize = 0;
    while i < parts.len()
        invariant
            i <= parts.len(),
            v == str_views(parts@),
            r@ == seq_join(v.take(i as int), sep@),
        decreases parts.len() - i,
    {
        assert(v.take(i + 1).drop_last() == v.take(i as int));
        if i > 0 {
            r.append(sep);
        } else {
            assert(v.take(1) == seq![v[0]]);
        }
        r.append(parts[i]);
        i = i + 1;
    }
    assert(v.take(parts.len() as int) == v);
    r
}

/// Whether `scheme` is one of `schemes`.
fn scheme_allowed(schemes: &[&str], scheme: &str) -> (b: bool)
    ensures
        b == str_views(schemes@).contains(scheme@),
{
    let sc = chars_of(scheme);
    let mut i: usize = 0;
    while i < schemes.len()
        invariant
            i <= schemes.len(),
            sc@ == scheme@,
            forall|j: int| 0 <= j < i ==> (#[trigger] schemes@[j])@ != scheme@,
        decreases schemes.len() - i,
    {
        let c = chars_of(schemes[i]);
        if crate::text::chars_eq(&c, &sc) {
            assert(str_views(schemes@)[i as int] == scheme@);
            return true;
        }
        i = i + 1;
    }
    assert(!str_views(schemes@).contains(scheme@)) by {
        if str_views(schemes@).contains(scheme@) {
            let k = choose|k: int| 0 <= k < schemes@.len() && str_views(schemes@)[k] == scheme@;
            assert(schemes@[k]@ != scheme@);
        }
    }
    false
}

/// The check that `validate_url` makes once the URL is parsed: a parse error
/// is refused with its message, and so is a scheme not among `schemes`.
pub fn check_parsed_url(field: &str, parsed: Result<UrlParts, String>, schemes: &[&str]) -> (r:
    Result<(), ConfigError>)
    ensures
        r is Err <==> url_outcome_error(field@, url_outcome(parsed), str_views(schemes@)) is Some,
        r matches Err(e) ==> Some(e@) == url_outcome_error(
            field@,
            url_outcome(parsed),
            str_views(schemes@),
        ),
{
    match parsed {
        Err(error) => {
            let mut message = owned("invalid ");
            message.append(field);
            message.append(": ");
            message.append(error.as_str());
            Err(ConfigError::new(message))
        },
        Ok(parts) => {
            if scheme_allowed(schemes, parts.scheme.as_str()) {
                Ok(())
            } else {
                let mut message = owned(field);
                message.append(" must use one of these schemes: ");
                let joined = join_strs(schemes, ", ");
                message.append(joined.as_str());
                Err(ConfigError::new(message))
            }
        },
    }
}

/// Refuses a value that is not a URL, or whose scheme is not one of `schemes`.
pub fn validate_url(field: &str, value: &str, schemes: &[&str]) -> (r: Result<(), ConfigError>)
    ensures
        r is Err <==> url_error(field@, value@, str_views(schemes@)) is Some,
        r matches Err(e) ==> Some(e@) == url_error(field@, value@, str_views(schemes@)),
{
    let parsed = parse_url(value);
    check_parsed_url(field, parsed, schemes)
}

// ---------------------------------------------------------------------------
// Tags and digests
// ---------------------------------------------------------------------------

/// Normalizes a list of tags (see `normalize_string_list`) and refuses it if
/// it then holds more than `MAX_NODE_TAGS` tags or a tag longer than
/// `MAX_NODE_TAG_BYTES` bytes.
pub fn normalize_tags(field: &str, values: Vec<String>) -> (r: Result<Vec<String>, ConfigError>)
    ensures
        r matches Ok(out) ==> is_normalized_list(string_views(values@), string_views(out@))
            && tag_list_error(
            field@,
            string_views(out@),
            MAX_NODE_TAGS as nat,
            MAX_NODE_TAG_BYTES as nat,
        ) is None,
        r matches Err(e) ==> exists|out: Seq<Seq<char>>|
            is_normalized_list(string_views(values@), out) && tag_list_error(
                field@,
                out,
                MAX_NODE_TAGS as nat,
                MAX_NODE_TAG_BYTES as nat,
            ) == Some(e@),
{
    let ghost input = string_views(values@);
    let values = normalize_string_list(values);
    match validate_tag_list(field, values.as_slice(), MAX_NODE_TAGS, MAX_NODE_TAG_BYTES) {
        Ok(()) => Ok(values),
        Err(e) => {
            let r = ConfigError::from_validation(e);
            assert(is_normalized_list(input, string_views(values@)));
            Err(r)
        },
    }
}

pub open spec fn msg_sha256(field: Seq<char>) -> Seq<char> {
    field + " must be a 64-character hexadecimal SHA-256 digest"@
}

/// The error of `validate_sha256`, if any.
pub open spec fn sha256_error(field: Seq<char>, value: Seq<char>) -> Option<Seq<char>> {
    if all_whitespace(value) {
        Some(msg_empty(field))
    } else if utf8_len(value) != 64 || !(forall|i: int|
        0 <= i < value.len() ==> is_ascii_hexdigit(#[trigger] value[i])) {
        Some(msg_sha256(field))
    } else {
        None
    }
}

proof fn lemma_utf8_len_ascii(s: Seq<char>)
    requires
        forall|i: int| 0 <= i < s.len() ==> (#[trigger] s[i] as u32) < 0x80,
    ensures
        utf8_len(s) == s.len(),
    decreases s.len(),
{
    if s.len() > 0 {
        assert((s.last() as u32) < 0x80) by {
            assert((s[s.len() - 1] as u32) < 0x80);
        }
        lemma_utf8_len_ascii(s.drop_last());
    }
}

/// Refuses a value that is blank, or is not 64 hexadecimal digits.
pub fn validate_sha256(field: &str, value: &str) -> (r: Result<(), ConfigError>)
    ensures
        r is Err <==> sha256_error(field@, value@) is Some,
        r matches Err(e) ==> Some(e@) == sha256_error(field@, value@),
{
    match validate_non_empty(field, value) {
        Err(e) => return Err(ConfigError::from_validation(e)),
        Ok(()) => {},
    }
    let chars = chars_of(value);
    let mut all_hex = true;
    let mut i: usize = 0;
    while i < chars.len()
        invariant
            i <= chars.len(),
            chars@ == value@,
            all_hex == (forall|j: int| 0 <= j < i ==> is_ascii_hexdigit(#[trigger] chars@[j])),
        decreases chars.len() - i,
    {
        if !is_ascii_hexdigit_char(chars[i]) {
            all_hex = false;
        }
        i = i + 1;
    }
    if all_hex {
        proof {
            assert forall|j: int| 0 <= j < value@.len() implies (#[trigger] value@[j] as u32)
                < 0x80 by {
                assert(is_ascii_hexdigit(value@[j]));
            }
            lemma_utf8_len_ascii(value@);
        }
    }
    if !all_hex || chars.len() != 64 {
        let mut message = owned(field);
        message.append(" must be a 64-character hexadecimal SHA-256 digest");
        return Err(ConfigError::new(message));
    }
    Ok(())
}

// ---------------------------------------------------------------------------
// TOTP secrets
// ---------------------------------------------------------------------------

/// A character that the normal form of a TOTP secret keeps.
pub open spec fn keeps_secret_char(c: char) -> bool {
    !is_ascii_whitespace(c) && c != '-'
}

/// `s` without ASCII whitespace and `-`, in ASCII upper case.
pub open spec fn clean_secret(s: Seq<char>) -> Seq<char>
    decreases s.len(),
{
    if s.len() == 0 {
        seq![]
    } else if keeps_secret_char(s.last()) {
        clean_secret(s.drop_last()).push(ascii_upper(s.last()))
    } else {
        clean_secret(s.drop_last())
    }
}

proof fn lemma_ascii_upper(c: char)
    ensures
        !is_ascii_lower(ascii_upper(c)),
        ascii_upper(ascii_upper(c)) == ascii_upper(c),
        keeps_secret_char(c) ==> keeps_secret_char(ascii_upper(c)),
{
    if is_ascii_lower(c) {
        let u = ((c as u32) - 32) as char;
        assert(u as u32 == (c as u32) - 32);
    }
}

/// The normal form of a secret holds no ASCII whitespace, no `-` and no
/// lower-case ASCII letter.
pub proof fn law_clean_secret_shape(s: Seq<char>)
    ensures
        forall|i: int|
            0 <= i < clean_secret(s).len() ==> keeps_secret_char(#[trigger] clean_secret(s)[i])
                && !is_ascii_lower(clean_secret(s)[i]),
    decreases s.len(),
{
    if s.len() > 0 {
        law_clean_secret_shape(s.drop_last());
        lemma_ascii_upper(s.last());
        let init = clean_secret(s.drop_last());
        if keeps_secret_char(s.last()) {
            assert forall|i: int| 0 <= i < clean_secret(s).len() implies keeps_secret_char(
                #[trigger] clean_secret(s)[i],
            ) && !is_ascii_lower(clean_secret(s)[i]) by {
                if i < init.len() {
                    assert(clean_secret(s)[i] == init[i]);
                }
            }
        }
    }
}

/// Normalizing the characters of a normalized secret changes nothing.
pub proof fn law_clean_secret_idempotent(s: Seq<char>)
    ensures
        clean_secret(clean_secret(s)) == clean_secret(s),
    decreases s.len(),
{
    if s.len() > 0 {
        law_clean_secret_idempotent(s.drop_last());
        let init = clean_secret(s.drop_last());
        if keeps_secret_char(s.last()) {
            let u = ascii_upper(s.last());
            lemma_ascii_upper(s.last());
            let t = init.push(u);
            assert(t.drop_last() == init);
            assert(t.last() == u);
            assert(clean_secret(t) == clean_secret(init).push(ascii_upper(u)));
        }
    }
}

/// A query pair that names the secret: its name is `secret` in any ASCII
/// case and its value is not blank.
pub open spec fn is_secret_pair(p: (Seq<char>, Seq<char>)) -> bool {
    eq_ignore_ascii_case(p.0, "secret"@) && !all_whitespace(p.1)
}

/// The value of the first pair that names the secret.
pub open spec fn first_secret(pairs: Seq<(Seq<char>, Seq<char>)>) -> Option<Seq<char>>
    decreases pairs.len(),
{
    if pairs.len() == 0 {
        None
    } else if is_secret_pair(pairs[0]) {
        Some(pairs[0].1)
    } else {
        first_secret(pairs.drop_first())
    }
}

/// The secret named in a query string.
pub open spec fn query_secret(query: Seq<char>) -> Option<Seq<char>> {
    first_secret(form_urlencoded_pairs(query))
}

/// The secret that a pasted value names: the `secret` of an `otpauth:` URL,
/// or of a query piece holding `secret=`.
pub open spec fn totp_secret_candidate(value: Seq<char>) -> Option<Seq<char>> {
    let t = trim(value);
    match secret_source(t, url_parse(t)) {
        Some(q) => query_secret(q),
        None => None,
    }
}

/// The query that may name the secret of a trimmed pasted value, given what
/// parsing it as a URL gave: the query of an `otpauth:` URL (empty where it
/// has none), or else the value itself without leading `?` where it holds
/// `secret=`.
pub open spec fn secret_source(
    trimmed: Seq<char>,
    parsed: Result<(Seq<char>, Option<Seq<char>>), Seq<char>>,
) -> Option<Seq<char>> {
    if parsed is Ok && eq_ignore_ascii_case(parsed->Ok_0.0, "otpauth"@) {
        Some(
            match parsed->Ok_0.1 {
                Some(q) => q,
                None => seq![],
            },
        )
    } else if contains_seq(trimmed, "secret="@) {
        Some(trim_start_char(trimmed, '?'))
    } else {
        None
    }
}

/// What `normalize_totp_secret` gives for `value`.
pub open spec fn normalized_totp_secret(value: Seq<char>) -> Seq<char> {
    clean_secret(
        match totp_secret_candidate(value) {
            Some(c) => c,
            None => trim(value),
        },
    )
}

/// The decoding without padding where it succeeded, or else the one with
/// padding.
pub open spec fn first_decoded(unpadded: Option<Seq<u8>>, padded: Option<Seq<u8>>) -> Option<
    Seq<u8>,
> {
    match unpadded {
        Some(b) => Some(b),
        None => padded,
    }
}

/// The secret that the normal form of `value` decodes to, without padding
/// or else with it.
pub open spec fn decoded_totp_secret(value: Seq<char>) -> Option<Seq<u8>> {
    let n = normalized_totp_secret(value);
    first_decoded(base32_rfc4648_decode(false, n), base32_rfc4648_decode(true, n))
}

pub open spec fn msg_totp_base32(field: Seq<char>) -> Seq<char> {
    field + " must be a valid RFC4648 base32 TOTP secret"@
}

pub open spec fn msg_totp_short(field: Seq<char>) -> Seq<char> {
    field + " must decode to at least 10 bytes"@
}

/// The error for a secret that decoded to `decoded`, if any.
pub open spec fn decoded_secret_error(field: Seq<char>, decoded: Option<Seq<u8>>) -> Option<
    Seq<char>,
> {
    match decoded {
        None => Some(msg_totp_base32(field)),
        Some(b) => if b.len() < 10 {
            Some(msg_totp_short(field))
        } else {
            None
        },
    }
}

/// The error of `validate_totp_secret`, if any.
pub open spec fn totp_secret_error(field: Seq<char>, value: Seq<char>) -> Option<Seq<char>> {
    if all_whitespace(value) {
        Some(msg_empty(field))
    } else {
        decoded_secret_error(field, decoded_totp_secret(value))
    }
}

/// Drops ASCII whitespace and `-` from `candidate` and upper-cases the rest.
pub fn clean_totp_secret(candidate: &str) -> (r: String)
    ensures
        r@ == clean_secret(candidate@),
{
    let chars = chars_of(candidate);
    let mut r = String::new();
    let mut i: usize = 0;
    while i < chars.len()
        invariant
            i <= chars.len(),
            chars@ == candidate@,
            r@ == clean_secret(chars@.take(i as int)),
        decreases chars.len() - i,
    {
        let c = chars[i];
        assert(chars@.take(i + 1).drop_last() == chars@.take(i as int));
        assert(chars@.take(i + 1).last() == c);
        if !is_ascii_whitespace_char(c) && c != '-' {
            push_char(&mut r, ascii_upper_char(c));
        }
        i = i + 1;
    }
    assert(chars@.take(chars.len() as int) == chars@);
    r
}

/// The value of the first pair whose name is `secret` in any ASCII case and
/// whose value is not blank.
pub fn secret_from_query_pairs(pairs: &Vec<(String, String)>) -> (r: Option<String>)
    ensures
        opt_view(r) == first_secret(pair_views(pairs@)),
{
    let ghost pv = pair_views(pairs@);
    let key = chars_of("secret");
    let mut i: usize = 0;
    assert(pv.skip(0) == pv);
    while i < pairs.len()
        invariant
            i <= pairs.len(),
            pv == pair_views(pairs@),
            key@ == "secret"@,
            first_secret(pv) == first_secret(pv.skip(i as int)),
        decreases pairs.len() - i,
    {
        let name = chars_of(pairs[i].0.as_str());
        assert(pv.skip(i as int)[0] == pv[i as int]);
        if eq_ignore_ascii_case_chars(&name, &key) && !crate::text::is_blank(pairs[i].1.as_str()) {
            return Some(pairs[i].1.clone());
        }
        assert(pv.skip(i as int).drop_first() == pv.skip(i + 1));
        i = i + 1;
    }
    None
}

/// The secret named in a query string: the first `secret` pair with a value.
fn extract_secret_query_value(query: &str) -> (r: Option<String>)
    ensures
        opt_view(r) == query_secret(query@),
{
    let pairs = query_pairs(query);
    secret_from_query_pairs(&pairs)
}

/// The secret named by an `otpauth:` URL or by a query piece holding
/// `secret=`, if `value` is one.
fn extract_totp_secret_candidate(value: &str) -> (r: Option<String>)
    ensures
        opt_view(r) == totp_secret_candidate(value@),
{
    let trimmed = trim_to_string(value);
    let parsed = parse_url(trimmed.as_str());
    match secret_query_source(trimmed.as_str(), parsed) {
        Some(query) => extract_secret_query_value(query.as_str()),
        None => None,
    }
}

/// The query that may name the secret of the trimmed pasted value
/// `trimmed`, given the outcome of parsing it as a URL (see
/// `secret_source`).
pub fn secret_query_source(trimmed: &str, parsed: Result<UrlParts, String>) -> (r: Option<String>)
    ensures
        opt_view(r) == secret_source(trimmed@, url_outcome(parsed)),
{
    if let Ok(parts) = parsed {
        let scheme = chars_of(parts.scheme.as_str());
        let otpauth = chars_of("otpauth");
        if eq_ignore_ascii_case_chars(&scheme, &otpauth) {
            return match parts.query {
                Some(q) => Some(q),
                None => {
                    let empty = String::new();
                    assert(empty@ == Seq::<char>::empty());
                    Some(empty)
                },
            };
        }
    }
    let chars = chars_of(trimmed);
    let marker = chars_of("secret=");
    if contains_chars(&chars, &marker) {
        let start = trim_start_char_chars(&chars, '?');
        let rest = string_from_chars(&chars, start, chars.len());
        assert(chars@.skip(start as int) == chars@.subrange(start as int, chars.len() as int));
        return Some(rest);
    }
    None
}

/// The normal form of a TOTP secret as people paste it: plain RFC 4648
/// Base32, typed with spaces, hyphens or in lower case, a whole
/// `otpauth://...?secret=...` URL, or only its `secret=...` query piece.
pub fn normalize_totp_secret(value: &str) -> (r: String)
    ensures
        r@ == normalized_totp_secret(value@),
{
    let candidate = match extract_totp_secret_candidate(value) {
        Some(c) => c,
        None => trim_to_string(value),
    };
    clean_totp_secret(candidate.as_str())
}

/// The secret bytes that `value` decodes to, if it is Base32.
fn decode_totp_secret_bytes(value: &str) -> (r: Option<Vec<u8>>)
    ensures
        opt_bytes_view(r) == decoded_totp_secret(value@),
{
    let normalized = normalize_totp_secret(value);
    let unpadded = decode_base32(false, normalized.as_str());
    if unpadded.is_some() {
        pick_decoded_secret(unpadded, None)
    } else {
        let padded = decode_base32(true, normalized.as_str());
        pick_decoded_secret(unpadded, padded)
    }
}

/// The decoding without padding where it succeeded, or else the one with
/// padding (see `first_decoded`).
pub fn pick_decoded_secret(unpadded: Option<Vec<u8>>, padded: Option<Vec<u8>>) -> (r: Option<
    Vec<u8>,
>)
    ensures
        opt_bytes_view(r) == first_decoded(opt_bytes_view(unpadded), opt_bytes_view(padded)),
{
    match unpadded {
        Some(bytes) => Some(bytes),
        None => padded,
    }
}

/// The check that `validate_totp_secret` makes once the secret is decoded: it
/// must be Base32 and at least 10 bytes long.
pub fn check_decoded_totp_secret(field: &str, decoded: Option<Vec<u8>>) -> (r: Result<
    (),
    ConfigError,
>)
    ensures
        r is Err <==> decoded_secret_error(field@, opt_bytes_view(decoded)) is Some,
        r matches Err(e) ==> Some(e@) == decoded_secret_error(field@, opt_bytes_view(decoded)),
{
    match decoded {
        None => {
            let mut message = owned(field);
            message.append(" must be a valid RFC4648 base32 TOTP secret");
            Err(ConfigError::new(message))
        },
        Some(bytes) => {
            if bytes.len() < 10 {
                let mut message = owned(field);
                message.append(" must decode to at least 10 bytes");
                Err(ConfigError::new(message))
            } else {
                Ok(())
            }
        },
    }
}

/// Refuses a TOTP secret that is blank, is not Base32 once normalized, or
/// decodes to fewer than 10 bytes.
pub fn validate_totp_secret(field: &str, value: &str) -> (r: Result<(), ConfigError>)
    ensures
        r is Err <==> totp_secret_error(field@, value@) is Some,
        r matches Err(e) ==> Some(e@) == totp_secret_error(field@, value@),
{
    match validate_non_empty(field, value) {
        Err(e) => return Err(ConfigError::from_validation(e)),
        Ok(()) => {},
    }
    let decoded = decode_totp_secret_bytes(value);
    check_decoded_totp_secret(field, decoded)
}

} // verus!
