//! Percent-encoding of URL components, decoding of query values, and
//! reading the OAuth redirect that the browser sends to the local listener.
use vstd::prelude::*;
use vstd::string::StringSliceAdditionalSpecFns;
use vstd::utf8::{encode_utf8, is_ascii_chars, is_ascii_chars_concat, is_ascii_chars_encode_utf8};
use crate::text::{chars_equal_at, is_white_space, white_space, chars_of, find_char_between, index_of_first, lemma_index_of_first, lemma_index_of_first_unique, push_char, string_from_chars};

verus! {

/// Whether a byte may stand unescaped in a URL component
/// (ASCII letters, digits and `-`, `_`, `.`, `~`).
pub open spec fn is_unreserved(b: u8) -> bool {
    ||| (65 <= b && b <= 90)
    ||| (97 <= b && b <= 122)
    ||| (48 <= b && b <= 57)
    ||| b == 45
    ||| b == 95
    ||| b == 46
    ||| b == 126
}

/// The upper-case hexadecimal digit of `d < 16`.
pub open spec fn hex_upper(d: nat) -> char {
    if d < 10 {
        (48 + d) as char
    } else {
        (55 + d) as char
    }
}

/// How one byte is written in a URL component: itself when unreserved,
/// else `%` and two upper-case hexadecimal digits.
pub open spec fn encode_byte(b: u8) -> Seq<char> {
    if is_unreserved(b) {
        seq![b as char]
    } else {
        seq!['%', hex_upper((b / 16) as nat), hex_upper((b % 16) as nat)]
    }
}

/// The percent-encoding of a byte string.
pub open spec fn encode_bytes(bs: Seq<u8>) -> Seq<char>
    decreases bs.len(),
{
    if bs.len() == 0 {
        seq![]
    } else {
        encode_bytes(bs.drop_last()) + encode_byte(bs.last())
    }
}

fn unreserved(b: u8) -> (res: bool)
    ensures
        res == is_unreserved(b),
{
    (65 <= b && b <= 90) || (97 <= b && b <= 122) || (48 <= b && b <= 57) || b == 45 || b == 95
        || b == 46 || b == 126
}

fn hex_digit_upper(d: u8) -> (c: char)
    requires
        d < 16,
    ensures
        c == hex_upper(d as nat),
{
    if d < 10 {
        (48u8 + d) as char
    } else {
        (55u8 + d) as char
    }
}

/// Percent-encodes `value` for use in a URL: every byte of its UTF-8 form
/// that is not unreserved becomes `%XX`.
pub fn encode_component(value: &str) -> (res: String)
    ensures
        res@ == encode_bytes(value.spec_bytes()),
{
    let bs = value.as_bytes();
    let mut res = String::new();
    let mut i: usize = 0;
    while i < bs.len()
        invariant
            i <= bs@.len(),
            bs@ == value.spec_bytes(),
            res@ == encode_bytes(bs@.take(i as int)),
        decreases bs.len() - i,
    {
        let b = bs[i];
        if unreserved(b) {
            push_char(&mut res, b as char);
        } else {
            push_char(&mut res, '%');
            push_char(&mut res, hex_digit_upper(b / 16));
            push_char(&mut res, hex_digit_upper(b % 16));
        }
        proof {
            let t = bs@.take(i + 1);
            assert(t.drop_last() =~= bs@.take(i as int));
            assert(t.last() == b);
            assert(res@ =~= encode_bytes(t));
        }
        i = i + 1;
    }
    assert(bs@.take(bs@.len() as int) =~= bs@);
    res
}

/// The value of a hexadecimal digit byte (either case).
pub open spec fn hex_value(b: u8) -> Option<nat> {
    if 48 <= b && b <= 57 {
        Some((b - 48) as nat)
    } else if 65 <= b && b <= 70 {
        Some((b - 55) as nat)
    } else if 97 <= b && b <= 102 {
        Some((b - 87) as nat)
    } else {
        None
    }
}

/// The byte that `u8::from_str_radix(_, 16)` reads from the two-character
/// string made of `high` and `low` (each byte taken as the character of
/// the same number): two hexadecimal digits, or a `+` sign and one digit.
pub open spec fn hex_pair(high: u8, low: u8) -> Option<u8> {
    if high == 43 {
        match hex_value(low) {
            Some(v) => Some(v as u8),
            None => None,
        }
    } else {
        match (hex_value(high), hex_value(low)) {
            (Some(h), Some(l)) => Some((16 * h + l) as u8),
            _ => None,
        }
    }
}

/// The decoding of a URL component, read byte by byte from the front:
/// `%` takes the next two bytes (a missing one counts as `0`) and gives the
/// character of the byte they spell, or nothing when they spell none; `+`
/// gives a space; any other byte gives the character of the same number.
pub open spec fn decode_bytes(bs: Seq<u8>) -> Seq<char>
    decreases bs.len(),
{
    if bs.len() == 0 {
        seq![]
    } else if bs[0] == 37 {
        let high: u8 = if bs.len() > 1 {
            bs[1]
        } else {
            48u8
        };
        let low: u8 = if bs.len() > 2 {
            bs[2]
        } else {
            48u8
        };
        let rest = bs.skip(
            if bs.len() >= 3 {
                3
            } else {
                bs.len() as int
            },
        );
        match hex_pair(high, low) {
            Some(v) => seq![v as char] + decode_bytes(rest),
            None => decode_bytes(rest),
        }
    } else if bs[0] == 43 {
        seq![' '] + decode_bytes(bs.skip(1))
    } else {
        seq![bs[0] as char] + decode_bytes(bs.skip(1))
    }
}

fn hex_digit_value(b: u8) -> (res: Option<u8>)
    ensures
        match hex_value(b) {
            Some(v) => res == Some(v as u8) && v < 16,
            None => res is None,
        },
{
    if 48 <= b && b <= 57 {
        Some(b - 48)
    } else if 65 <= b && b <= 70 {
        Some(b - 55)
    } else if 97 <= b && b <= 102 {
        Some(b - 87)
    } else {
        None
    }
}

fn hex_pair_value(high: u8, low: u8) -> (res: Option<u8>)
    ensures
        res == hex_pair(high, low),
{
    if high == 43 {
        hex_digit_value(low)
    } else {
        match (hex_digit_value(high), hex_digit_value(low)) {
            (Some(h), Some(l)) => Some(16 * h + l),
            _ => None,
        }
    }
}

fn decode_byte_range(bs: &[u8], from: usize, to: usize) -> (res: String)
    requires
        from <= to <= bs@.len(),
    ensures
        res@ == decode_bytes(bs@.subrange(from as int, to as int)),
{
    let mut res = String::new();
    let mut i = from;
    while i < to
        invariant
            from <= i <= to <= bs@.len(),
            decode_bytes(bs@.subrange(from as int, to as int)) == res@ + decode_bytes(
                bs@.subrange(i as int, to as int),
            ),
        decreases to - i,
    {
        let ghost rest = bs@.subrange(i as int, to as int);
        let ghost before = res@;
        let b = bs[i];
        if b == 37 {
            let high: u8 = if to - i > 1 {
                bs[i + 1]
            } else {
                48
            };
            let low: u8 = if to - i > 2 {
                bs[i + 2]
            } else {
                48
            };
            let next = if to - i >= 3 {
                i + 3
            } else {
                to
            };
            match hex_pair_value(high, low) {
                Some(v) => push_char(&mut res, v as char),
                None => {},
            }
            proof {
                assert(rest.skip(next - i) =~= bs@.subrange(next as int, to as int));
                assert(res@ + decode_bytes(bs@.subrange(next as int, to as int)) =~= before
                    + decode_bytes(rest));
            }
            i = next;
        } else {
            if b == 43 {
                push_char(&mut res, ' ');
            } else {
                push_char(&mut res, b as char);
            }
            proof {
                assert(rest.skip(1) =~= bs@.subrange(i + 1, to as int));
                assert(res@ + decode_bytes(bs@.subrange(i + 1, to as int)) =~= before
                    + decode_bytes(rest));
            }
            i = i + 1;
        }
    }
    assert(bs@.subrange(to as int, to as int) =~= Seq::<u8>::empty());
    assert(res@ + decode_bytes(Seq::<u8>::empty()) =~= res@);
    res
}

/// Decodes a percent-encoded URL component, as the redirect's query
/// values are read.
pub fn decode_component(value: &str) -> (res: String)
    ensures
        res@ == decode_bytes(value.spec_bytes()),
{
    let bs = value.as_bytes();
    let res = decode_byte_range(bs, 0, bs.len());
    assert(bs@.subrange(0, bs@.len() as int) =~= bs@);
    res
}

/// The raw value of `part` when it reads `key=value`: the text after the
/// first `=`, provided the text before it is exactly `key`.
pub open spec fn param_value(part: Seq<char>, key: Seq<char>) -> Option<Seq<char>> {
    let eq = index_of_first(part, '=');
    if eq < part.len() && part.take(eq as int) == key {
        Some(part.skip(eq + 1int))
    } else {
        None
    }
}

/// The raw value of the first `&`-separated part of `query` that gives
/// `key` a value.
pub open spec fn raw_query_param(query: Seq<char>, key: Seq<char>) -> Option<Seq<char>>
    decreases query.len(),
{
    let amp = index_of_first(query, '&');
    match param_value(query.take(amp as int), key) {
        Some(v) => Some(v),
        None => if amp < query.len() {
            proof {
                lemma_index_of_first(query, '&');
            }
            raw_query_param(query.skip(amp + 1int), key)
        } else {
            None
        },
    }
}

/// The decoded value of `key` in `query`.
pub open spec fn query_param_spec(query: Seq<char>, key: Seq<char>) -> Option<Seq<char>> {
    match raw_query_param(query, key) {
        Some(v) => Some(decode_bytes(encode_utf8(v))),
        None => None,
    }
}

/// The decoded value of `key` in the query `cs[from..to]`.
fn query_param_in(cs: &Vec<char>, from: usize, to: usize, key: &Vec<char>) -> (res: Option<
    String,
>)
    requires
        from <= to <= cs@.len(),
    ensures
        match query_param_spec(cs@.subrange(from as int, to as int), key@) {
            Some(v) => res matches Some(r) && r@ == v,
            None => res is None,
        },
{
    let mut start = from;
    loop
        invariant
            from <= start <= to <= cs@.len(),
            raw_query_param(cs@.subrange(from as int, to as int), key@) == raw_query_param(
                cs@.subrange(start as int, to as int),
                key@,
            ),
        decreases to - start,
    {
        let ghost q = cs@.subrange(start as int, to as int);
        let amp = find_char_between(cs, '&', start, to);
        let eq = find_char_between(cs, '=', start, amp);
        proof {
            lemma_index_of_first(q, '&');
            assert(q.take(amp - start) =~= cs@.subrange(start as int, amp as int));
        }
        let ghost part = cs@.subrange(start as int, amp as int);
        if eq < amp && chars_equal_at(cs, start, eq, key) {
            assert(part.take(eq - start) =~= cs@.subrange(start as int, eq as int));
            assert(part.skip(eq - start + 1) =~= cs@.subrange(eq + 1, amp as int));
            let raw = string_from_chars(cs, eq + 1, amp);
            let value = decode_component(raw.as_str());
            return Some(value);
        }
        proof {
            if eq < amp {
                assert(part.take(eq - start) =~= cs@.subrange(start as int, eq as int));
            }
        }
        if amp == to {
            return None;
        }
        assert(q.skip(amp - start + 1) =~= cs@.subrange(amp + 1, to as int));
        start = amp + 1;
    }
}

/// The decoded value of the first `key=value` part of `query`, whose
/// parts are separated by `&`.
pub fn query_param(query: &str, key: &str) -> (res: Option<String>)
    ensures
        match query_param_spec(query@, key@) {
            Some(v) => res matches Some(r) && r@ == v,
            None => res is None,
        },
{
    let cs = chars_of(query);
    let k = chars_of(key);
    assert(cs@.subrange(0, cs@.len() as int) =~= cs@);
    query_param_in(&cs, 0, cs.len(), &k)
}

/// The first line of a request: the text before the first line feed,
/// without a carriage return that ends it (`str::lines().next()`, or the
/// empty text when there is no line at all).
pub open spec fn first_line(r: Seq<char>) -> Seq<char> {
    let nl = index_of_first(r, '\n');
    if nl < r.len() {
        let line = r.take(nl as int);
        if line.len() > 0 && line.last() == '\r' {
            line.drop_last()
        } else {
            line
        }
    } else {
        r
    }
}

/// The number of white-space characters that `s` starts with.
pub open spec fn leading_white(s: Seq<char>) -> nat
    decreases s.len(),
{
    if s.len() > 0 && is_white_space(s[0]) {
        1 + leading_white(s.drop_first())
    } else {
        0
    }
}

/// The number of other characters that `s` starts with.
pub open spec fn word_length(s: Seq<char>) -> nat
    decreases s.len(),
{
    if s.len() > 0 && !is_white_space(s[0]) {
        1 + word_length(s.drop_first())
    } else {
        0
    }
}

/// The second white-space separated word of `s`
/// (`s.split_whitespace().nth(1)`).
pub open spec fn second_word(s: Seq<char>) -> Option<Seq<char>> {
    let a = s.skip(leading_white(s) as int);
    let b = a.skip(word_length(a) as int);
    let c = b.skip(leading_white(b) as int);
    if a.len() == 0 || c.len() == 0 {
        None
    } else {
        Some(c.take(word_length(c) as int))
    }
}

/// The query of a request target: what follows its first `?`, or nothing.
pub open spec fn query_of(target: Seq<char>) -> Seq<char> {
    let q = index_of_first(target, '?');
    if q < target.len() {
        target.skip(q + 1int)
    } else {
        seq![]
    }
}

proof fn lemma_leading_white_unique(s: Seq<char>, k: int)
    requires
        0 <= k <= s.len(),
        forall|j: int| 0 <= j < k ==> is_white_space(#[trigger] s[j]),
        k < s.len() ==> !is_white_space(s[k]),
    ensures
        leading_white(s) == k,
    decreases s.len(),
{
    if k > 0 {
        assert forall|j: int| 0 <= j < k - 1 implies is_white_space(
            #[trigger] s.drop_first()[j],
        ) by {
            assert(s.drop_first()[j] == s[j + 1]);
        }
        lemma_leading_white_unique(s.drop_first(), k - 1);
    }
}

proof fn lemma_word_length_unique(s: Seq<char>, k: int)
    requires
        0 <= k <= s.len(),
        forall|j: int| 0 <= j < k ==> !is_white_space(#[trigger] s[j]),
        k < s.len() ==> is_white_space(s[k]),
    ensures
        word_length(s) == k,
    decreases s.len(),
{
    if k > 0 {
        assert forall|j: int| 0 <= j < k - 1 implies !is_white_space(
            #[trigger] s.drop_first()[j],
        ) by {
            assert(s.drop_first()[j] == s[j + 1]);
        }
        lemma_word_length_unique(s.drop_first(), k - 1);
    }
}

fn skip_white(cs: &Vec<char>, from: usize, to: usize) -> (res: usize)
    requires
        from <= to <= cs@.len(),
    ensures
        res == from + leading_white(cs@.subrange(from as int, to as int)),
        from <= res <= to,
{
    let mut i = from;
    while i < to && white_space(cs[i])
        invariant
            from <= i <= to <= cs@.len(),
            forall|j: int| from <= j < i ==> is_white_space(#[trigger] cs@[j]),
        decreases to - i,
    {
        i = i + 1;
    }
    proof {
        let sub = cs@.subrange(from as int, to as int);
        assert forall|j: int| 0 <= j < i - from implies is_white_space(#[trigger] sub[j]) by {
            assert(sub[j] == cs@[from + j]);
        }
        lemma_leading_white_unique(sub, i - from);
    }
    i
}

fn skip_word(cs: &Vec<char>, from: usize, to: usize) -> (res: usize)
    requires
        from <= to <= cs@.len(),
    ensures
        res == from + word_length(cs@.subrange(from as int, to as int)),
        from <= res <= to,
{
    let mut i = from;
    while i < to && !white_space(cs[i])
        invariant
            from <= i <= to <= cs@.len(),
            forall|j: int| from <= j < i ==> !is_white_space(#[trigger] cs@[j]),
        decreases to - i,
    {
        i = i + 1;
    }
    proof {
        let sub = cs@.subrange(from as int, to as int);
        assert forall|j: int| 0 <= j < i - from implies !is_white_space(#[trigger] sub[j]) by {
            assert(sub[j] == cs@[from + j]);
        }
        lemma_word_length_unique(sub, i - from);
    }
    i
}

/// Why the OAuth redirect could not be read.
#[derive(Debug, Clone, Copy, PartialEq, Eq, Structural)]
pub enum CallbackError {
    /// The request has no target to read.
    MalformedRequest,
    /// The redirect carries no authorization code (the user cancelled).
    MissingCode,
}

impl CallbackError {
    /// The message shown to the user.
    pub fn message(&self) -> (res: String)
        ensures
            *self == CallbackError::MalformedRequest ==> res@ == "Callback OAuth invalido"@,
            *self == CallbackError::MissingCode ==> res@ == "Login cancelado ou sem codigo"@,
    {
        match self {
            CallbackError::MalformedRequest => String::from_str("Callback OAuth invalido"),
            CallbackError::MissingCode => String::from_str("Login cancelado ou sem codigo"),
        }
    }
}

/// What the browser hands back after the user signs in.
pub struct OAuthCallback {
    /// The authorization code.
    pub code: String,
    /// The `state` echoed back, when there is one.
    pub state: Option<String>,
}

/// What reading a redirect request gives, over character sequences.
pub open spec fn callback_spec(r: Seq<char>) -> Result<
    (Seq<char>, Option<Seq<char>>),
    CallbackError,
> {
    match second_word(first_line(r)) {
        None => Err(CallbackError::MalformedRequest),
        Some(target) => {
            let q = query_of(target);
            match query_param_spec(q, "code"@) {
                None => Err(CallbackError::MissingCode),
                Some(code) => Ok((code, query_param_spec(q, "state"@))),
            }
        },
    }
}

/// Reads the authorization code and state from the HTTP request that the
/// browser sends to the local listener: the target of the first line, its
/// query, and the `code` and `state` values in it.
pub fn parse_oauth_callback(request: &str) -> (res: Result<OAuthCallback, CallbackError>)
    ensures
        match callback_spec(request@) {
            Ok((code, state)) => res matches Ok(cb) && cb.code@ == code && match state {
                Some(s) => cb.state matches Some(t) && t@ == s,
                None => cb.state is None,
            },
            Err(e) => res == Err::<OAuthCallback, CallbackError>(e),
        },
{
    let cs = chars_of(request);
    let end = first_line_end(&cs);
    match second_word_bounds(&cs, end) {
        None => Err(CallbackError::MalformedRequest),
        Some((b0, b1)) => {
            let (qs, qe) = query_bounds(&cs, b0, b1);
            let code_key = chars_of("code");
            let state_key = chars_of("state");
            match query_param_in(&cs, qs, qe, &code_key) {
                None => Err(CallbackError::MissingCode),
                Some(code) => {
                    let state = query_param_in(&cs, qs, qe, &state_key);
                    Ok(OAuthCallback { code, state })
                },
            }
        },
    }
}

fn first_line_end(cs: &Vec<char>) -> (end: usize)
    ensures
        end <= cs@.len(),
        cs@.subrange(0, end as int) == first_line(cs@),
{
    let len = cs.len();
    let nl = find_char_between(cs, '\n', 0, len);
    let end = if nl < len && nl > 0 && cs[nl - 1] == '\r' {
        nl - 1
    } else {
        nl
    };
    let ghost r = cs@;
    proof {
        assert(cs@.subrange(0, len as int) =~= r);
        lemma_index_of_first(r, '\n');
        if nl < len {
            assert(r.take(nl as int) =~= cs@.subrange(0, nl as int));
            if nl > 0 && cs@[nl - 1] == '\r' {
                assert(r.take(nl as int).drop_last() =~= cs@.subrange(0, end as int));
            }
        }
        assert(first_line(r) =~= cs@.subrange(0, end as int));
    }
    end
}

fn second_word_bounds(cs: &Vec<char>, end: usize) -> (res: Option<(usize, usize)>)
    requires
        end <= cs@.len(),
    ensures
        match second_word(cs@.subrange(0, end as int)) {
            None => res is None,
            Some(w) => res matches Some((b0, b1)) && b0 <= b1 <= end && cs@.subrange(
                b0 as int,
                b1 as int,
            ) == w,
        },
{
    let ghost line = cs@.subrange(0, end as int);
    let a0 = skip_white(cs, 0, end);
    let a1 = skip_word(cs, a0, end);
    let b0 = skip_white(cs, a1, end);
    let b1 = skip_word(cs, b0, end);
    proof {
        assert(line.skip(a0 as int) =~= cs@.subrange(a0 as int, end as int));
        let a = line.skip(a0 as int);
        assert(a.skip(a1 - a0) =~= cs@.subrange(a1 as int, end as int));
        let b = a.skip(a1 - a0);
        assert(b.skip(b0 - a1) =~= cs@.subrange(b0 as int, end as int));
        let c = b.skip(b0 - a1);
        assert(c.take(b1 - b0) =~= cs@.subrange(b0 as int, b1 as int));
    }
    if a0 == end || b0 == end {
        None
    } else {
        Some((b0, b1))
    }
}

fn query_bounds(cs: &Vec<char>, b0: usize, b1: usize) -> (res: (usize, usize))
    requires
        b0 <= b1 <= cs@.len(),
    ensures
        res.0 <= res.1 <= cs@.len(),
        cs@.subrange(res.0 as int, res.1 as int) == query_of(cs@.subrange(b0 as int, b1 as int)),
{
    let ghost target = cs@.subrange(b0 as int, b1 as int);
    let qm = find_char_between(cs, '?', b0, b1);
    let (qs, qe) = if qm < b1 {
        (qm + 1, b1)
    } else {
        (b1, b1)
    };
    proof {
        if qm < b1 {
            assert(target.skip(qm - b0 + 1) =~= cs@.subrange(qs as int, qe as int));
        } else {
            assert(cs@.subrange(qs as int, qe as int) =~= Seq::<char>::empty());
        }
        assert(query_of(target) =~= cs@.subrange(qs as int, qe as int));
    }
    (qs, qe)
}

proof fn lemma_encode_bytes_append(a: Seq<u8>, b: Seq<u8>)
    ensures
        encode_bytes(a + b) == encode_bytes(a) + encode_bytes(b),
    decreases b.len(),
{
    if b.len() == 0 {
        assert(a + b =~= a);
        assert(encode_bytes(a) + encode_bytes(b) =~= encode_bytes(a));
    } else {
        lemma_encode_bytes_append(a, b.drop_last());
        assert((a + b).drop_last() =~= a + b.drop_last());
        assert(encode_bytes(a + b) =~= encode_bytes(a) + encode_bytes(b));
    }
}

proof fn lemma_encode_utf8_append(x: Seq<char>, y: Seq<char>)
    ensures
        encode_utf8(x + y) == encode_utf8(x) + encode_utf8(y),
    decreases x.len(),
{
    if x.len() == 0 {
        assert(x + y =~= y);
        assert(encode_utf8(x) + encode_utf8(y) =~= encode_utf8(y));
    } else {
        lemma_encode_utf8_append(x.drop_first(), y);
        assert((x + y).drop_first() =~= x.drop_first() + y);
        assert((x + y)[0] == x[0]);
        assert(encode_utf8(x + y) =~= encode_utf8(x) + encode_utf8(y));
    }
}

proof fn lemma_hex_upper_value(d: nat)
    requires
        d < 16,
    ensures
        (hex_upper(d) as u8) as nat == hex_upper(d) as nat,
        hex_upper(d) as nat >= 48,
        hex_upper(d) as nat <= 70,
        hex_value(hex_upper(d) as u8) == Some(d),
{
}

/// The characters of one encoded byte, and their UTF-8 bytes.
proof fn lemma_encode_byte_ascii(b: u8)
    ensures
        is_ascii_chars(encode_byte(b)),
        encode_utf8(encode_byte(b)) == encode_byte(b).map_values(|c: char| c as u8),
        !encode_byte(b).contains('&'),
{
    lemma_hex_upper_value((b / 16) as nat);
    lemma_hex_upper_value((b % 16) as nat);
    let e = encode_byte(b);
    is_ascii_chars_encode_utf8(e);
    assert(encode_utf8(e) =~= e.map_values(|c: char| c as u8));
    if e.contains('&') {
        let i = choose|i: int| 0 <= i < e.len() && e[i] == '&';
        assert(e[i] == '&');
    }
}

/// Decoding an encoded byte followed by anything gives that byte back first.
proof fn lemma_decode_encoded_byte(b: u8, rest: Seq<u8>)
    ensures
        decode_bytes(encode_utf8(encode_byte(b)) + rest) == seq![b as char] + decode_bytes(rest),
{
    lemma_encode_byte_ascii(b);
    lemma_hex_upper_value((b / 16) as nat);
    lemma_hex_upper_value((b % 16) as nat);
    let e = encode_utf8(encode_byte(b));
    let bs = e + rest;
    if is_unreserved(b) {
        assert(e =~= seq![b]);
        assert(bs.skip(1) =~= rest);
    } else {
        assert(e.len() == 3);
        assert(bs[0] == 37);
        assert(bs.skip(3) =~= rest);
        assert(hex_pair(bs[1], bs[2]) == Some(b));
    }
}

/// Decoding the UTF-8 bytes of an encoding reads the encoded bytes back,
/// each as the character of the same number.
proof fn lemma_decode_encode_bytes(bs: Seq<u8>)
    ensures
        is_ascii_chars(encode_bytes(bs)),
        decode_bytes(encode_utf8(encode_bytes(bs))) == bs.map_values(|b: u8| b as char),
    decreases bs.len(),
{
    if bs.len() == 0 {
        assert(encode_bytes(bs) =~= Seq::<char>::empty());
        assert(bs.map_values(|b: u8| b as char) =~= Seq::<char>::empty());
    } else {
        let first = seq![bs[0]];
        let tail = bs.drop_first();
        assert(bs =~= first + tail);
        lemma_encode_bytes_append(first, tail);
        assert(first.drop_last() =~= Seq::<u8>::empty());
        assert(encode_bytes(Seq::<u8>::empty()) =~= Seq::<char>::empty());
        assert(first.last() == bs[0]);
        assert(encode_bytes(first) =~= Seq::<char>::empty() + encode_byte(bs[0]));
        assert(encode_bytes(first) =~= encode_byte(bs[0]));
        lemma_decode_encode_bytes(tail);
        lemma_encode_byte_ascii(bs[0]);
        lemma_encode_utf8_append(encode_byte(bs[0]), encode_bytes(tail));
        lemma_decode_encoded_byte(bs[0], encode_utf8(encode_bytes(tail)));
        is_ascii_chars_concat(encode_bytes(bs), encode_byte(bs[0]), encode_bytes(tail));
        assert(decode_bytes(encode_utf8(encode_bytes(bs))) =~= bs.map_values(|b: u8| b as char));
    }
}

/// Decoding undoes encoding on ASCII text: for every ASCII string `s`,
/// `decode_component(&encode_component(s))` is `s` again.
pub proof fn law_decode_undoes_encode(s: Seq<char>)
    requires
        is_ascii_chars(s),
    ensures
        decode_bytes(encode_utf8(encode_bytes(encode_utf8(s)))) == s,
{
    lemma_decode_encode_bytes(encode_utf8(s));
    is_ascii_chars_encode_utf8(s);
    assert(encode_utf8(s).map_values(|b: u8| b as char) =~= s);
}

/// An encoding holds no `&`, so it never splits a query part.
proof fn lemma_encode_bytes_no_amp(bs: Seq<u8>)
    ensures
        !encode_bytes(bs).contains('&'),
    decreases bs.len(),
{
    if bs.len() > 0 {
        lemma_encode_bytes_no_amp(bs.drop_last());
        lemma_encode_byte_ascii(bs.last());
        let e = encode_bytes(bs);
        if e.contains('&') {
            let i = choose|i: int| 0 <= i < e.len() && e[i] == '&';
            let a = encode_bytes(bs.drop_last());
            if i < a.len() {
                assert(a[i] == '&');
            } else {
                assert(encode_byte(bs.last())[i - a.len()] == '&');
            }
        }
    }
}

/// A value written into a query under a key is read back under that key:
/// for a key without `&` and `=`, an ASCII value, and any further parts
/// (`rest` empty or starting with `&`), `query_param` on
/// `key=encode_component(value)` followed by `rest` gives `value`.
pub proof fn law_query_param_reads_written_value(
    key: Seq<char>,
    value: Seq<char>,
    rest: Seq<char>,
)
    requires
        !key.contains('&'),
        !key.contains('='),
        is_ascii_chars(value),
        rest.len() == 0 || rest[0] == '&',
    ensures
        query_param_spec(key + seq!['='] + encode_bytes(encode_utf8(value)) + rest, key) == Some(
            value,
        ),
{
    let enc = encode_bytes(encode_utf8(value));
    let part = key + seq!['='] + enc;
    let q = part + rest;
    lemma_encode_bytes_no_amp(encode_utf8(value));
    assert forall|j: int| 0 <= j < part.len() implies part[j] != '&' by {
        if j < key.len() {
            assert(part[j] == key[j]);
        } else if j > key.len() {
            assert(part[j] == enc[j - key.len() - 1]);
        }
    }
    assert forall|j: int| 0 <= j < key.len() implies q[j] != '&' && part[j] != '=' by {
        assert(part[j] == key[j]);
    }
    lemma_index_of_first_unique(q, '&', part.len() as int);
    assert(q.take(part.len() as int) =~= part);
    lemma_index_of_first_unique(part, '=', key.len() as int);
    assert(part.take(key.len() as int) =~= key);
    assert(part.skip(key.len() + 1int) =~= enc);
    law_decode_undoes_encode(value);
}

/// An encoded component is safe in a URL: `encode_component` writes only
/// unreserved ASCII characters (letters, digits, `-`, `_`, `.`, `~`) and
/// `%` (the hexadecimal digits after it are letters and digits).
pub proof fn law_encoding_is_url_safe(bs: Seq<u8>)
    ensures
        forall|i: int|
            0 <= i < encode_bytes(bs).len() ==> {
                let c = #[trigger] encode_bytes(bs)[i];
                c == '%' || ('0' <= c && c <= '9') || ('A' <= c && c <= 'Z') || ('a' <= c && c
                    <= 'z') || c == '-' || c == '_' || c == '.' || c == '~'
            },
    decreases bs.len(),
{
    if bs.len() > 0 {
        law_encoding_is_url_safe(bs.drop_last());
        let b = bs.last();
        lemma_hex_upper_value((b / 16) as nat);
        lemma_hex_upper_value((b % 16) as nat);
        let a = encode_bytes(bs.drop_last());
        let e = encode_byte(b);
        assert forall|i: int| 0 <= i < encode_bytes(bs).len() implies {
            let c = #[trigger] encode_bytes(bs)[i];
            c == '%' || ('0' <= c && c <= '9') || ('A' <= c && c <= 'Z') || ('a' <= c && c <= 'z')
                || c == '-' || c == '_' || c == '.' || c == '~'
        } by {
            if i < a.len() {
                assert(encode_bytes(bs)[i] == a[i]);
            } else {
                assert(encode_bytes(bs)[i] == e[i - a.len()]);
            }
        }
    }
}

/// The request line `GET <target> HTTP/1.1` ending in CR LF, then `rest`.
pub open spec fn get_request(target: Seq<char>, rest: Seq<char>) -> Seq<char> {
    seq!['G', 'E', 'T', ' '] + target + seq![' ', 'H', 'T', 'T', 'P', '/', '1', '.', '1']
        + seq!['\r', '\n'] + rest
}

proof fn lemma_get_request_target(target: Seq<char>, rest: Seq<char>)
    requires
        target.len() > 0,
        forall|j: int| 0 <= j < target.len() ==> !is_white_space(#[trigger] target[j]),
    ensures
        second_word(first_line(get_request(target, rest))) == Some(target),
{
    let version = seq![' ', 'H', 'T', 'T', 'P', '/', '1', '.', '1'];
    let line = seq!['G', 'E', 'T', ' '] + target + version;
    let request = get_request(target, rest);
    assert(request =~= line + seq!['\r', '\n'] + rest);
    assert forall|j: int| 0 <= j < line.len() implies line[j] != '\n' by {
        if 4 <= j < 4 + target.len() {
            assert(line[j] == target[j - 4]);
            assert(!is_white_space(target[j - 4]));
        }
    }
    assert(request[line.len() as int] == '\r');
    assert(request[line.len() + 1int] == '\n');
    lemma_index_of_first_unique(request, '\n', line.len() + 1int);
    assert(request.take(line.len() + 1int) =~= line + seq!['\r']);
    assert((line + seq!['\r']).drop_last() =~= line);
    assert(first_line(request) == line);
    lemma_leading_white_unique(line, 0);
    lemma_word_length_unique(line, 3);
    let b = line.skip(3);
    assert(b =~= seq![' '] + target + version);
    lemma_leading_white_unique(b, 1);
    let c = b.skip(1);
    assert(c =~= target + version);
    assert forall|j: int| 0 <= j < target.len() implies !is_white_space(#[trigger] c[j]) by {
        assert(c[j] == target[j]);
    }
    lemma_word_length_unique(c, target.len() as int);
    assert(c.take(target.len() as int) =~= target);
    assert(line.skip(0) =~= line);
}

/// The query `code=<c>&state=<s>`, each value percent-encoded.
pub open spec fn code_state_query(code: Seq<char>, state: Seq<char>) -> Seq<char> {
    seq!['c', 'o', 'd', 'e', '='] + encode_bytes(encode_utf8(code)) + seq![
        '&',
        's',
        't',
        'a',
        't',
        'e',
        '=',
    ] + encode_bytes(encode_utf8(state))
}

proof fn lemma_code_state_query(code: Seq<char>, state: Seq<char>)
    requires
        is_ascii_chars(code),
        is_ascii_chars(state),
    ensures
        query_param_spec(code_state_query(code, state), "code"@) == Some(code),
        query_param_spec(code_state_query(code, state), "state"@) == Some(state),
{
    let ec = encode_bytes(encode_utf8(code));
    let es = encode_bytes(encode_utf8(state));
    lemma_encode_bytes_no_amp(encode_utf8(code));
    let code_key = seq!['c', 'o', 'd', 'e'];
    let state_key = seq!['s', 't', 'a', 't', 'e'];
    let state_part = state_key + seq!['='] + es;
    let first = code_key + seq!['='] + ec;
    let q = code_state_query(code, state);
    assert(q =~= first + (seq!['&'] + state_part));
    assert(!code_key.contains('&') && !code_key.contains('=')) by {
        if code_key.contains('&') || code_key.contains('=') {
            let i = choose|i: int|
                0 <= i < code_key.len() && (code_key[i] == '&' || code_key[i] == '=');
        }
    }
    assert(!state_key.contains('&') && !state_key.contains('=')) by {
        if state_key.contains('&') || state_key.contains('=') {
            let i = choose|i: int|
                0 <= i < state_key.len() && (state_key[i] == '&' || state_key[i] == '=');
        }
    }
    law_query_param_reads_written_value(code_key, code, seq!['&'] + state_part);
    reveal_strlit("code");
    reveal_strlit("state");
    assert("code"@ =~= code_key);
    assert("state"@ =~= state_key);
    assert forall|j: int| 0 <= j < first.len() implies q[j] != '&' by {
        assert(q[j] == first[j]);
        if j > 4 {
            assert(first[j] == ec[j - 5]);
            assert(ec.contains(ec[j - 5]));
        }
    }
    assert(q[first.len() as int] == '&');
    lemma_index_of_first_unique(q, '&', first.len() as int);
    assert(q.take(first.len() as int) =~= first);
    assert forall|j: int| 0 <= j < 4 implies first[j] != '=' by {}
    lemma_index_of_first_unique(first, '=', 4);
    assert(first.take(4) =~= code_key);
    assert(code_key != state_key) by {
        assert(code_key.len() != state_key.len());
    }
    assert(param_value(first, state_key) is None);
    assert(q.skip(first.len() + 1int) =~= state_part);
    law_query_param_reads_written_value(state_key, state, Seq::<char>::empty());
    assert(state_part + Seq::<char>::empty() =~= state_part);
    assert(raw_query_param(q, state_key) == raw_query_param(state_part, state_key));
}

/// The redirect the browser sends after signing in is read back: for a
/// request whose first line is `GET /?code=<c>&state=<s> HTTP/1.1`, with
/// `c` and `s` ASCII texts percent-encoded as `encode_component` does,
/// `parse_oauth_callback` gives the code `c` and the state `s`, whatever
/// the headers after it.
pub proof fn law_callback_reads_code_and_state(code: Seq<char>, state: Seq<char>, rest: Seq<char>)
    requires
        is_ascii_chars(code),
        is_ascii_chars(state),
    ensures
        callback_spec(
            get_request(seq!['/', '?'] + code_state_query(code, state), rest),
        ) == Ok::<(Seq<char>, Option<Seq<char>>), CallbackError>((code, Some(state))),
{
    let q = code_state_query(code, state);
    let target = seq!['/', '?'] + q;
    let ec = encode_bytes(encode_utf8(code));
    let es = encode_bytes(encode_utf8(state));
    law_encoding_is_url_safe(encode_utf8(code));
    law_encoding_is_url_safe(encode_utf8(state));
    assert forall|j: int| 0 <= j < target.len() implies !is_white_space(#[trigger] target[j]) by {
        if 7 <= j < 7 + ec.len() {
            assert(target[j] == ec[j - 7]);
        } else if 7 + ec.len() + 7 <= j {
            assert(target[j] == es[j - (7 + ec.len() + 7)]);
        }
    }
    lemma_get_request_target(target, rest);
    lemma_index_of_first_unique(target, '?', 1);
    assert(target.skip(2) =~= q);
    lemma_code_state_query(code, state);
}

} // verus!
