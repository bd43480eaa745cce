//! Tokens of STEP physical files (ISO 10303-21) as the IFC parser reads them:
//! number and logical literals, token classification, binary literals, and
//! the rendering of attribute values back into STEP text.
#![allow(non_snake_case)]
use crate::text::{
    lemma_decimal_all_digits, all_digits, is_digit, upper, upper_char, capped, chars_of, decimal, decimal_int, digits_value, digits_value_capped, push_decimal,
    push_decimal_i64, push_str, string_from_chars,
};
use vstd::prelude::*;
use vstd::utf8::{encode_utf8, is_ascii_chars, is_ascii_chars_encode_utf8};

verus! {

/// Kinds of tokens.
#[derive(Clone, Copy, Debug, PartialEq, Eq, Structural)]
pub enum TokenType {
    Token_NONE,
    Token_OPERATOR,
    Token_IDENTIFIER,
    Token_STRING,
    Token_ENUMERATION,
    Token_BINARY,
    Token_KEYWORD,
    Token_INT,
    Token_BOOL,
    Token_FLOAT,
}

/// A token: where it lies in the file, its kind, and the integer or
/// character it carries (an instance name, an integer, a logical, an
/// operator).
#[derive(Clone, Copy, Debug)]
pub struct Token {
    pub startPos: u32,
    pub endPos: u32,
    pub type_: TokenType,
    pub value_int: i32,
    pub value_char: char,
}

/// Nothing to set up: numbers are parsed independently of the locale.
pub fn init_locale() {
}

/// The value of a decimal integer literal: an optional sign, then one or
/// more ASCII digits, within the range of `i32`.
pub open spec fn parse_i32(s: Seq<char>) -> Option<i32> {
    if s.len() == 0 {
        None
    } else {
        let signed = s[0] == '-' || s[0] == '+';
        let body = if signed {
            s.drop_first()
        } else {
            s
        };
        let v: int = if s[0] == '-' {
            -(digits_value(body) as int)
        } else {
            digits_value(body) as int
        };
        if body.len() == 0 || !all_digits(body) || v < i32::MIN || v > i32::MAX {
            None
        } else {
            Some(v as i32)
        }
    }
}

/// Parses a decimal integer literal; on success stores its value in `val`.
pub fn ParseInt(pStart: &str, val: &mut i32) -> (r: bool)
    ensures
        r == parse_i32(pStart@) is Some,
        r ==> *final(val) == parse_i32(pStart@)->0,
        !r ==> *final(val) == *old(val),
{
    let cs = chars_of(pStart);
    parse_i32_chars(&cs, val)
}

fn parse_i32_chars(cs: &Vec<char>, val: &mut i32) -> (r: bool)
    ensures
        r == parse_i32(cs@) is Some,
        r ==> *final(val) == parse_i32(cs@)->0,
        !r ==> *final(val) == *old(val),
{
    if cs.len() == 0 {
        return false;
    }
    let neg = cs[0] == '-';
    let start: usize = if cs[0] == '-' || cs[0] == '+' {
        1
    } else {
        0
    };
    let ghost body = if start == 1 {
        cs@.drop_first()
    } else {
        cs@
    };
    assert(cs@.subrange(start as int, cs@.len() as int) =~= body);
    if start == cs.len() {
        return false;
    }
    let cap: u64 = 2147483649;
    match digits_value_capped(cs, start, cs.len(), cap) {
        None => false,
        Some(m) => {
            if neg {
                if m > 2147483648 {
                    return false;
                }
                *val = (0i64 - m as i64) as i32;
                true
            } else {
                if m > 2147483647 {
                    return false;
                }
                *val = m as i32;
                true
            }
        },
    }
}

/// The value of a STEP logical literal `.T.`, `.F.` or `.U.`: 1, 0 or 2.
pub open spec fn parse_logical(b: Seq<u8>) -> Option<i32> {
    if b.len() != 3 || b[0] != 46u8 || b[2] != 46u8 {
        None
    } else if b[1] == 84u8 {
        Some(1)
    } else if b[1] == 70u8 {
        Some(0)
    } else if b[1] == 85u8 {
        Some(2)
    } else {
        None
    }
}

/// Parses a logical literal; on success stores its value in `val`.
pub fn ParseBool(pStart: &str, val: &mut i32) -> (r: bool)
    ensures
        r == parse_logical(encode_utf8(pStart@)) is Some,
        r ==> *final(val) == parse_logical(encode_utf8(pStart@))->0,
        !r ==> *final(val) == *old(val),
{
    let b = pStart.as_bytes();
    if b.len() != 3 {
        return false;
    }
    if b[0] != 46u8 || b[2] != 46u8 {
        return false;
    }
    if b[1] == 84u8 {
        *val = 1;
        true
    } else if b[1] == 70u8 {
        *val = 0;
        true
    } else if b[1] == 85u8 {
        *val = 2;
        true
    } else {
        false
    }
}

/// Is `c` a sign?
pub open spec fn is_sign(c: char) -> bool {
    c == '+' || c == '-'
}

/// Is `c` the exponent mark of a real literal?
pub open spec fn is_exp_mark(c: char) -> bool {
    c == 'e' || c == 'E'
}

/// `s` without a leading sign.
pub open spec fn unsigned_part(s: Seq<char>) -> Seq<char> {
    if s.len() > 0 && is_sign(s[0]) {
        s.drop_first()
    } else {
        s
    }
}

/// The digits of a real literal before its exponent: digits with at most
/// one point among them, and at least one digit.
pub open spec fn mantissa(m: Seq<char>) -> bool {
    ||| m.len() > 0 && all_digits(m)
    ||| exists|d: int|
        0 <= d < m.len() && m[d] == '.' && m.len() >= 2 && all_digits(m.take(d)) && all_digits(
            #[trigger] m.skip(d + 1),
        )
}

/// The exponent of a real literal after its mark: an optional sign, then
/// one or more digits.
pub open spec fn exponent(x: Seq<char>) -> bool {
    unsigned_part(x).len() > 0 && all_digits(unsigned_part(x))
}

/// A decimal real number: a mantissa, optionally followed by an exponent.
pub open spec fn real_number(b: Seq<char>) -> bool {
    ||| mantissa(b)
    ||| exists|e: int|
        0 <= e < b.len() && is_exp_mark(b[e]) && mantissa(#[trigger] b.take(e)) && exponent(b.skip(e + 1))
}

/// Is `s` a real literal: an optional sign, then `inf`, `infinity` or
/// `nan` in any case, or a decimal real number. These are the strings that
/// the standard library reads as a floating-point number.
pub open spec fn real_literal(s: Seq<char>) -> bool {
    let b = unsigned_part(s);
    ||| upper(b) == seq!['I', 'N', 'F']
    ||| upper(b) == seq!['I', 'N', 'F', 'I', 'N', 'I', 'T', 'Y']
    ||| upper(b) == seq!['N', 'A', 'N']
    ||| real_number(b)
}

proof fn lemma_mantissa_chars(m: Seq<char>, k: int)
    requires
        mantissa(m),
        0 <= k < m.len(),
    ensures
        is_digit(m[k]) || m[k] == '.',
{
    if !all_digits(m) {
        let d = choose|d: int|
            0 <= d < m.len() && m[d] == '.' && m.len() >= 2 && all_digits(m.take(d)) && all_digits(
                #[trigger] m.skip(d + 1),
            );
        if k < d {
            assert(m.take(d)[k] == m[k]);
        } else if k > d {
            assert(m.skip(d + 1)[k - d - 1] == m[k]);
        }
    }
}

/// Are the characters of `s` from `a` to `b` all digits?
fn digits_between(s: &Vec<char>, a: usize, b: usize) -> (r: bool)
    requires
        a <= b <= s@.len(),
    ensures
        r == all_digits(s@.subrange(a as int, b as int)),
{
    let mut i = a;
    while i < b
        invariant
            a <= i <= b <= s@.len(),
            all_digits(s@.subrange(a as int, i as int)),
        decreases b - i,
    {
        if !(s[i] >= '0' && s[i] <= '9') {
            assert(s@.subrange(a as int, b as int)[i - a] == s@[i as int]);
            return false;
        }
        i = i + 1;
        assert forall|k: int| 0 <= k < i - a implies is_digit(#[trigger] s@.subrange(a as int, i as int)[k]) by {
            if k < i - 1 - a {
                assert(s@.subrange(a as int, i as int)[k] == s@.subrange(a as int, i - 1)[k]);
            }
        }
    }
    true
}

/// Index of the first character of `s` at or after `from` and before `to`
/// that is `c` (or the exponent mark when `exp`), or `to` when there is none.
fn first_of(s: &Vec<char>, from: usize, to: usize, c: char, exp: bool) -> (r: usize)
    requires
        from <= to <= s@.len(),
    ensures
        from <= r <= to,
        forall|k: int| from <= k < r ==> !(if exp { is_exp_mark(#[trigger] s@[k]) } else { s@[k] == c }),
        r < to ==> (if exp { is_exp_mark(s@[r as int]) } else { s@[r as int] == c }),
{
    let mut i = from;
    while i < to
        invariant
            from <= i <= to <= s@.len(),
            forall|k: int| from <= k < i ==> !(if exp { is_exp_mark(#[trigger] s@[k]) } else { s@[k] == c }),
        decreases to - i,
    {
        let hit = if exp {
            s[i] == 'e' || s[i] == 'E'
        } else {
            s[i] == c
        };
        if hit {
            return i;
        }
        i = i + 1;
    }
    i
}

/// Is `m`, the characters of `s` from `a` to `b`, a mantissa?
fn is_mantissa(s: &Vec<char>, a: usize, b: usize) -> (r: bool)
    requires
        a <= b <= s@.len(),
    ensures
        r == mantissa(s@.subrange(a as int, b as int)),
{
    let ghost m = s@.subrange(a as int, b as int);
    let d = first_of(s, a, b, '.', false);
    if d == b {
        let r = b > a && digits_between(s, a, b);
        proof {
            if exists|d: int|
                0 <= d < m.len() && m[d] == '.' && m.len() >= 2 && all_digits(m.take(d)) && all_digits(
                    #[trigger] m.skip(d + 1),
                ) {
                let w = choose|d: int|
                    0 <= d < m.len() && m[d] == '.' && m.len() >= 2 && all_digits(m.take(d)) && all_digits(
                        #[trigger] m.skip(d + 1),
                    );
                assert(m[w] == s@[a + w]);
            }
        }
        r
    } else {
        let r = b - a >= 2 && digits_between(s, a, d) && digits_between(s, d + 1, b);
        proof {
            let dd = d - a;
            assert(m[dd] == '.');
            assert(!all_digits(m));
            assert(m.take(dd) =~= s@.subrange(a as int, d as int));
            assert(m.skip(dd + 1) =~= s@.subrange(d + 1, b as int));
            if exists|w: int|
                0 <= w < m.len() && m[w] == '.' && m.len() >= 2 && all_digits(m.take(w)) && all_digits(
                    #[trigger] m.skip(w + 1),
                ) {
                let w = choose|w: int|
                    0 <= w < m.len() && m[w] == '.' && m.len() >= 2 && all_digits(m.take(w)) && all_digits(
                        #[trigger] m.skip(w + 1),
                    );
                if w < dd {
                    assert(m[w] == s@[a + w]);
                } else if w > dd {
                    assert(m.take(w)[dd] == m[dd]);
                }
            }
        }
        r
    }
}

/// Is `b` a decimal real number?
fn is_real_number(b: &Vec<char>) -> (r: bool)
    ensures
        r == real_number(b@),
{
    let n = b.len();
    let e = first_of(b, 0, n, 'e', true);
    if e == n {
        let r = is_mantissa(b, 0, n);
        proof {
            assert(b@.subrange(0, n as int) =~= b@);
            if exists|e: int|
                0 <= e < b@.len() && is_exp_mark(b@[e]) && mantissa(#[trigger] b@.take(e)) && exponent(
                    b@.skip(e + 1),
                ) {
                let w = choose|e: int|
                    0 <= e < b@.len() && is_exp_mark(b@[e]) && mantissa(#[trigger] b@.take(e)) && exponent(
                        b@.skip(e + 1),
                    );
                assert(!is_exp_mark(b@[w]));
            }
        }
        r
    } else {
        let m = is_mantissa(b, 0, e);
        let mut st = e + 1;
        if st < n && (b[st] == '+' || b[st] == '-') {
            st = st + 1;
        }
        let x = st < n && digits_between(b, st, n);
        proof {
            let bv = b@;
            assert(bv.take(e as int) =~= bv.subrange(0, e as int));
            let xs = bv.skip(e + 1);
            assert(unsigned_part(xs) =~= bv.subrange(st as int, n as int));
            if mantissa(bv) {
                lemma_mantissa_chars(bv, e as int);
            }
            if exists|w: int|
                0 <= w < bv.len() && is_exp_mark(bv[w]) && mantissa(#[trigger] bv.take(w)) && exponent(
                    bv.skip(w + 1),
                ) {
                let w = choose|w: int|
                    0 <= w < bv.len() && is_exp_mark(bv[w]) && mantissa(#[trigger] bv.take(w)) && exponent(
                        bv.skip(w + 1),
                    );
                if w > e {
                    lemma_mantissa_chars(bv.take(w), e as int);
                }
            }
        }
        m && x
    }
}

/// Is `s` a real literal?
fn is_real_literal(s: &Vec<char>) -> (r: bool)
    ensures
        r == real_literal(s@),
{
    let mut body: Vec<char> = Vec::new();
    let start: usize = if s.len() > 0 && (s[0] == '+' || s[0] == '-') {
        1
    } else {
        0
    };
    let mut i = start;
    while i < s.len()
        invariant
            start <= i <= s@.len(),
            body@ == s@.subrange(start as int, i as int),
        decreases s@.len() - i,
    {
        body.push(s[i]);
        i = i + 1;
        assert(body@ =~= s@.subrange(start as int, i as int));
    }
    assert(body@ =~= unsigned_part(s@));
    let up = upper_chars(&body);
    let special = chars_equal(&up, "INF") || chars_equal(&up, "INFINITY") || chars_equal(&up, "NAN");
    proof {
        reveal_strlit("INF");
        reveal_strlit("INFINITY");
        reveal_strlit("NAN");
        assert("INF"@ =~= seq!['I', 'N', 'F']);
        assert("INFINITY"@ =~= seq!['I', 'N', 'F', 'I', 'N', 'I', 'T', 'Y']);
        assert("NAN"@ =~= seq!['N', 'A', 'N']);
    }
    special || is_real_number(&body)
}

/// The ASCII upper-case form of `s`.
fn upper_chars(s: &Vec<char>) -> (r: Vec<char>)
    ensures
        r@ == upper(s@),
{
    let mut out: Vec<char> = Vec::new();
    let mut i: usize = 0;
    while i < s.len()
        invariant
            i <= s@.len(),
            out@ == upper(s@.take(i as int)),
        decreases s@.len() - i,
    {
        let c = s[i];
        let u = if 'a' <= c && c <= 'z' {
            ((c as u32 - 32) as u8) as char
        } else {
            c
        };
        assert(u == upper_char(c));
        out.push(u);
        i = i + 1;
        assert(out@ =~= upper(s@.take(i as int)));
    }
    assert(s@.take(i as int) =~= s@);
    out
}

/// Are `v` and `t` the same characters?
fn chars_equal(v: &Vec<char>, t: &str) -> (r: bool)
    ensures
        r == (v@ == t@),
{
    let w = chars_of(t);
    if v.len() != w.len() {
        return false;
    }
    let mut i: usize = 0;
    while i < v.len()
        invariant
            i <= v@.len(),
            v@.len() == w@.len(),
            w@ == t@,
            forall|k: int| 0 <= k < i ==> v@[k] == w@[k],
        decreases v@.len() - i,
    {
        if v[i] != w[i] {
            return false;
        }
        i = i + 1;
    }
    assert(v@ =~= w@);
    true
}

/// The kind and value of a token whose first character is `first` and
/// whose text, with separators removed, is `text`.
pub open spec fn classify(first: char, text: Seq<char>) -> (TokenType, i32, char) {
    if first == '#' {
        match parse_i32(text.drop_first()) {
            Some(v) => (TokenType::Token_IDENTIFIER, v, '\0'),
            None => (TokenType::Token_OPERATOR, 0, '$'),
        }
    } else if first == '\'' {
        (TokenType::Token_STRING, 0, '\0')
    } else if first == '.' {
        match parse_logical(encode_utf8(text)) {
            Some(v) => (TokenType::Token_BOOL, v, '\0'),
            None => (TokenType::Token_ENUMERATION, 0, '\0'),
        }
    } else if first == '"' {
        (TokenType::Token_BINARY, 0, '\0')
    } else if parse_i32(text) is Some {
        (TokenType::Token_INT, parse_i32(text)->0, '\0')
    } else if real_literal(text) {
        (TokenType::Token_FLOAT, 0, '\0')
    } else {
        (TokenType::Token_KEYWORD, 0, '\0')
    }
}

/// Makes the token of a general (non-operator) lexeme between `start` and
/// `end`: `first` is its first character and `text` its text with
/// separators removed. An identifier whose number does not parse becomes the
/// operator `$`. The value of a floating-point token is not set here.
pub fn general_token(start: u32, end: u32, first: char, text: &str) -> (r: Token)
    requires
        first == '#' ==> text@.len() > 0 && text@[0] == '#',
    ensures
        r.startPos == start,
        r.endPos == end,
        (r.type_, r.value_int, r.value_char) == classify(first, text@),
{
    let mut token = Token {
        startPos: start,
        endPos: end,
        type_: TokenType::Token_NONE,
        value_int: 0,
        value_char: '\0',
    };
    let cs = chars_of(text);
    if first == '#' {
        token.type_ = TokenType::Token_IDENTIFIER;
        let mut rest: Vec<char> = Vec::new();
        let mut i: usize = 1;
        while i < cs.len()
            invariant
                1 <= i <= cs@.len(),
                rest@ == cs@.subrange(1, i as int),
            decreases cs@.len() - i,
        {
            rest.push(cs[i]);
            i = i + 1;
            assert(rest@ =~= cs@.subrange(1, i as int));
        }
        assert(rest@ =~= text@.drop_first());
        let mut v: i32 = 0;
        if !parse_i32_chars(&rest, &mut v) {
            token.type_ = TokenType::Token_OPERATOR;
            token.value_char = '$';
        } else {
            token.value_int = v;
        }
    } else if first == '\'' {
        token.type_ = TokenType::Token_STRING;
    } else if first == '.' {
        token.type_ = TokenType::Token_ENUMERATION;
        let mut v: i32 = 0;
        if ParseBool(text, &mut v) {
            token.type_ = TokenType::Token_BOOL;
            token.value_int = v;
        }
    } else if first == '"' {
        token.type_ = TokenType::Token_BINARY;
    } else {
        let mut v: i32 = 0;
        if parse_i32_chars(&cs, &mut v) {
            token.type_ = TokenType::Token_INT;
            token.value_int = v;
        } else if is_real_literal(&cs) {
            token.type_ = TokenType::Token_FLOAT;
        } else {
            token.type_ = TokenType::Token_KEYWORD;
        }
    }
    token
}

/// An operator token at `start` whose character is `ch`.
pub fn operator_token(start: u32, end: u32, ch: char) -> (r: Token)
    ensures
        r.startPos == start,
        r.endPos == end,
        r.type_ == TokenType::Token_OPERATOR,
        r.value_int == 0,
        r.value_char == ch,
{
    Token { startPos: start, endPos: end, type_: TokenType::Token_OPERATOR, value_int: 0, value_char: ch }
}

/// Questions and conversions about tokens.
pub struct TokenFunc;

impl TokenFunc {
    pub fn isOperator(token: &Token) -> (r: bool)
        ensures
            r == (token.type_ == TokenType::Token_OPERATOR),
    {
        token.type_ == TokenType::Token_OPERATOR
    }

    pub fn isOperator_ch(token: &Token, ch: char) -> (r: bool)
        ensures
            r == (token.type_ == TokenType::Token_OPERATOR && token.value_char == ch),
    {
        token.type_ == TokenType::Token_OPERATOR && token.value_char == ch
    }

    pub fn isIdentifier(token: &Token) -> (r: bool)
        ensures
            r == (token.type_ == TokenType::Token_IDENTIFIER),
    {
        token.type_ == TokenType::Token_IDENTIFIER
    }

    pub fn isString(token: &Token) -> (r: bool)
        ensures
            r == (token.type_ == TokenType::Token_STRING),
    {
        token.type_ == TokenType::Token_STRING
    }

    /// Enumeration values include the logicals.
    pub fn isEnumeration(token: &Token) -> (r: bool)
        ensures
            r == (token.type_ == TokenType::Token_ENUMERATION || token.type_ == TokenType::Token_BOOL),
    {
        token.type_ == TokenType::Token_ENUMERATION || token.type_ == TokenType::Token_BOOL
    }

    pub fn isBinary(token: &Token) -> (r: bool)
        ensures
            r == (token.type_ == TokenType::Token_BINARY),
    {
        token.type_ == TokenType::Token_BINARY
    }

    pub fn isKeyword(token: &Token) -> (r: bool)
        ensures
            r == (token.type_ == TokenType::Token_KEYWORD),
    {
        token.type_ == TokenType::Token_KEYWORD
    }

    pub fn isInt(token: &Token) -> (r: bool)
        ensures
            r == (token.type_ == TokenType::Token_INT),
    {
        token.type_ == TokenType::Token_INT
    }

    /// A boolean is a logical other than `.U.`.
    pub fn isBool(token: &Token) -> (r: bool)
        ensures
            r == (token.type_ == TokenType::Token_BOOL && token.value_int != 2),
    {
        token.type_ == TokenType::Token_BOOL && token.value_int != 2
    }

    pub fn isLogical(token: &Token) -> (r: bool)
        ensures
            r == (token.type_ == TokenType::Token_BOOL),
    {
        token.type_ == TokenType::Token_BOOL
    }

    /// Integers are accepted where reals are expected.
    pub fn isFloat(token: &Token) -> (r: bool)
        ensures
            r == (token.type_ == TokenType::Token_FLOAT || token.type_ == TokenType::Token_INT),
    {
        token.type_ == TokenType::Token_FLOAT || token.type_ == TokenType::Token_INT
    }

    pub fn asInt(token: &Token) -> (r: i32)
        requires
            token.type_ == TokenType::Token_INT,
        ensures
            r == token.value_int,
    {
        token.value_int
    }

    pub fn asIdentifier(token: &Token) -> (r: i32)
        requires
            token.type_ == TokenType::Token_IDENTIFIER,
        ensures
            r == token.value_int,
    {
        token.value_int
    }

    pub fn asBool(token: &Token) -> (r: bool)
        requires
            token.type_ == TokenType::Token_BOOL,
        ensures
            r == (token.value_int == 1),
    {
        token.value_int == 1
    }

    pub fn asLogical(token: &Token) -> (r: Option<bool>)
        requires
            token.type_ == TokenType::Token_BOOL,
        ensures
            r == if token.value_int == 0 {
                Some(false)
            } else if token.value_int == 1 {
                Some(true)
            } else {
                None
            },
    {
        if token.value_int == 0 {
            Some(false)
        } else if token.value_int == 1 {
            Some(true)
        } else {
            None
        }
    }

    /// The bits of a binary literal whose text between the quotes is `s`:
    /// a digit giving the number of padding bits, then hexadecimal digits.
    pub fn asBinary(s: &str) -> (r: Vec<bool>)
        requires
            binary_text_ok(s@),
            encode_utf8(s@).len() < 0x1000_0000,
        ensures
            r@ == binary_bits(s@, encode_utf8(s@).len() as int),
    {
        let cs = chars_of(s);
        let blen = s.as_bytes().len();
        let n = (cs[0] as u32 - 48) as i64;
        let total: i64 = ((blen - 1) * 4) as i64 - n;
        let size: i64 = if total > 0 {
            total
        } else {
            0
        };
        let mut bits: Vec<bool> = Vec::new();
        let mut p: i64 = 0;
        while p < size
            invariant
                0 <= p <= size,
                size == if total > 0 { total } else { 0 },
                total == binary_total(s@, blen as int),
                cs@ == s@,
                binary_text_ok(s@),
                bits@ == Seq::new(p as nat, |k: int| bit_at(s@, total as int, k)),
            decreases size - p,
        {
            let t = total - 1 - p;
            let q = (t / 4 + 1) as usize;
            let mut bit = false;
            if q < cs.len() {
                let c = cs[q];
                let value: u32 = if (c as u32) < 65 {
                    (c as u32) - 48
                } else {
                    ((c as u32) % 256) - 55
                };
                bit = ((value >> ((3 - t % 4) as u32)) & 1) == 1;
            }
            bits.push(bit);
            p = p + 1;
            assert(bits@ =~= Seq::new(p as nat, |k: int| bit_at(s@, total as int, k)));
        }
        bits
    }
}

/// Value of a hexadecimal digit as the binary parser reads it.
pub open spec fn hex_value(c: char) -> u32 {
    if (c as u32) < 65 {
        (c as u32 - 48) as u32
    } else {
        ((c as u32) % 256 - 55) as u32
    }
}

/// The text of a binary literal is one the parser accepts: a leading digit
/// from 0 to 3 (0 when nothing follows), then characters that are digits or
/// read as letters.
pub open spec fn binary_text_ok(s: Seq<char>) -> bool {
    &&& s.len() >= 1
    &&& '0' <= s[0] <= '3'
    &&& (s.len() == 1 ==> s[0] == '0')
    &&& forall|k: int|
        1 <= k < s.len() ==> ((#[trigger] s[k] as u32) < 65 ==> 48 <= (s[k] as u32)) && ((s[k] as u32) >= 65
            ==> (s[k] as u32) % 256 >= 65)
}

/// Number of bits of a binary literal: four per byte after the first, less
/// the padding.
pub open spec fn binary_total(s: Seq<char>, byte_len: int) -> int {
    (byte_len - 1) * 4 - (s[0] as int - 48)
}

/// Bit `p` of a binary literal with text `s` and `total` bits: the digits
/// after the first fill the bits from the top down, four to a digit, the
/// first bit of a digit its highest; bits that no digit reaches are clear.
pub open spec fn bit_at(s: Seq<char>, total: int, p: int) -> bool {
    let t = total - 1 - p;
    if t / 4 + 1 < s.len() {
        ((hex_value(s[t / 4 + 1]) >> (3 - t % 4) as u32) & 1) == 1
    } else {
        false
    }
}

/// The bits of a binary literal with text `s` of `byte_len` bytes.
pub open spec fn binary_bits(s: Seq<char>, byte_len: int) -> Seq<bool> {
    let total = binary_total(s, byte_len);
    Seq::new(if total > 0 { total as nat } else { 0 }, |p: int| bit_at(s, total, p))
}

/// Renders attribute values as STEP text.
pub struct StringBuilderVisitor {
    data_: Vec<char>,
    upper_: bool,
}

impl View for StringBuilderVisitor {
    type V = Seq<char>;

    closed spec fn view(&self) -> Seq<char> {
        self.data_@
    }
}

/// `(`, the items separated by commas, `)`.
pub open spec fn parenthesized(items: Seq<Seq<char>>) -> Seq<char> {
    seq!['('] + joined(items) + seq![')']
}

/// The items separated by commas.
pub open spec fn joined(items: Seq<Seq<char>>) -> Seq<char>
    decreases items.len(),
{
    if items.len() == 0 {
        seq![]
    } else if items.len() == 1 {
        items[0]
    } else {
        joined(items.drop_last()) + seq![','] + items.last()
    }
}

/// STEP text of a three-valued logical.
pub open spec fn logical_text(v: Option<bool>) -> Seq<char> {
    match v {
        Some(true) => seq!['.', 'T', '.'],
        Some(false) => seq!['.', 'F', '.'],
        None => seq!['.', 'U', '.'],
    }
}

/// The STEP text of a logical reads back as the same logical: true is
/// written `.T.` and read as 1, false `.F.` and read as 0, unknown `.U.` and
/// read as 2; different logicals are written differently.
pub proof fn law_logical_text_reads_back(v: Option<bool>, w: Option<bool>)
    ensures
        parse_logical(encode_utf8(logical_text(v))) == Some(
            match v {
                Some(true) => 1i32,
                Some(false) => 0i32,
                None => 2i32,
            },
        ),
        v != w ==> logical_text(v) != logical_text(w),
{
    let t = logical_text(v);
    assert(is_ascii_chars(t));
    is_ascii_chars_encode_utf8(t);
    let b = encode_utf8(t);
    assert(b[0] == t[0] as u8 && b[1] == t[1] as u8 && b[2] == t[2] as u8);
    if v != w {
        assert(logical_text(v)[1] != logical_text(w)[1]);
    }
}

impl StringBuilderVisitor {
    /// A visitor with nothing rendered yet; `upper` asks for strings to be
    /// written in the encoded upper-case form.
    pub fn new(upper: bool) -> (r: Self)
        ensures
            r@ == Seq::<char>::empty(),
            r.upper() == upper,
    {
        StringBuilderVisitor { data_: Vec::new(), upper_: upper }
    }

    pub closed spec fn upper(&self) -> bool {
        self.upper_
    }

    /// The text rendered so far.
    pub fn text(&self) -> (r: String)
        ensures
            r@ == self@,
    {
        string_from_chars(&self.data_)
    }

    pub fn blank(&mut self)
        ensures
            final(self)@ == old(self)@.push('$'),
            final(self).upper() == old(self).upper(),
    {
        self.data_.push('$');
    }

    pub fn derived(&mut self)
        ensures
            final(self)@ == old(self)@.push('*'),
            final(self).upper() == old(self).upper(),
    {
        self.data_.push('*');
    }

    pub fn int_(&mut self, v: i32)
        ensures
            final(self)@ == old(self)@ + decimal_int(v as int),
            final(self).upper() == old(self).upper(),
    {
        push_decimal_i64(&mut self.data_, v as i64);
    }

    pub fn bool_(&mut self, v: bool)
        ensures
            final(self)@ == old(self)@ + logical_text(Some(v)),
            final(self).upper() == old(self).upper(),
    {
        self.tribool(Some(v));
    }

    pub fn tribool(&mut self, v: Option<bool>)
        ensures
            final(self)@ == old(self)@ + logical_text(v),
            final(self).upper() == old(self).upper(),
    {
        self.data_.push('.');
        match v {
            Some(true) => self.data_.push('T'),
            Some(false) => self.data_.push('F'),
            None => self.data_.push('U'),
        }
        self.data_.push('.');
        assert(self.data_@ =~= old(self)@ + logical_text(v));
    }

    pub fn bin_(&mut self, v: &[bool])
        ensures
            final(self)@ == old(self)@ + binary_text(v@),
            final(self).upper() == old(self).upper(),
    {
        let t = StringBuilderVisitor::format_binary(v);
        push_str(&mut self.data_, t.as_str());
    }

    /// A string between single quotes; for the encoded upper-case form see
    /// the caller.
    pub fn str_(&mut self, s: &str)
        requires
            !old(self).upper(),
        ensures
            final(self)@ == old(self)@ + seq!['\''] + s@ + seq!['\''],
            final(self).upper() == old(self).upper(),
    {
        self.data_.push('\'');
        push_str(&mut self.data_, s);
        self.data_.push('\'');
    }

    pub fn vec_int(&mut self, v: &[i32])
        ensures
            final(self)@ == old(self)@ + parenthesized(v@.map_values(|x: i32| decimal_int(x as int))),
            final(self).upper() == old(self).upper(),
    {
        self.data_.push('(');
        let ghost items = v@.map_values(|x: i32| decimal_int(x as int));
        let ghost start = self.data_@;
        let mut k: usize = 0;
        while k < v.len()
            invariant
                k <= v@.len(),
                items == v@.map_values(|x: i32| decimal_int(x as int)),
                self.upper_ == old(self).upper_,
                self.data_@ == start + joined(items.subrange(0, k as int)),
            decreases v@.len() - k,
        {
            let ghost before = self.data_@;
            if k > 0 {
                self.data_.push(',');
            }
            push_decimal_i64(&mut self.data_, v[k] as i64);
            proof {
                let pre = items.subrange(0, k as int);
                let nxt = items.subrange(0, k + 1);
                assert(nxt.drop_last() =~= pre);
                assert(nxt.last() == decimal_int(v@[k as int] as int));
                if k == 0 {
                    assert(pre.len() == 0);
                }
            }
            k = k + 1;
            assert(self.data_@ =~= start + joined(items.subrange(0, k as int)));
        }
        self.data_.push(')');
        assert(items.subrange(0, k as int) =~= items);
        assert(self.data_@ =~= old(self)@ + parenthesized(items));
    }

    pub fn enum_ref(&mut self, val: &str)
        ensures
            final(self)@ == old(self)@ + seq!['.'] + val@ + seq!['.'],
            final(self).upper() == old(self).upper(),
    {
        self.data_.push('.');
        push_str(&mut self.data_, val);
        self.data_.push('.');
    }

    /// An aggregate of already rendered items.
    pub fn agg_of_instance(&mut self, items: &[String])
        ensures
            final(self)@ == old(self)@ + parenthesized(items.deep_view()),
            final(self).upper() == old(self).upper(),
    {
        self.data_.push('(');
        let ghost start = self.data_@;
        let mut k: usize = 0;
        while k < items.len()
            invariant
                k <= items@.len(),
                self.upper_ == old(self).upper_,
                self.data_@ == start + joined(items.deep_view().subrange(0, k as int)),
            decreases items@.len() - k,
        {
            if k > 0 {
                self.data_.push(',');
            }
            push_str(&mut self.data_, items[k].as_str());
            proof {
                let pre = items.deep_view().subrange(0, k as int);
                let nxt = items.deep_view().subrange(0, k + 1);
                assert(nxt.drop_last() =~= pre);
                assert(nxt.last() == items@[k as int]@);
            }
            k = k + 1;
            assert(self.data_@ =~= start + joined(items.deep_view().subrange(0, k as int)));
        }
        self.data_.push(')');
        assert(items.deep_view().subrange(0, k as int) =~= items.deep_view());
        assert(self.data_@ =~= old(self)@ + parenthesized(items.deep_view()));
    }

    pub fn empty_agg(&mut self)
        ensures
            final(self)@ == old(self)@ + seq!['(', ')'],
            final(self).upper() == old(self).upper(),
    {
        self.data_.push('(');
        self.data_.push(')');
        assert(self.data_@ =~= old(self)@ + seq!['(', ')']);
    }

    /// STEP text of a list of bits: in double quotes, the number of padding
    /// bits, then hexadecimal digits of four bits each, the last bit first,
    /// the padding bits leading as zeros.
    pub fn format_binary(b: &[bool]) -> (r: String)
        ensures
            r@ == binary_text(b@),
    {
        let c = b.len();
        let n = (4 - (c % 4)) % 4;
        let mut out: Vec<char> = Vec::new();
        out.push('"');
        out.push(((48 + n) as u8) as char);
        let mut k: usize = 0;
        let chunks = c / 4 + if c % 4 == 0 {
            0
        } else {
            1
        };
        assert(chunks == (c + n) / 4);
        while k < chunks
            invariant
                k <= chunks,
                c == b@.len(),
                n == pad_bits(c as nat),
                chunks == (c + n) / 4,
                (c + n) % 4 == 0,
                out@ == seq!['"', ((48 + n) as u8) as char] + Seq::new(k as nat, |q: int| hex_upper(nibble(b@, q))),
            decreases chunks - k,
        {
            let mut accum: u32 = 0;
            let mut j: usize = 0;
            while j < 4
                invariant
                    j <= 4,
                    k < chunks,
                    c == b@.len(),
                    n == pad_bits(c as nat),
                    chunks == (c + n) / 4,
                    (c + n) % 4 == 0,
                    accum == partial_nibble(b@, k as int, j as int),
                    j == 0 ==> accum < 1,
                    j == 1 ==> accum < 2,
                    j == 2 ==> accum < 4,
                    j == 3 ==> accum < 8,
                    j == 4 ==> accum < 16,
                decreases 4 - j,
            {
                let i = 4 * k + j;
                let bit: u32 = if i < n {
                    0
                } else if b[c - 1 - (i - n)] {
                    1
                } else {
                    0
                };
                accum = accum * 2 + bit;
                j = j + 1;
            }
            out.push(hex_digit_upper(accum));
            k = k + 1;
            assert(out@ =~= seq!['"', ((48 + n) as u8) as char] + Seq::new(k as nat, |q: int| hex_upper(nibble(b@, q))));
        }
        out.push('"');
        assert(out@ =~= binary_text(b@));
        string_from_chars(&out)
    }
}

/// Padding bits of a list of `c` bits: enough to fill the last group of four.
pub open spec fn pad_bits(c: nat) -> nat {
    ((4 - (c % 4) as int) % 4) as nat
}

/// Bit `i` of the padded sequence: padding zeros, then the bits last first.
pub open spec fn padded_bit(b: Seq<bool>, i: int) -> nat {
    let n = pad_bits(b.len());
    if i < n {
        0
    } else if b[b.len() + n - i - 1] {
        1
    } else {
        0
    }
}

/// The first `j` bits of group `k`, read as a number.
pub open spec fn partial_nibble(b: Seq<bool>, k: int, j: int) -> nat
    decreases j,
{
    if j <= 0 {
        0
    } else {
        partial_nibble(b, k, j - 1) * 2 + padded_bit(b, 4 * k + j - 1)
    }
}

/// Group `k` of four bits, read as a number.
pub open spec fn nibble(b: Seq<bool>, k: int) -> nat {
    partial_nibble(b, k, 4)
}

/// Upper-case hexadecimal digit of `d` (`0 <= d < 16`).
pub open spec fn hex_upper(d: nat) -> char {
    if d < 10 {
        (48 + d) as char
    } else {
        (55 + d) as char
    }
}

/// STEP text of a list of bits.
pub open spec fn binary_text(b: Seq<bool>) -> Seq<char> {
    let n = pad_bits(b.len());
    seq!['"', ((48 + n) as u8) as char] + Seq::new((b.len() + n) / 4, |q: int| hex_upper(nibble(b, q)))
        + seq!['"']
}

fn hex_digit_upper(d: u32) -> (r: char)
    requires
        d < 16,
    ensures
        r == hex_upper(d as nat),
{
    if d < 10 {
        let r = (48 + d) as u8 as char;
        assert(((48 + d) as u8 as char) == (48 + d) as char);
        r
    } else {
        let r = (55 + d) as u8 as char;
        assert(((55 + d) as u8 as char) == (55 + d) as char);
        r
    }
}

/// The text of a binary literal as written, without its quotes.
pub open spec fn binary_digits(b: Seq<bool>) -> Seq<char> {
    let t = binary_text(b);
    t.subrange(1, t.len() - 1)
}

proof fn lemma_nibble_bits(v: u32, x0: u32, x1: u32, x2: u32, x3: u32)
    requires
        x0 <= 1,
        x1 <= 1,
        x2 <= 1,
        x3 <= 1,
        v == x0 * 8 + x1 * 4 + x2 * 2 + x3,
    ensures
        v < 16,
        (v >> 3u32) & 1 == x0,
        (v >> 2u32) & 1 == x1,
        (v >> 1u32) & 1 == x2,
        (v >> 0u32) & 1 == x3,
{
    assert(v < 16 && (v >> 3u32) & 1 == x0 && (v >> 2u32) & 1 == x1 && (v >> 1u32) & 1 == x2 && (v >> 0u32) & 1
        == x3) by (bit_vector)
        requires
            x0 <= 1,
            x1 <= 1,
            x2 <= 1,
            x3 <= 1,
            v == x0 * 8 + x1 * 4 + x2 * 2 + x3,
    ;
}

proof fn lemma_padded_bit(b: Seq<bool>, i: int)
    ensures
        padded_bit(b, i) <= 1,
{
}

proof fn lemma_nibble(b: Seq<bool>, k: int)
    ensures
        nibble(b, k) < 16,
        ((nibble(b, k) as u32 >> 3u32) & 1) == padded_bit(b, 4 * k),
        ((nibble(b, k) as u32 >> 2u32) & 1) == padded_bit(b, 4 * k + 1),
        ((nibble(b, k) as u32 >> 1u32) & 1) == padded_bit(b, 4 * k + 2),
        ((nibble(b, k) as u32 >> 0u32) & 1) == padded_bit(b, 4 * k + 3),
{
    let x0 = padded_bit(b, 4 * k);
    let x1 = padded_bit(b, 4 * k + 1);
    let x2 = padded_bit(b, 4 * k + 2);
    let x3 = padded_bit(b, 4 * k + 3);
    lemma_padded_bit(b, 4 * k);
    lemma_padded_bit(b, 4 * k + 1);
    lemma_padded_bit(b, 4 * k + 2);
    lemma_padded_bit(b, 4 * k + 3);
    assert(partial_nibble(b, k, 0) == 0);
    assert(partial_nibble(b, k, 1) == x0);
    assert(partial_nibble(b, k, 2) == x0 * 2 + x1);
    assert(partial_nibble(b, k, 3) == (x0 * 2 + x1) * 2 + x2);
    assert(nibble(b, k) == x0 * 8 + x1 * 4 + x2 * 2 + x3);
    lemma_nibble_bits(nibble(b, k) as u32, x0 as u32, x1 as u32, x2 as u32, x3 as u32);
}

proof fn lemma_hex_roundtrip(d: nat)
    requires
        d < 16,
    ensures
        hex_value(hex_upper(d)) == d,
        (hex_upper(d) as u32) < 128,
{
    if d < 10 {
        assert(((48 + d) as char) as u32 == 48 + d);
    } else {
        assert(((55 + d) as char) as u32 == 55 + d);
    }
}

/// Reading back the text that `format_binary` writes gives the same bits,
/// when their number is a multiple of four. (With padding the reader takes
/// the padding bits from the low end of the first digit, where the writer
/// put them at the high end, so other lengths do not come back.)
pub proof fn law_binary_roundtrip(b: Seq<bool>)
    requires
        b.len() % 4 == 0,
    ensures
        binary_text_ok(binary_digits(b)),
        binary_bits(binary_digits(b), encode_utf8(binary_digits(b)).len() as int) == b,
{
    let s = binary_digits(b);
    let m = b.len() / 4;
    let digits = Seq::new(m, |q: int| hex_upper(nibble(b, q)));
    assert(pad_bits(b.len()) == 0);
    assert((((48 + 0nat) as u8) as char) == '0');
    assert(s =~= seq!['0'] + digits);
    assert forall|q: int| 0 <= q < m implies nibble(b, q) < 16 && hex_value(#[trigger] digits[q]) == nibble(b, q)
        && (digits[q] as u32) < 128 by {
        lemma_nibble(b, q);
        lemma_hex_roundtrip(nibble(b, q));
    }
    assert(is_ascii_chars(s)) by {
        assert forall|i: int| 0 <= i < s.len() implies '\0' <= #[trigger] s[i] <= '\u{7f}' by {
            if i > 0 {
                assert(s[i] == digits[i - 1]);
            }
        }
    }
    is_ascii_chars_encode_utf8(s);
    assert(binary_text_ok(s)) by {
        assert forall|k: int| 1 <= k < s.len() implies ((#[trigger] s[k] as u32) < 65 ==> 48 <= (s[k] as u32)) && ((
        s[k] as u32) >= 65 ==> (s[k] as u32) % 256 >= 65) by {
            assert(s[k] == digits[k - 1]);
            let d = nibble(b, k - 1);
            lemma_nibble(b, k - 1);
            if d < 10 {
                assert(((48 + d) as char) as u32 == 48 + d);
            } else {
                assert(((55 + d) as char) as u32 == 55 + d);
            }
        }
    }
    let total = binary_total(s, s.len() as int);
    assert(total == b.len());
    let r = binary_bits(s, s.len() as int);
    assert forall|p: int| 0 <= p < b.len() implies #[trigger] r[p] == b[p] by {
        let t = b.len() - 1 - p;
        let q = t / 4;
        let j = t % 4;
        assert(s[q + 1] == digits[q]);
        lemma_nibble(b, q);
        assert(4 * q + j == t);
        assert(hex_value(s[q + 1]) == nibble(b, q) as u32);
        if j == 0 {
            assert((3 - j) as u32 == 3u32);
        } else if j == 1 {
            assert((3 - j) as u32 == 2u32);
        } else if j == 2 {
            assert((3 - j) as u32 == 1u32);
        } else {
            assert((3 - j) as u32 == 0u32);
        }
    }
    assert(r =~= b);
}

/// An integer written by the visitor reads back as the same integer.
pub proof fn law_int_roundtrip(v: i32)
    ensures
        parse_i32(decimal_int(v as int)) == Some(v),
{
    let s = decimal_int(v as int);
    if v < 0 {
        lemma_decimal_all_digits((-v) as nat);
        assert(s.drop_first() =~= decimal((-v) as nat));
        assert(is_digit(decimal((-v) as nat)[0]));
    } else {
        lemma_decimal_all_digits(v as nat);
        assert(is_digit(s[0]));
    }
}

} // verus!
