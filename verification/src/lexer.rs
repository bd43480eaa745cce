//! The character stream and lexer of STEP physical files: positions in the
//! file's bytes, the skipping of line breaks, white space and comments, and
//! the cutting of the file into tokens.
#![allow(non_snake_case)]
use crate::spf::{classify, general_token, operator_token, Token, TokenFunc, TokenType};
use crate::text::{chars_of, string_from_chars};
use vstd::prelude::*;

verus! {

/// Is `b` a line feed or a carriage return?
pub open spec fn is_break_byte(b: u8) -> bool {
    b == 10 || b == 13
}

/// The character at `p`: the byte read as a character, or NUL at and past
/// the end of the data.
pub open spec fn char_at(data: Seq<u8>, p: int) -> char {
    if 0 <= p < data.len() {
        (data[p] as u32) as char
    } else {
        '\0'
    }
}

/// The first position at or after `q` that is not a line break.
pub open spec fn skip_breaks(data: Seq<u8>, q: int) -> int
    decreases data.len() - q,
{
    if 0 <= q < data.len() && is_break_byte(data[q]) {
        skip_breaks(data, q + 1)
    } else {
        q
    }
}

/// The position after the one at `p`: the next one that is not a line
/// break.
pub open spec fn next_pos(data: Seq<u8>, p: int) -> int {
    skip_breaks(data, p + 1)
}

pub proof fn lemma_skip_breaks(data: Seq<u8>, q: int)
    requires
        0 <= q <= data.len(),
    ensures
        q <= skip_breaks(data, q) <= data.len(),
    decreases data.len() - q,
{
    if q < data.len() && is_break_byte(data[q]) {
        lemma_skip_breaks(data, q + 1);
    }
}

pub proof fn lemma_next_pos(data: Seq<u8>, p: int)
    requires
        0 <= p < data.len(),
    ensures
        p < next_pos(data, p) <= data.len(),
{
    lemma_skip_breaks(data, p + 1);
}

/// Is `c` white space between tokens?
pub open spec fn is_separator(c: char) -> bool {
    c == ' ' || c == '\r' || c == '\n' || c == '\t'
}

/// Does `c` end a token (when it is not its first character)?
pub open spec fn is_delimiter(c: char) -> bool {
    c == '(' || c == ')' || c == '=' || c == ',' || c == ';' || c == '/'
}

/// Is `c` a token of its own?
pub open spec fn is_operator_char(c: char) -> bool {
    c == '(' || c == ')' || c == '=' || c == ',' || c == ';' || c == '$' || c == '*'
}

/// Where the white space that starts at `p` ends, and how many steps it
/// took.
pub open spec fn skip_ws(data: Seq<u8>, p: int) -> (int, nat)
    decreases data.len() - p,
{
    if 0 <= p < data.len() && is_separator(char_at(data, p)) {
        proof {
            lemma_next_pos(data, p);
        }
        let r = skip_ws(data, next_pos(data, p));
        (r.0, r.1 + 1)
    } else {
        (p, 0)
    }
}

/// Reading the rest of a comment from `p`, with `count` characters taken so
/// far and `prev` the last one: it ends after `*` followed by `/`, or at the
/// end of the data. Where it ends, and the count.
pub open spec fn comment_rest(data: Seq<u8>, p: int, count: nat, prev: char) -> (int, nat)
    decreases data.len() - p,
{
    if 0 <= p < data.len() {
        let c = char_at(data, p);
        proof {
            lemma_next_pos(data, p);
        }
        if c == '/' && prev == '*' {
            (next_pos(data, p), count + 1)
        } else {
            comment_rest(data, next_pos(data, p), count + 1, c)
        }
    } else {
        (p, count)
    }
}

/// Where a comment that starts at `p` ends, and how many characters it
/// took; `(p, 0)` when none starts there. A `/` not followed by `*` is given
/// back, by going one position back from the character after it.
pub open spec fn skip_comment(data: Seq<u8>, p: int) -> (int, nat) {
    if char_at(data, p) != '/' {
        (p, 0)
    } else if char_at(data, next_pos(data, p)) != '*' {
        (next_pos(data, p) - 1, 0)
    } else {
        comment_rest(data, next_pos(data, p), 2, '\0')
    }
}

/// The first position from `p` that is neither white space nor in a
/// comment.
pub open spec fn skip_blank(data: Seq<u8>, p: int) -> int
    decreases data.len() - p,
{
    if 0 <= p <= data.len() {
        let w = skip_ws(data, p);
        proof {
            lemma_skip_ws(data, p);
        }
        if w.1 != 0 {
            skip_blank(data, w.0)
        } else {
            let c = skip_comment(data, w.0);
            proof {
                lemma_skip_comment(data, w.0);
            }
            if c.1 != 0 {
                skip_blank(data, c.0)
            } else {
                c.0
            }
        }
    } else {
        p
    }
}

/// Where a string literal whose opening quote was read ends: after the
/// quote that closes it, a doubled quote standing for a quote inside it.
/// `quoted` says that the last character read was a single quote.
pub open spec fn string_end(data: Seq<u8>, p: int, quoted: bool) -> int
    decreases data.len() - p,
{
    if 0 <= p < data.len() {
        let c = char_at(data, p);
        proof {
            lemma_next_pos(data, p);
        }
        if c == '\'' {
            string_end(data, next_pos(data, p), !quoted)
        } else if quoted {
            p
        } else {
            string_end(data, next_pos(data, p), false)
        }
    } else {
        p
    }
}

/// Where a token whose reading reached `p` ends; `started` says that it
/// has a character already. A string literal within it is read whole.
pub open spec fn token_end(data: Seq<u8>, p: int, started: bool) -> int
    decreases data.len() - p,
{
    if 0 <= p < data.len() {
        let c = char_at(data, p);
        if started && is_delimiter(c) {
            p
        } else {
            proof {
                lemma_next_pos(data, p);
                lemma_string_end(data, next_pos(data, p), false);
            }
            if c == '\'' {
                token_end(data, string_end(data, next_pos(data, p), false), true)
            } else {
                token_end(data, next_pos(data, p), true)
            }
        }
    } else {
        p
    }
}

/// The characters of `data[a..b]` other than white space.
pub open spec fn without_separators(data: Seq<u8>, a: int, b: int) -> Seq<char>
    decreases b - a,
{
    if a < b {
        let rest = without_separators(data, a, b - 1);
        if is_separator(char_at(data, b - 1)) {
            rest
        } else {
            rest.push(char_at(data, b - 1))
        }
    } else {
        Seq::<char>::empty()
    }
}

pub proof fn lemma_skip_ws(data: Seq<u8>, p: int)
    requires
        0 <= p <= data.len(),
    ensures
        p <= skip_ws(data, p).0 <= data.len(),
        skip_ws(data, p).1 != 0 ==> p < skip_ws(data, p).0,
    decreases data.len() - p,
{
    if p < data.len() && is_separator(char_at(data, p)) {
        lemma_next_pos(data, p);
        lemma_skip_ws(data, next_pos(data, p));
    }
}

pub proof fn lemma_comment_rest(data: Seq<u8>, p: int, count: nat, prev: char)
    requires
        0 <= p <= data.len(),
    ensures
        p <= comment_rest(data, p, count, prev).0 <= data.len(),
        comment_rest(data, p, count, prev).1 >= count,
        comment_rest(data, p, count, prev).1 <= count + data.len() - p,
    decreases data.len() - p,
{
    if p < data.len() {
        lemma_next_pos(data, p);
        let c = char_at(data, p);
        if !(c == '/' && prev == '*') {
            lemma_comment_rest(data, next_pos(data, p), count + 1, c);
        }
    }
}

pub proof fn lemma_skip_comment(data: Seq<u8>, p: int)
    requires
        0 <= p <= data.len(),
    ensures
        skip_comment(data, p).1 != 0 ==> p < skip_comment(data, p).0 <= data.len(),
        skip_comment(data, p).1 == 0 ==> p <= skip_comment(data, p).0 <= data.len(),
        skip_comment(data, p).1 <= 2 + data.len(),
{
    if char_at(data, p) == '/' {
        lemma_next_pos(data, p);
        let q = next_pos(data, p);
        if char_at(data, q) == '*' {
            lemma_comment_rest(data, q, 2, '\0');
        }
    }
}

pub proof fn lemma_skip_blank(data: Seq<u8>, p: int)
    requires
        0 <= p <= data.len(),
    ensures
        p <= skip_blank(data, p) <= data.len(),
    decreases data.len() - p,
{
    lemma_skip_ws(data, p);
    let w = skip_ws(data, p);
    if w.1 != 0 {
        lemma_skip_blank(data, w.0);
    } else {
        lemma_skip_comment(data, w.0);
        let c = skip_comment(data, w.0);
        if c.1 != 0 {
            lemma_skip_blank(data, c.0);
        }
    }
}

pub proof fn lemma_string_end(data: Seq<u8>, p: int, quoted: bool)
    requires
        0 <= p <= data.len(),
    ensures
        p <= string_end(data, p, quoted) <= data.len(),
    decreases data.len() - p,
{
    if p < data.len() {
        lemma_next_pos(data, p);
        let c = char_at(data, p);
        if c == '\'' {
            lemma_string_end(data, next_pos(data, p), !quoted);
        } else if !quoted {
            lemma_string_end(data, next_pos(data, p), false);
        }
    }
}

pub proof fn lemma_token_end(data: Seq<u8>, p: int, started: bool)
    requires
        0 <= p <= data.len(),
    ensures
        p <= token_end(data, p, started) <= data.len(),
        !started && p < data.len() ==> p < token_end(data, p, started),
    decreases data.len() - p,
{
    if p < data.len() {
        let c = char_at(data, p);
        if !(started && is_delimiter(c)) {
            lemma_next_pos(data, p);
            lemma_string_end(data, next_pos(data, p), false);
            if c == '\'' {
                lemma_token_end(data, string_end(data, next_pos(data, p), false), true);
            } else {
                lemma_token_end(data, next_pos(data, p), true);
            }
        }
    }
}

/// The token that reading from `p` gives, and where reading stops: none at
/// the end of the data; else, past white space and comments, an operator
/// character, or a general token up to the next delimiter.
pub open spec fn lex(data: Seq<u8>, p: int) -> (Option<(int, int)>, int) {
    if p >= data.len() {
        (None, p)
    } else {
        let q = skip_blank(data, p);
        if q >= data.len() {
            (None, q)
        } else if is_operator_char(char_at(data, q)) {
            (Some((q, q + 1)), next_pos(data, q))
        } else {
            (Some((q, token_end(data, q, false))), token_end(data, q, false))
        }
    }
}

/// The token found between `start` and `end`.
pub open spec fn token_at(data: Seq<u8>, start: int, end: int) -> (TokenType, i32, char) {
    let first = char_at(data, start);
    if is_operator_char(first) && end == start + 1 {
        (TokenType::Token_OPERATOR, 0, first)
    } else {
        classify(first, without_separators(data, start, end))
    }
}

/// The bytes of a STEP file, read one character at a time.
pub struct IfcSpfStream {
    buffer_: Vec<u8>,
    valid: bool,
    eof: bool,
    size: u32,
    ptr_: u32,
    len_: u32,
}

impl IfcSpfStream {
    /// The data, the position, and the invariant that ties them.
    pub closed spec fn data(&self) -> Seq<u8> {
        self.buffer_@
    }

    pub closed spec fn pos(&self) -> int {
        self.ptr_ as int
    }

    /// Whether the data could be had.
    pub closed spec fn valid_spec(&self) -> bool {
        self.valid
    }

    /// Whether the data could be had.
    pub fn valid(&self) -> (r: bool)
        ensures
            r == self.valid_spec(),
    {
        self.valid
    }

    /// Whether the position is at the end of the data.
    pub fn eof(&self) -> (r: bool)
        requires
            self.wf(),
        ensures
            r == (self.pos() == self.data().len()),
    {
        self.eof
    }

    /// Number of bytes of the data.
    pub fn size(&self) -> (r: u32)
        requires
            self.wf(),
        ensures
            r == self.data().len(),
    {
        self.size
    }

    pub closed spec fn wf(&self) -> bool {
        &&& self.len_ == self.buffer_@.len()
        &&& self.size == self.len_
        &&& self.len_ < 0xFFFF_FFFF
        &&& self.ptr_ <= self.len_
        &&& self.eof == (self.ptr_ == self.len_)
    }

    /// A stream over `data`, at its start.
    pub fn new_from_bytes(data: Vec<u8>) -> (r: Self)
        requires
            data@.len() < 0xFFFF_FFFF,
        ensures
            r.wf(),
            r.data() == data@,
            r.pos() == 0,
            r.valid_spec(),
    {
        let n = data.len() as u32;
        IfcSpfStream { buffer_: data, valid: true, eof: n == 0, size: n, ptr_: 0, len_: n }
    }

    /// Moves to `offset`, which lies within the data.
    pub fn Seek(&mut self, offset: u32)
        requires
            old(self).wf(),
            offset < old(self).data().len(),
        ensures
            final(self).wf(),
            final(self).data() == old(self).data(),
            final(self).pos() == offset,
            final(self).valid_spec() == old(self).valid_spec(),
    {
        self.ptr_ = offset;
        self.eof = false;
    }

    /// The character at the current position.
    pub fn Peek(&self) -> (r: char)
        requires
            self.wf(),
        ensures
            r == char_at(self.data(), self.pos()),
    {
        self.Read(self.ptr_)
    }

    /// The character at `offset`.
    pub fn Read(&self, offset: u32) -> (r: char)
        requires
            self.wf(),
        ensures
            r == char_at(self.data(), offset as int),
    {
        if (offset as usize) < self.buffer_.len() {
            let b = self.buffer_[offset as usize];
            b as char
        } else {
            '\0'
        }
    }

    pub fn Tell(&self) -> (r: u32)
        requires
            self.wf(),
        ensures
            r == self.pos(),
    {
        self.ptr_
    }

    /// Steps to the next position that is not a line break.
    pub fn Inc(&mut self)
        requires
            old(self).wf(),
            old(self).pos() < old(self).data().len(),
        ensures
            final(self).wf(),
            final(self).data() == old(self).data(),
            final(self).pos() == next_pos(old(self).data(), old(self).pos()),
            final(self).valid_spec() == old(self).valid_spec(),
    {
        let mut p = self.ptr_ + 1;
        proof {
            assert(next_pos(self.data(), self.pos()) == skip_breaks(self.data(), p as int));
        }
        while p < self.len_ && (self.buffer_[p as usize] == 10 || self.buffer_[p as usize] == 13)
            invariant
                self.wf(),
                p <= self.len_,
                next_pos(self.data(), self.pos()) == skip_breaks(self.data(), p as int),
            decreases self.len_ - p,
        {
            p = p + 1;
        }
        self.ptr_ = p;
        self.eof = p == self.len_;
    }

    pub fn is_eof_at(&self, local_ptr: u32) -> (r: bool)
        requires
            self.wf(),
        ensures
            r == (local_ptr >= self.data().len()),
    {
        local_ptr >= self.len_
    }

    /// Steps `local_ptr` to the next position that is not a line break.
    pub fn increment_at(&self, local_ptr: &mut u32)
        requires
            self.wf(),
            *old(local_ptr) < self.data().len(),
        ensures
            *final(local_ptr) == next_pos(self.data(), *old(local_ptr) as int),
    {
        let mut p = *local_ptr + 1;
        while p < self.len_ && (self.buffer_[p as usize] == 10 || self.buffer_[p as usize] == 13)
            invariant
                self.wf(),
                p <= self.len_,
                next_pos(self.data(), *old(local_ptr) as int) == skip_breaks(self.data(), p as int),
            decreases self.len_ - p,
        {
            p = p + 1;
        }
        *local_ptr = p;
    }

    pub fn peek_at(&self, local_ptr: u32) -> (r: char)
        requires
            self.wf(),
        ensures
            r == char_at(self.data(), local_ptr as int),
    {
        self.Read(local_ptr)
    }
}

/// The text of the token at `p`, white space left out, with `acc` read so
/// far; `None` when a string literal is met, whose decoding is not done
/// here.
pub open spec fn token_text(data: Seq<u8>, p: int, acc: Seq<char>) -> Option<Seq<char>>
    decreases data.len() - p,
{
    if 0 <= p < data.len() {
        let c = char_at(data, p);
        proof {
            lemma_next_pos(data, p);
        }
        if acc.len() > 0 && is_delimiter(c) {
            Some(acc)
        } else if is_separator(c) {
            token_text(data, next_pos(data, p), acc)
        } else if c == '\'' {
            None
        } else {
            token_text(data, next_pos(data, p), acc.push(c))
        }
    } else {
        Some(acc)
    }
}

proof fn lemma_without_separators_first(data: Seq<u8>, a: int, b: int)
    requires
        a < b,
        !is_separator(char_at(data, a)),
    ensures
        without_separators(data, a, b).len() > 0,
        without_separators(data, a, b)[0] == char_at(data, a),
    decreases b - a,
{
    if b - 1 > a {
        lemma_without_separators_first(data, a, b - 1);
    } else {
        assert(without_separators(data, a, a) =~= Seq::<char>::empty());
    }
}

/// The characters of the stream between `start` and `end`, white space left
/// out, into `oDestination`.
pub fn RemoveTokenSeparators(stream: &IfcSpfStream, start: u32, end: u32, oDestination: &mut String)
    requires
        stream.wf(),
        start <= end <= stream.data().len(),
    ensures
        final(oDestination)@ == without_separators(stream.data(), start as int, end as int),
{
    let mut out: Vec<char> = Vec::new();
    let mut i = start;
    while i < end
        invariant
            stream.wf(),
            start <= i <= end <= stream.data().len(),
            out@ == without_separators(stream.data(), start as int, i as int),
        decreases end - i,
    {
        let c = stream.Read(i);
        if !(c == ' ' || c == '\r' || c == '\n' || c == '\t') {
            out.push(c);
        }
        i = i + 1;
    }
    *oDestination = string_from_chars(&out);
}

/// The token of no kind, which the lexer gives at the end of the data.
pub open spec fn is_null_token(t: Token) -> bool {
    &&& t.startPos == 0
    &&& t.endPos == 0
    &&& t.type_ == TokenType::Token_NONE
    &&& t.value_int == 0
    &&& t.value_char == '\0'
}

fn null_token() -> (r: Token)
    ensures
        is_null_token(r),
{
    Token { startPos: 0, endPos: 0, type_: TokenType::Token_NONE, value_int: 0, value_char: '\0' }
}

/// The token of the general lexeme of the stream between `start` and
/// `end`: classified by its first character and its text without white
/// space (see `classify`).
pub fn GeneralTokenPtr(lexer: &IfcSpfLexer, start: u32, end: u32) -> (r: Token)
    requires
        lexer.stream.wf(),
        start <= end <= lexer.stream.data().len(),
        char_at(lexer.stream.data(), start as int) == '#' ==> start < end,
    ensures
        r.startPos == start,
        r.endPos == end,
        (r.type_, r.value_int, r.value_char) == classify(
            char_at(lexer.stream.data(), start as int),
            without_separators(lexer.stream.data(), start as int, end as int),
        ),
{
    let mut text = String::new();
    RemoveTokenSeparators(&lexer.stream, start, end, &mut text);
    let first = lexer.stream.Read(start);
    proof {
        if first == '#' {
            lemma_without_separators_first(lexer.stream.data(), start as int, end as int);
        }
    }
    general_token(start, end, first, text.as_str())
}

/// The operator token of the stream between `start` and `end`: its
/// character is the one at `start`.
pub fn OperatorTokenPtr(lexer: &IfcSpfLexer, start: u32, end: u32) -> (r: Token)
    requires
        lexer.stream.wf(),
    ensures
        r.startPos == start,
        r.endPos == end,
        r.type_ == TokenType::Token_OPERATOR,
        r.value_int == 0,
        r.value_char == char_at(lexer.stream.data(), start as int),
{
    let ch = lexer.stream.Read(start);
    operator_token(start, end, ch)
}

/// Cuts a STEP file into tokens.
pub struct IfcSpfLexer {
    pub stream: IfcSpfStream,
}

impl IfcSpfLexer {
    pub fn new(stream: IfcSpfStream) -> (r: Self)
        ensures
            r.stream == stream,
    {
        IfcSpfLexer { stream }
    }

    /// Skips white space; the number of steps taken.
    pub fn skipWhitespace(&mut self) -> (r: u32)
        requires
            old(self).stream.wf(),
        ensures
            final(self).stream.wf(),
            final(self).stream.data() == old(self).stream.data(),
            final(self).stream.valid_spec() == old(self).stream.valid_spec(),
            final(self).stream.pos() == skip_ws(old(self).stream.data(), old(self).stream.pos()).0,
            r == skip_ws(old(self).stream.data(), old(self).stream.pos()).1,
    {
        let ghost data = self.stream.data();
        let ghost p0 = self.stream.pos();
        let mut index: u32 = 0;
        proof {
            lemma_skip_ws(data, p0);
        }
        while !self.stream.eof() && (self.stream.Peek() == ' ' || self.stream.Peek() == '\r' || self.stream.Peek()
            == '\n' || self.stream.Peek() == '\t')
            invariant
                self.stream.wf(),
                self.stream.data() == data,
                data == old(self).stream.data(),
                p0 == old(self).stream.pos(),
                self.stream.valid_spec() == old(self).stream.valid_spec(),
                p0 <= self.stream.pos() <= data.len(),
                index <= self.stream.pos() - p0,
                skip_ws(data, p0).0 == skip_ws(data, self.stream.pos()).0,
                skip_ws(data, p0).1 == skip_ws(data, self.stream.pos()).1 + index,
            decreases data.len() - self.stream.pos(),
        {
            proof {
                lemma_next_pos(data, self.stream.pos());
            }
            self.stream.Inc();
            index = index + 1;
        }
        index
    }

    /// Skips a comment that starts at the current position; the number of
    /// characters taken, or 0 when none starts there.
    pub fn skipComment(&mut self) -> (r: u32)
        requires
            old(self).stream.wf(),
        ensures
            final(self).stream.wf(),
            final(self).stream.data() == old(self).stream.data(),
            final(self).stream.valid_spec() == old(self).stream.valid_spec(),
            (final(self).stream.pos(), r as nat) == skip_comment(old(self).stream.data(), old(self).stream.pos()),
    {
        let ghost data = self.stream.data();
        let ghost p0 = self.stream.pos();
        let c = self.stream.Peek();
        if c != '/' {
            return 0;
        }
        self.stream.Inc();
        let ghost q = self.stream.pos();
        proof {
            lemma_next_pos(data, p0);
        }
        let c2 = self.stream.Peek();
        if c2 != '*' {
            let t = self.stream.Tell();
            self.stream.Seek(t - 1);
            return 0;
        }
        proof {
            lemma_comment_rest(data, q, 2, '\0');
        }
        let mut index: u32 = 2;
        let mut inter: char = '\0';
        loop
            invariant
                self.stream.wf(),
                self.stream.data() == data,
                data == old(self).stream.data(),
                p0 == old(self).stream.pos(),
                0 <= p0 < q,
                q == next_pos(data, p0),
                skip_comment(data, p0) == comment_rest(data, q, 2, '\0'),
                self.stream.valid_spec() == old(self).stream.valid_spec(),
                q <= self.stream.pos() <= data.len(),
                2 <= index <= 2 + self.stream.pos() - q,
                data.len() < 0xFFFF_FFFF,
                comment_rest(data, q, 2, '\0') == comment_rest(data, self.stream.pos(), index as nat, inter),
            decreases data.len() - self.stream.pos(),
        {
            if self.stream.eof() {
                return index;
            }
            let ch = self.stream.Peek();
            proof {
                lemma_next_pos(data, self.stream.pos());
            }
            self.stream.Inc();
            index = index + 1;
            if ch == '/' && inter == '*' {
                return index;
            }
            inter = ch;
        }
    }

    /// Reads past a string literal whose opening quote was read.
    fn skip_string(&mut self)
        requires
            old(self).stream.wf(),
        ensures
            final(self).stream.wf(),
            final(self).stream.data() == old(self).stream.data(),
            final(self).stream.valid_spec() == old(self).stream.valid_spec(),
            final(self).stream.pos() == string_end(old(self).stream.data(), old(self).stream.pos(), false),
    {
        let ghost data = self.stream.data();
        let ghost p0 = self.stream.pos();
        let mut quoted = false;
        loop
            invariant
                self.stream.wf(),
                self.stream.data() == data,
                data == old(self).stream.data(),
                p0 == old(self).stream.pos(),
                self.stream.valid_spec() == old(self).stream.valid_spec(),
                string_end(data, p0, false) == string_end(data, self.stream.pos(), quoted),
            decreases data.len() - self.stream.pos(),
        {
            if self.stream.eof() {
                return ;
            }
            let c = self.stream.Peek();
            if c != '\'' && quoted {
                return ;
            }
            if c == '\'' {
                quoted = !quoted;
            }
            proof {
                lemma_next_pos(data, self.stream.pos());
            }
            self.stream.Inc();
        }
    }

    /// The next token, from the current position on; the null token at the
    /// end of the data.
    pub fn Next(&mut self) -> (r: Token)
        requires
            old(self).stream.wf(),
        ensures
            final(self).stream.wf(),
            final(self).stream.data() == old(self).stream.data(),
            final(self).stream.valid_spec() == old(self).stream.valid_spec(),
            final(self).stream.pos() == lex(old(self).stream.data(), old(self).stream.pos()).1,
            match lex(old(self).stream.data(), old(self).stream.pos()).0 {
                None => is_null_token(r),
                Some((start, end)) => {
                    &&& r.startPos == start
                    &&& r.endPos == end
                    &&& (r.type_, r.value_int, r.value_char) == token_at(old(self).stream.data(), start, end)
                },
            },
    {
        let ghost data = self.stream.data();
        let ghost p0 = self.stream.pos();
        if self.stream.eof() {
            return null_token();
        }
        proof {
            lemma_skip_blank(data, p0);
        }
        loop
            invariant_except_break
                skip_blank(data, p0) == skip_blank(data, self.stream.pos()),
            invariant
                self.stream.wf(),
                self.stream.data() == data,
                data == old(self).stream.data(),
                p0 == old(self).stream.pos(),
                self.stream.valid_spec() == old(self).stream.valid_spec(),
                p0 < data.len(),
                0 <= self.stream.pos() <= data.len(),
            ensures
                self.stream.pos() == skip_blank(data, p0),
            decreases data.len() - self.stream.pos(),
        {
            let ghost p = self.stream.pos();
            proof {
                lemma_skip_ws(data, p);
            }
            let w = self.skipWhitespace();
            if w != 0 {
                continue;
            }
            proof {
                lemma_skip_comment(data, self.stream.pos());
            }
            let c = self.skipComment();
            if c != 0 {
                continue;
            }
            break;
        }
        if self.stream.eof() {
            return null_token();
        }
        let pos = self.stream.Tell();
        let ch = self.stream.Peek();
        if ch == '(' || ch == ')' || ch == '=' || ch == ',' || ch == ';' || ch == '$' || ch == '*' {
            self.stream.Inc();
            return OperatorTokenPtr(&*self, pos, pos + 1);
        }
        proof {
            lemma_token_end(data, pos as int, false);
        }
        let mut started = false;
        loop
            invariant_except_break
                token_end(data, pos as int, false) == token_end(data, self.stream.pos(), started),
            invariant
                self.stream.wf(),
                self.stream.data() == data,
                data == old(self).stream.data(),
                p0 == old(self).stream.pos(),
                self.stream.valid_spec() == old(self).stream.valid_spec(),
                pos <= self.stream.pos() <= data.len(),
                pos < data.len(),
                pos == skip_blank(data, p0),
                started == (self.stream.pos() > pos),
            ensures
                self.stream.pos() == token_end(data, pos as int, false),
            decreases data.len() - self.stream.pos(),
        {
            if self.stream.eof() {
                break;
            }
            let c = self.stream.Peek();
            if started && (c == '(' || c == ')' || c == '=' || c == ',' || c == ';' || c == '/') {
                break;
            }
            proof {
                lemma_next_pos(data, self.stream.pos());
            }
            self.stream.Inc();
            started = true;
            if c == '\'' {
                proof {
                    lemma_string_end(data, self.stream.pos(), false);
                }
                self.skip_string();
            }
        }
        let end = self.stream.Tell();
        GeneralTokenPtr(&*self, pos, end)
    }

    /// The text of the token at `offset`, white space left out; `None` when
    /// it is a string literal.
    pub fn TokenString(&self, offset: u32) -> (r: Option<String>)
        requires
            self.stream.wf(),
        ensures
            match token_text(self.stream.data(), offset as int, Seq::<char>::empty()) {
                Some(t) => r matches Some(s) && s@ == t,
                None => r is None,
            },
    {
        let ghost data = self.stream.data();
        let mut buffer: Vec<char> = Vec::new();
        if self.stream.is_eof_at(offset) {
            return Some(string_from_chars(&buffer));
        }
        let mut off = offset;
        while !self.stream.is_eof_at(off)
            invariant
                self.stream.wf(),
                self.stream.data() == data,
                off <= data.len(),
                token_text(data, offset as int, Seq::<char>::empty()) == token_text(data, off as int, buffer@),
            decreases data.len() - off,
        {
            let c = self.stream.peek_at(off);
            if buffer.len() > 0 && (c == '(' || c == ')' || c == '=' || c == ',' || c == ';' || c == '/') {
                return Some(string_from_chars(&buffer));
            }
            proof {
                lemma_next_pos(data, off as int);
            }
            self.stream.increment_at(&mut off);
            if c == ' ' || c == '\r' || c == '\n' || c == '\t' {
                continue;
            }
            if c == '\'' {
                return None;
            }
            buffer.push(c);
        }
        Some(string_from_chars(&buffer))
    }
}

/// The text of a string, enumeration or binary token without its delimiting
/// characters; other tokens' text as it is.
pub open spec fn unquoted(t: TokenType, s: Seq<char>) -> Seq<char> {
    if (t == TokenType::Token_STRING || t == TokenType::Token_ENUMERATION || t == TokenType::Token_BOOL || t
        == TokenType::Token_BINARY) && s.len() > 0 {
        if s.len() >= 2 {
            s.subrange(1, s.len() - 1)
        } else {
            Seq::<char>::empty()
        }
    } else {
        s
    }
}

impl TokenFunc {
    /// The text of a token in the file; `None` for a string literal.
    pub fn toString(lexer: &IfcSpfLexer, token: &Token) -> (r: Option<String>)
        requires
            lexer.stream.wf(),
        ensures
            match token_text(lexer.stream.data(), token.startPos as int, Seq::<char>::empty()) {
                Some(t) => r matches Some(s) && s@ == t,
                None => r is None,
            },
    {
        lexer.TokenString(token.startPos)
    }

    /// The text of a token without the delimiters of a string, enumeration
    /// or binary; `None` for a string literal.
    pub fn asStringRef(lexer: &IfcSpfLexer, token: &Token) -> (r: Option<String>)
        requires
            lexer.stream.wf(),
            token.type_ != TokenType::Token_NONE,
        ensures
            match token_text(lexer.stream.data(), token.startPos as int, Seq::<char>::empty()) {
                Some(t) => r matches Some(s) && s@ == unquoted(token.type_, t),
                None => r is None,
            },
    {
        match lexer.TokenString(token.startPos) {
            None => None,
            Some(s) => {
                let cs = chars_of(s.as_str());
                if (TokenFunc::isString(token) || TokenFunc::isEnumeration(token) || TokenFunc::isBinary(token))
                    && cs.len() > 0 {
                    let mut inner: Vec<char> = Vec::new();
                    if cs.len() >= 2 {
                        let end = cs.len() - 1;
                        let mut i: usize = 1;
                        while i < end
                            invariant
                                1 <= i <= end,
                                end == cs@.len() - 1,
                                inner@ == cs@.subrange(1, i as int),
                            decreases end - i,
                        {
                            inner.push(cs[i]);
                            i = i + 1;
                            assert(inner@ =~= cs@.subrange(1, i as int));
                        }
                    }
                    Some(string_from_chars(&inner))
                } else {
                    Some(s)
                }
            },
        }
    }

    /// The text of a string, enumeration or binary token without its
    /// delimiters; `None` for a string literal.
    pub fn asString(lexer: &IfcSpfLexer, token: &Token) -> (r: Option<String>)
        requires
            lexer.stream.wf(),
            token.type_ == TokenType::Token_STRING || token.type_ == TokenType::Token_ENUMERATION || token.type_
                == TokenType::Token_BOOL || token.type_ == TokenType::Token_BINARY,
        ensures
            match token_text(lexer.stream.data(), token.startPos as int, Seq::<char>::empty()) {
                Some(t) => r matches Some(s) && s@ == unquoted(token.type_, t),
                None => r is None,
            },
    {
        TokenFunc::asStringRef(lexer, token)
    }
}

/// No single quote stands in `data[a..b]`.
pub open spec fn no_quote(data: Seq<u8>, a: int, b: int) -> bool {
    forall|i: int| a <= i < b ==> char_at(data, i) != '\''
}

proof fn lemma_without_separators_breaks(data: Seq<u8>, a: int, q: int)
    requires
        0 <= a <= q <= data.len(),
    ensures
        without_separators(data, a, skip_breaks(data, q)) == without_separators(data, a, q),
    decreases data.len() - q,
{
    if q < data.len() && is_break_byte(data[q]) {
        vstd::utf8::char_u32_cast('\n', 10u32);
        vstd::utf8::char_u32_cast('\r', 13u32);
        assert(is_separator(char_at(data, q)));
        assert(without_separators(data, a, q + 1) == without_separators(data, a, q));
        lemma_without_separators_breaks(data, a, q + 1);
    }
}

proof fn lemma_token_text(data: Seq<u8>, q: int, p: int, started: bool)
    requires
        0 <= q <= p <= data.len(),
        started == (p > q),
        q < data.len(),
        !is_separator(char_at(data, q)),
        no_quote(data, p, token_end(data, p, started)),
        started ==> without_separators(data, q, p).len() > 0,
    ensures
        token_text(data, p, without_separators(data, q, p)) == Some(
            without_separators(data, q, token_end(data, p, started)),
        ),
    decreases data.len() - p,
{
    if p < data.len() {
        let c = char_at(data, p);
        if !(started && is_delimiter(c)) {
            lemma_next_pos(data, p);
            let n = next_pos(data, p);
            lemma_string_end(data, n, false);
            lemma_token_end(data, n, true);
            lemma_token_end(data, string_end(data, n, false), true);
            assert(p < token_end(data, p, started));
            assert(c != '\'');
            assert(token_end(data, p, started) == token_end(data, n, true));
            lemma_without_separators_breaks(data, q, p + 1);
            assert(without_separators(data, q, n) == without_separators(data, q, p + 1));
            if !started {
                assert(without_separators(data, q, q) =~= Seq::<char>::empty());
            }
            lemma_token_text(data, q, n, true);
        }
    }
}

/// A general token that holds no string literal reads back, from its
/// start, as the text the lexer cut for it: `TokenString` at the start of a
/// token that `Next` gives is the text that the token was classified by.
/// (A token that starts with white space, as one can after a `/` that
/// opens no comment and ends a line, is left out.)
pub proof fn law_token_string_of_next(data: Seq<u8>, p: int)
    requires
        0 <= p <= data.len(),
        lex(data, p).0 matches Some((s, e)) && !is_operator_char(char_at(data, s)) && !is_separator(
            char_at(data, s),
        ) && no_quote(data, s, e),
    ensures
        lex(data, p).0 matches Some((s, e)) && token_text(data, s, Seq::<char>::empty()) == Some(
            without_separators(data, s, e),
        ),
{
    let (s, e) = lex(data, p).0->0;
    lemma_skip_blank(data, p);
    assert(without_separators(data, s, s) =~= Seq::<char>::empty());
    lemma_token_text(data, s, s, false);
}

/// Reading a token never goes back and never runs past the data: a token
/// lies, not empty, between where reading started and where it stopped;
/// when there is no token, reading has reached the end of the data.
pub proof fn law_next_progress(data: Seq<u8>, p: int)
    requires
        0 <= p <= data.len(),
    ensures
        lex(data, p).0 matches Some((s, e)) ==> p <= s < e <= lex(data, p).1 <= data.len(),
        lex(data, p).0 is None ==> lex(data, p).1 == data.len(),
{
    lemma_skip_blank(data, p);
    let q = skip_blank(data, p);
    if p < data.len() && q < data.len() {
        lemma_next_pos(data, q);
        lemma_token_end(data, q, false);
    }
}

} // verus!
