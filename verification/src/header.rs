//! The header section of a STEP physical file: reading its fixed sequence
//! of terminals and writing it back out.
use vstd::prelude::*;
use crate::lexer::{lex, token_at, token_text, unquoted, IfcSpfLexer};
use crate::spf::{TokenType, TokenFunc};
use crate::text::{push_str, string_from_chars};
use crate::p21::same_text;
use crate::schema::IfcException;

verus! {

/// The first terminal of a STEP file.
pub const ISO_10303_21: &'static str = "ISO-10303-21";

/// The terminal that opens the header section.
pub const HEADER: &'static str = "HEADER";

/// The terminal that closes a section.
pub const ENDSEC: &'static str = "ENDSEC";

/// The terminal that opens the data section.
pub const DATA: &'static str = "DATA";

/// Whether a terminal is followed by a semicolon.
pub enum Trail {
    /// No semicolon follows.
    NoSemicolon,
    TrailingSemicolon,
}

/// The upper-case names of the three header entities of a schema.
pub struct HeaderSchema {
    pub file_description: String,
    pub file_name: String,
    pub file_schema: String,
}

impl HeaderSchema {
    pub fn file_description_name_uc(&self) -> (r: &str)
        ensures
            r@ == self.file_description@,
    {
        self.file_description.as_str()
    }

    pub fn file_name_name_uc(&self) -> (r: &str)
        ensures
            r@ == self.file_name@,
    {
        self.file_name.as_str()
    }

    pub fn file_schema_name_uc(&self) -> (r: &str)
        ensures
            r@ == self.file_schema@,
    {
        self.file_schema.as_str()
    }
}

/// What reading the header expects of the next token.
pub enum StepKind {
    /// A token whose text is the given terminal.
    Terminal,
    /// The operator `;`.
    Semicolon,
    /// Any one token (the arguments of a header entity).
    AnyToken,
}

/// The text that a header read compares with a terminal: that of the token
/// read from `p` (string, enumeration and binary delimiters left out), empty
/// at the end of the data; `None` for a string literal, which matches no
/// terminal.
pub open spec fn read_text(data: Seq<u8>, p: int) -> Option<Seq<char>> {
    match lex(data, p).0 {
        None => Some(Seq::<char>::empty()),
        Some((s, e)) => match token_text(data, s, Seq::<char>::empty()) {
            Some(t) => Some(unquoted(token_at(data, s, e).0, t)),
            None => None,
        },
    }
}

/// Is the token read from `p` the operator `;`?
pub open spec fn semicolon_at(data: Seq<u8>, p: int) -> bool {
    match lex(data, p).0 {
        None => false,
        Some((s, e)) => token_at(data, s, e).0 == TokenType::Token_OPERATOR && token_at(data, s, e).2 == ';',
    }
}

/// Does the token read from `p` meet the expectation `step`?
pub open spec fn step_ok(data: Seq<u8>, p: int, step: (StepKind, Seq<char>)) -> bool {
    match step.0 {
        StepKind::Terminal => read_text(data, p) == Some(step.1),
        StepKind::Semicolon => semicolon_at(data, p),
        StepKind::AnyToken => true,
    }
}

/// Reads one token for each expectation of `steps` from the `i`-th on,
/// starting at `p`: the first expectation that its token does not meet
/// (`None` when all are met), and the position after the last token read.
pub open spec fn run_steps(data: Seq<u8>, p: int, steps: Seq<(StepKind, Seq<char>)>, i: int) -> (
    Option<(StepKind, Seq<char>)>,
    int,
)
    decreases steps.len() - i,
{
    if i < 0 || i >= steps.len() {
        (None, p)
    } else if !step_ok(data, p, steps[i]) {
        (Some(steps[i]), lex(data, p).1)
    } else {
        run_steps(data, lex(data, p).1, steps, i + 1)
    }
}

/// The message of the error for an expectation that was not met.
pub open spec fn expected_message(step: (StepKind, Seq<char>)) -> Seq<char> {
    match step.0 {
        StepKind::Semicolon => "Expected ;"@,
        _ => "Expected "@ + step.1,
    }
}

/// The `i`-th expectation of a header: `ISO-10303-21;`, `HEADER;`, then
/// each header entity's name, one token of arguments and `;`.
pub open spec fn header_step(fd: Seq<char>, fname: Seq<char>, fs: Seq<char>, i: int) -> (StepKind, Seq<char>) {
    if i == 0 {
        (StepKind::Terminal, ISO_10303_21@)
    } else if i == 2 {
        (StepKind::Terminal, HEADER@)
    } else if i == 4 {
        (StepKind::Terminal, fd)
    } else if i == 7 {
        (StepKind::Terminal, fname)
    } else if i == 10 {
        (StepKind::Terminal, fs)
    } else if i == 5 || i == 8 || i == 11 {
        (StepKind::AnyToken, Seq::<char>::empty())
    } else {
        (StepKind::Semicolon, Seq::<char>::empty())
    }
}

/// The expectations of a header, in order.
pub open spec fn header_steps(schema: HeaderSchema) -> Seq<(StepKind, Seq<char>)> {
    Seq::new(
        13,
        |i: int| header_step(schema.file_description@, schema.file_name@, schema.file_schema@, i),
    )
}

/// The text written for a header whose entities read as `fd`, `fname` and
/// `fs`.
pub open spec fn header_text(fd: Seq<char>, fname: Seq<char>, fs: Seq<char>) -> Seq<char> {
    ISO_10303_21@ + ";\n"@ + HEADER@ + ";\n"@ + fd + ";\n"@ + fname + ";\n"@ + fs + ";\n"@ + ENDSEC@
        + ";\n"@ + DATA@ + ";\n"@
}

/// Reading one expectation unfolds the run of expectations once.
proof fn lemma_run_one(data: Seq<u8>, p: int, steps: Seq<(StepKind, Seq<char>)>, i: int)
    requires
        0 <= i < steps.len(),
    ensures
        run_steps(data, p, steps, i) == (if !step_ok(data, p, steps[i]) {
            (Some(steps[i]), lex(data, p).1)
        } else {
            run_steps(data, lex(data, p).1, steps, i + 1)
        }),
{
}

/// The header section of a STEP file, read from a lexer.
pub struct IfcSpfHeader {
    pub tokens: IfcSpfLexer,
    pub schema: HeaderSchema,
}

impl IfcSpfHeader {
    pub fn with_lexer(lexer: IfcSpfLexer, header_schema: HeaderSchema) -> (r: Self)
        ensures
            r.tokens == lexer,
            r.schema == header_schema,
    {
        IfcSpfHeader { tokens: lexer, schema: header_schema }
    }

    /// Reads a token and checks that it is `;`.
    fn read_semicolon(&mut self) -> (r: Result<(), IfcException>)
        requires
            old(self).tokens.stream.wf(),
        ensures
            final(self).tokens.stream.wf(),
            final(self).tokens.stream.data() == old(self).tokens.stream.data(),
            final(self).schema == old(self).schema,
            final(self).tokens.stream.pos() == lex(old(self).tokens.stream.data(), old(self).tokens.stream.pos()).1,
            semicolon_at(old(self).tokens.stream.data(), old(self).tokens.stream.pos()) ==> r is Ok,
            !semicolon_at(old(self).tokens.stream.data(), old(self).tokens.stream.pos()) ==> (r matches Err(
                e,
            ) && e.0@ == "Expected ;"@),
    {
        let tk = self.tokens.Next();
        if !TokenFunc::isOperator_ch(&tk, ';') {
            return Err(IfcException("Expected ;".to_owned()));
        }
        Ok(())
    }

    /// Reads a token and checks that its text is `term`, then, with a
    /// trailing semicolon, reads the `;`.
    fn read_terminal(&mut self, term: &str, trail: Trail) -> (r: Result<(), IfcException>)
        requires
            old(self).tokens.stream.wf(),
        ensures
            final(self).tokens.stream.wf(),
            final(self).tokens.stream.data() == old(self).tokens.stream.data(),
            final(self).schema == old(self).schema,
            ({
                let data = old(self).tokens.stream.data();
                let p = old(self).tokens.stream.pos();
                let q = lex(data, p).1;
                if read_text(data, p) != Some(term@) {
                    &&& r matches Err(e) && e.0@ == expected_message((StepKind::Terminal, term@))
                    &&& final(self).tokens.stream.pos() == q
                } else if trail is NoSemicolon {
                    &&& r is Ok
                    &&& final(self).tokens.stream.pos() == q
                } else {
                    &&& final(self).tokens.stream.pos() == lex(data, q).1
                    &&& semicolon_at(data, q) ==> r is Ok
                    &&& !semicolon_at(data, q) ==> (r matches Err(e) && e.0@ == "Expected ;"@)
                }
            }),
    {
        let tk = self.tokens.Next();
        let text: Option<String> = if tk.type_ == TokenType::Token_NONE {
            Some(String::new())
        } else {
            TokenFunc::asStringRef(&self.tokens, &tk)
        };
        let matches = match &text {
            Some(s) => same_text(s.as_str(), term),
            None => false,
        };
        if !matches {
            let mut msg: Vec<char> = Vec::new();
            push_str(&mut msg, "Expected ");
            push_str(&mut msg, term);
            return Err(IfcException(string_from_chars(&msg)));
        }
        match trail {
            Trail::TrailingSemicolon => self.read_semicolon(),
            Trail::NoSemicolon => Ok(()),
        }
    }

    /// Reads the header: `ISO-10303-21;`, `HEADER;`, then the name of each
    /// header entity of the schema, its arguments (one token) and `;`. It
    /// stops after the first token that is not what is expected there, with
    /// the error for it.
    pub fn read(&mut self) -> (r: Result<(), IfcException>)
        requires
            old(self).tokens.stream.wf(),
        ensures
            final(self).tokens.stream.wf(),
            final(self).tokens.stream.data() == old(self).tokens.stream.data(),
            final(self).schema == old(self).schema,
            ({
                let run = run_steps(
                    old(self).tokens.stream.data(),
                    old(self).tokens.stream.pos(),
                    header_steps(old(self).schema),
                    0,
                );
                &&& final(self).tokens.stream.pos() == run.1
                &&& match run.0 {
                    None => r is Ok,
                    Some(step) => r matches Err(e) && e.0@ == expected_message(step),
                }
            }),
    {
        let ghost data = self.tokens.stream.data();
        let ghost steps = header_steps(self.schema);
        let ghost p0 = self.tokens.stream.pos();
        let ghost outcome = run_steps(data, p0, steps, 0);
        proof {
            lemma_run_one(data, p0, steps, 0);
            lemma_run_one(data, lex(data, p0).1, steps, 1);
        }
        let r = self.read_terminal(ISO_10303_21, Trail::TrailingSemicolon);
        if r.is_err() {
            return r;
        }
        let ghost at: int = self.tokens.stream.pos() as int;
        assert(outcome == run_steps(data, at, steps, 2));
        proof {
            lemma_run_one(data, at, steps, 2);
            lemma_run_one(data, lex(data, at).1, steps, 3);
        }
        let r = self.read_terminal(HEADER, Trail::TrailingSemicolon);
        if r.is_err() {
            return r;
        }
        let ghost at: int = self.tokens.stream.pos() as int;
        assert(outcome == run_steps(data, at, steps, 4));
        let names = [self.schema.file_description.clone(), self.schema.file_name.clone(), self.schema.file_schema.clone()];
        let mut k: usize = 0;
        while k < 3
            invariant
                self.tokens.stream.wf(),
                self.tokens.stream.data() == data,
                self.schema == old(self).schema,
                steps == header_steps(self.schema),
                data == old(self).tokens.stream.data(),
                outcome == run_steps(data, old(self).tokens.stream.pos(), steps, 0),
                k <= 3,
                outcome == run_steps(data, self.tokens.stream.pos(), steps, 4 + 3 * k),
                names@[0]@ == self.schema.file_description@,
                names@[1]@ == self.schema.file_name@,
                names@[2]@ == self.schema.file_schema@,
            decreases 3 - k,
        {
            let ghost i: int = 4 + 3 * k;
            let ghost q0: int = self.tokens.stream.pos() as int;
            proof {
                lemma_run_one(data, q0, steps, i);
                lemma_run_one(data, lex(data, q0).1, steps, i + 1);
                lemma_run_one(data, lex(data, lex(data, q0).1).1, steps, i + 2);
            }
            let r = self.read_terminal(names[k].as_str(), Trail::NoSemicolon);
            if r.is_err() {
                return r;
            }
            self.read_from_spf_file();
            let r = self.read_semicolon();
            if r.is_err() {
                return r;
            }
            k = k + 1;
        }
        Ok(())
    }

    /// Reads the header; whether it was read without error.
    pub fn try_read(&mut self) -> (r: bool)
        requires
            old(self).tokens.stream.wf(),
        ensures
            final(self).tokens.stream.wf(),
            final(self).tokens.stream.data() == old(self).tokens.stream.data(),
            final(self).schema == old(self).schema,
            final(self).tokens.stream.pos() == run_steps(
                old(self).tokens.stream.data(),
                old(self).tokens.stream.pos(),
                header_steps(old(self).schema),
                0,
            ).1,
            r == run_steps(
                old(self).tokens.stream.data(),
                old(self).tokens.stream.pos(),
                header_steps(old(self).schema),
                0,
            ).0 is None,
    {
        match self.read() {
            Ok(_) => true,
            Err(_) => false,
        }
    }

    /// The text of a header whose entities read, in the file's syntax, as
    /// `file_description`, `file_name` and `file_schema`.
    pub fn write(file_description: &str, file_name: &str, file_schema: &str) -> (r: String)
        ensures
            r@ == header_text(file_description@, file_name@, file_schema@),
    {
        let mut out: Vec<char> = Vec::new();
        push_str(&mut out, ISO_10303_21);
        push_str(&mut out, ";\n");
        push_str(&mut out, HEADER);
        push_str(&mut out, ";\n");
        push_str(&mut out, file_description);
        push_str(&mut out, ";\n");
        push_str(&mut out, file_name);
        push_str(&mut out, ";\n");
        push_str(&mut out, file_schema);
        push_str(&mut out, ";\n");
        push_str(&mut out, ENDSEC);
        push_str(&mut out, ";\n");
        push_str(&mut out, DATA);
        push_str(&mut out, ";\n");
        string_from_chars(&out)
    }

    /// Takes in the arguments of a header entity: one token.
    fn read_from_spf_file(&mut self)
        requires
            old(self).tokens.stream.wf(),
        ensures
            final(self).tokens.stream.wf(),
            final(self).tokens.stream.data() == old(self).tokens.stream.data(),
            final(self).schema == old(self).schema,
            final(self).tokens.stream.pos() == lex(old(self).tokens.stream.data(), old(self).tokens.stream.pos()).1,
    {
        let _ = self.tokens.Next();
    }
}

} // verus!
