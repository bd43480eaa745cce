//! The message log of the IFC toolkit: which messages are kept, how a plain
//! text message line is laid out, and where it goes (the attached message
//! sink, or the in-memory log when none is attached). Writing to sinks, the
//! clock, JSON rendering and performance timing are left to the caller,
//! which hands the logger the current time as text.
use crate::text::{push_str, string_from_chars};
use vstd::prelude::*;
use vstd::string::StringSliceAdditionalSpecFns;
use vstd::utf8::{decode_utf8, encode_utf8};

verus! {

broadcast use {vstd::utf8::encode_utf8_valid_utf8, vstd::utf8::encode_utf8_decode_utf8};

/// Importance of a message, from least to most important.
#[derive(Clone, Copy, Debug, PartialEq, Eq, Structural)]
pub enum Severity {
    Perf,
    Debug,
    Notice,
    Warning,
    Error,
}

/// Rank of a severity: `Perf` is 0, `Error` is 4.
pub open spec fn rank(s: Severity) -> u8 {
    match s {
        Severity::Perf => 0,
        Severity::Debug => 1,
        Severity::Notice => 2,
        Severity::Warning => 3,
        Severity::Error => 4,
    }
}

/// Name of a severity as it appears in a message line.
pub open spec fn severity_name(s: Severity) -> Seq<char> {
    match s {
        Severity::Perf => "Performance"@,
        Severity::Debug => "Debug"@,
        Severity::Notice => "Notice"@,
        Severity::Warning => "Warning"@,
        Severity::Error => "Error"@,
    }
}

impl Severity {
    pub fn rank(&self) -> (r: u8)
        ensures
            r == rank(*self),
    {
        match self {
            Severity::Perf => 0,
            Severity::Debug => 1,
            Severity::Notice => 2,
            Severity::Warning => 3,
            Severity::Error => 4,
        }
    }

    pub fn name(&self) -> (r: &'static str)
        ensures
            r@ == severity_name(*self),
    {
        match self {
            Severity::Perf => "Performance",
            Severity::Debug => "Debug",
            Severity::Notice => "Notice",
            Severity::Warning => "Warning",
            Severity::Error => "Error",
        }
    }

    /// Message lines of this severity carry milliseconds in their time stamp.
    pub fn timestamp_with_millis(&self) -> (r: bool)
        ensures
            r == (rank(*self) <= rank(Severity::Perf)),
    {
        self.rank() <= 0
    }
}

/// How message lines are rendered.
#[derive(Clone, Copy, Debug, PartialEq, Eq, Structural)]
pub enum Format {
    Plain,
    Json,
}

/// Longest instance text, in bytes, that a message line shows in full.
pub open spec fn instance_limit() -> nat {
    259
}

/// The instance text of a message line: kept whole up to 259 bytes of UTF-8,
/// otherwise its first 256 bytes followed by `...`.
pub open spec fn shown_instance(s: Seq<char>) -> Seq<char> {
    if encode_utf8(s).len() > instance_limit() {
        decode_utf8(encode_utf8(s).subrange(0, 256)) + "..."@
    } else {
        s
    }
}

/// A long instance text can be cut after its 256th byte.
pub open spec fn instance_cuttable(s: Seq<char>) -> bool {
    encode_utf8(s).len() > instance_limit() ==> vstd::utf8::is_char_boundary(encode_utf8(s), 256)
}

/// The plain text lines of a message: severity, time, the current product's
/// global id in braces when there is one, the message; then the shown
/// instance text on a line of its own when an instance is given.
pub open spec fn plain_message(
    sev: Severity,
    time: Seq<char>,
    product: Option<Seq<char>>,
    message: Seq<char>,
    instance: Option<Seq<char>>,
) -> Seq<char> {
    "["@ + severity_name(sev) + "] ["@ + time + "] "@ + match product {
        Some(g) => "{"@ + g + "} "@,
        None => Seq::<char>::empty(),
    } + message + "\n"@ + match instance {
        Some(i) => shown_instance(i) + "\n"@,
        None => Seq::<char>::empty(),
    }
}

/// The state of the message log.
pub struct Logger {
    status_sink: bool,
    message_sink: bool,
    log_stream: Vec<char>,
    verbosity: Severity,
    max_severity: Severity,
    format: Format,
    product: Option<String>,
    print_perf_stats_on_element: bool,
}

/// Observable state of the message log.
pub struct LoggerView {
    pub status_sink: bool,
    pub message_sink: bool,
    pub log: Seq<char>,
    pub verbosity: Severity,
    pub max_severity: Severity,
    pub format: Format,
    pub product: Option<Seq<char>>,
    pub print_perf_stats_on_element: bool,
}

impl View for Logger {
    type V = LoggerView;

    closed spec fn view(&self) -> LoggerView {
        LoggerView {
            status_sink: self.status_sink,
            message_sink: self.message_sink,
            log: self.log_stream@,
            verbosity: self.verbosity,
            max_severity: self.max_severity,
            format: self.format,
            product: match self.product {
                Some(p) => Some(p@),
                None => None,
            },
            print_perf_stats_on_element: self.print_perf_stats_on_element,
        }
    }
}

/// What the log needs to know of a product being processed: its global id,
/// when it has one, and its text as an instance.
pub struct ProductInfo {
    pub global_id: Option<String>,
    pub text: String,
}

/// What setting the current product brought about.
pub enum ProductChange {
    /// The product was announced with a debug message.
    Announced(Delivery),
    /// The performance statistics are to be printed and cleared.
    PrintPerfStats,
    /// Nothing else.
    Quiet,
}

/// What became of a message.
pub enum Delivery {
    /// Less important than the verbosity: dropped.
    Filtered,
    /// Appended to the in-memory log.
    Buffered,
    /// To be written to the attached sink.
    Write(String),
    /// A JSON message, to be rendered by the caller and handed to `deliver`.
    Json,
}

/// The rank by which a message of severity `sev` is held against the
/// verbosity: a performance message counts as a debug message.
pub open spec fn filter_rank(sev: Severity) -> u8 {
    if sev == Severity::Perf {
        rank(Severity::Debug)
    } else {
        rank(sev)
    }
}

/// Is a message of severity `sev` kept at verbosity `verbosity`? Messages
/// less important than the verbosity are dropped; performance messages are
/// kept wherever debug messages are.
pub open spec fn kept(sev: Severity, verbosity: Severity) -> bool {
    filter_rank(sev) >= rank(verbosity)
}

/// The outcome of logging `message` of severity `sev` at time `time`,
/// about an instance shown as `instance`: from `before` the logger becomes
/// `after`, and `r` says where the text went.
pub open spec fn logged(
    before: LoggerView,
    after: LoggerView,
    sev: Severity,
    time: Seq<char>,
    message: Seq<char>,
    instance: Option<Seq<char>>,
    r: Delivery,
) -> bool {
    &&& !kept(sev, before.verbosity) ==> r == Delivery::Filtered && after == before
    &&& kept(sev, before.verbosity) ==> {
        let raised = LoggerView {
            max_severity: if rank(sev) > rank(before.max_severity) {
                sev
            } else {
                before.max_severity
            },
            ..before
        };
        let text = plain_message(
            sev,
            time,
            before.product,
            message,
            instance,
        );
        match before.format {
            Format::Json => r == Delivery::Json && after == raised,
            Format::Plain => if before.message_sink {
                after == raised && (r matches Delivery::Write(t) && t@ == text)
            } else {
                r == Delivery::Buffered && after == (LoggerView {
                    log: before.log + text,
                    ..raised
                })
            },
        }
    }
}

impl Logger {
    /// A log with no sinks attached, verbosity and highest severity `Notice`,
    /// plain format.
    pub fn new() -> (r: Self)
        ensures
            !r@.status_sink,
            !r@.message_sink,
            r@.log == Seq::<char>::empty(),
            r@.verbosity == Severity::Notice,
            r@.max_severity == Severity::Notice,
            r@.format == Format::Plain,
            r@.product is None,
            !r@.print_perf_stats_on_element,
    {
        Logger {
            status_sink: false,
            message_sink: false,
            log_stream: Vec::new(),
            verbosity: Severity::Notice,
            max_severity: Severity::Notice,
            format: Format::Plain,
            product: None,
            print_perf_stats_on_element: false,
        }
    }

    /// Records which sinks are attached: one for status lines, one for
    /// messages. Messages without a sink go to the in-memory log.
    pub fn set_output(&mut self, status_sink: bool, message_sink: bool)
        ensures
            final(self)@ == (LoggerView { status_sink, message_sink, ..old(self)@ }),
    {
        self.status_sink = status_sink;
        self.message_sink = message_sink;
    }

    pub fn set_output_format(&mut self, fmt: Format)
        ensures
            final(self)@ == (LoggerView { format: fmt, ..old(self)@ }),
    {
        self.format = fmt;
    }

    pub fn output_format(&self) -> (r: Format)
        ensures
            r == self@.format,
    {
        self.format
    }

    pub fn set_verbosity(&mut self, sev: Severity)
        ensures
            final(self)@ == (LoggerView { verbosity: sev, ..old(self)@ }),
    {
        self.verbosity = sev;
    }

    pub fn verbosity(&self) -> (r: Severity)
        ensures
            r == self@.verbosity,
    {
        self.verbosity
    }

    /// The most important severity of the messages kept so far, and at
    /// least `Notice`.
    pub fn max_severity(&self) -> (r: Severity)
        ensures
            r == self@.max_severity,
    {
        self.max_severity
    }

    pub fn set_print_perf_stats_on_element(&mut self, enable: bool)
        ensures
            final(self)@ == (LoggerView { print_perf_stats_on_element: enable, ..old(self)@ }),
    {
        self.print_perf_stats_on_element = enable;
    }

    /// The global id of the product being processed, if any.
    pub fn product(&self) -> (r: Option<&String>)
        ensures
            match r {
                Some(p) => self@.product == Some(p@),
                None => self@.product is None,
            },
    {
        self.product.as_ref()
    }

    /// Sets or clears the product being processed. Setting one announces it
    /// with a `Debug` message "Begin processing" about its instance text,
    /// which carries the new product's global id in braces, when the
    /// verbosity lets such messages through; clearing it asks for the performance
    /// statistics to be printed and cleared, when that was asked for.
    pub fn set_product(&mut self, product: Option<ProductInfo>, time: &str) -> (r: ProductChange)
        requires
            product matches Some(p) ==> (rank(old(self)@.verbosity) <= rank(Severity::Debug) && old(self)@.format
                == Format::Plain ==> instance_cuttable(p.text@)),
        ensures
            final(self)@.product == match product {
                Some(p) => match p.global_id {
                    Some(g) => Some(g@),
                    None => None,
                },
                None => None,
            },
            final(self)@.status_sink == old(self)@.status_sink,
            final(self)@.message_sink == old(self)@.message_sink,
            final(self)@.verbosity == old(self)@.verbosity,
            final(self)@.format == old(self)@.format,
            final(self)@.print_perf_stats_on_element == old(self)@.print_perf_stats_on_element,
            match product {
                Some(p) => if rank(old(self)@.verbosity) <= rank(Severity::Debug) {
                    let text = plain_message(
                        Severity::Debug,
                        time@,
                        final(self)@.product,
                        "Begin processing"@,
                        Some(p.text@),
                    );
                    let raised = if rank(Severity::Debug) > rank(old(self)@.max_severity) {
                        Severity::Debug
                    } else {
                        old(self)@.max_severity
                    };
                    &&& final(self)@.max_severity == raised
                    &&& match old(self)@.format {
                        Format::Json => r == ProductChange::Announced(Delivery::Json) && final(self)@.log
                            == old(self)@.log,
                        Format::Plain => if old(self)@.message_sink {
                            final(self)@.log == old(self)@.log && (r matches ProductChange::Announced(
                                Delivery::Write(t),
                            ) && t@ == text)
                        } else {
                            r == ProductChange::Announced(Delivery::Buffered) && final(self)@.log
                                == old(self)@.log + text
                        },
                    }
                } else {
                    r == ProductChange::Quiet && final(self)@.log == old(self)@.log && final(self)@.max_severity
                        == old(self)@.max_severity
                },
                None => {
                    &&& r == (if old(self)@.print_perf_stats_on_element {
                        ProductChange::PrintPerfStats
                    } else {
                        ProductChange::Quiet
                    })
                    &&& final(self)@.log == old(self)@.log
                    &&& final(self)@.max_severity == old(self)@.max_severity
                },
            },
    {
        let (gid, text) = match product {
            Some(p) => (p.global_id, Some(p.text)),
            None => (None, None),
        };
        self.product = gid;
        let r = match text {
            Some(t) => {
                if self.verbosity.rank() <= 1 {
                    let d = self.message(Severity::Debug, "Begin processing", Some(t.as_str()), time);
                    ProductChange::Announced(d)
                } else {
                    ProductChange::Quiet
                }
            },
            None => {
                if self.print_perf_stats_on_element {
                    ProductChange::PrintPerfStats
                } else {
                    ProductChange::Quiet
                }
            },
        };
        r
    }

    /// Is a message of severity `sev` kept at the current verbosity?
    pub fn keeps(&self, sev: Severity) -> (r: bool)
        ensures
            r == kept(sev, self@.verbosity),
    {
        let f: u8 = match sev {
            Severity::Perf => 1,
            _ => sev.rank(),
        };
        f >= self.verbosity.rank()
    }

    /// The in-memory log.
    pub fn get_log(&self) -> (r: String)
        ensures
            r@ == self@.log,
    {
        string_from_chars(&self.log_stream)
    }

    /// Hands rendered message text on: to the message sink when one is
    /// attached, otherwise onto the in-memory log.
    pub fn deliver(&mut self, text: String) -> (r: Delivery)
        ensures
            old(self)@.message_sink ==> r == Delivery::Write(text) && final(self)@ == old(self)@,
            !old(self)@.message_sink ==> r == Delivery::Buffered && final(self)@ == (LoggerView {
                log: old(self)@.log + text@,
                ..old(self)@
            }),
    {
        if self.message_sink {
            Delivery::Write(text)
        } else {
            push_str(&mut self.log_stream, text.as_str());
            Delivery::Buffered
        }
    }

    /// Logs a message of severity `sev` at time `time`, about an instance
    /// whose text is `instance` when one is given. Messages less important
    /// than the verbosity are dropped; otherwise the highest severity seen is
    /// raised, and a plain message is rendered and delivered, while a JSON
    /// message is left to the caller to render and deliver.
    #[verifier::rlimit(40)]
    pub fn message(&mut self, sev: Severity, message: &str, instance: Option<&str>, time: &str) -> (r: Delivery)
        requires
            instance matches Some(i) ==> (kept(sev, old(self)@.verbosity) && old(self)@.format
                == Format::Plain ==> instance_cuttable(i@)),
        ensures
            logged(
                old(self)@,
                final(self)@,
                sev,
                time@,
                message@,
                match instance {
                    Some(i) => Some(i@),
                    None => None,
                },
                r,
            ),
    {
        if !self.keeps(sev) {
            return Delivery::Filtered;
        }
        if sev.rank() > self.max_severity.rank() {
            self.max_severity = sev;
        }
        match self.format {
            Format::Json => Delivery::Json,
            Format::Plain => {
                let mut buf: Vec<char> = Vec::new();
                buf.push('[');
                push_str(&mut buf, sev.name());
                push_str(&mut buf, "] [");
                push_str(&mut buf, time);
                push_str(&mut buf, "] ");
                match &self.product {
                    Some(g) => {
                        buf.push('{');
                        push_str(&mut buf, g.as_str());
                        push_str(&mut buf, "} ");
                    },
                    None => {},
                }
                push_str(&mut buf, message);
                buf.push('\n');
                match instance {
                    Some(i) => {
                        push_shown_instance(&mut buf, i);
                        buf.push('\n');
                    },
                    None => {},
                }
                proof {
                    reveal_strlit("[");
                    reveal_strlit("] [");
                    reveal_strlit("] ");
                    reveal_strlit("{");
                    reveal_strlit("} ");
                    reveal_strlit("\n");
                }
                assert(buf@ =~= plain_message(
                    sev,
                    time@,
                    old(self)@.product,
                    message@,
                    match instance {
                        Some(i) => Some(i@),
                        None => None,
                    },
                ));
                let text = string_from_chars(&buf);
                self.deliver(text)
            },
        }
    }

    /// Logs an error's message: `error` is the text that the error shows.
    pub fn message_error(&mut self, sev: Severity, error: &str, instance: Option<&str>, time: &str) -> (r: Delivery)
        requires
            instance matches Some(i) ==> (kept(sev, old(self)@.verbosity) && old(self)@.format
                == Format::Plain ==> instance_cuttable(i@)),
        ensures
            logged(
                old(self)@,
                final(self)@,
                sev,
                time@,
                error@,
                match instance {
                    Some(i) => Some(i@),
                    None => None,
                },
                r,
            ),
    {
        self.message(sev, error, instance, time)
    }

    /// Writes a status line: to the status sink when one is attached
    /// (followed by a line break when `new_line`), otherwise onto the
    /// in-memory log.
    pub fn status(&mut self, message: &str, new_line: bool) -> (r: Option<String>)
        ensures
            old(self)@.status_sink ==> final(self)@ == old(self)@ && (r matches Some(t) && t@ == message@
                + if new_line {
                "\n"@
            } else {
                Seq::<char>::empty()
            }),
            !old(self)@.status_sink ==> r is None && final(self)@ == (LoggerView {
                log: old(self)@.log + message@ + if new_line {
                    "\n"@
                } else {
                    Seq::<char>::empty()
                },
                ..old(self)@
            }),
    {
        proof {
            reveal_strlit("\n");
        }
        if self.status_sink {
            let mut t: Vec<char> = Vec::new();
            push_str(&mut t, message);
            if new_line {
                t.push('\n');
            }
            assert(t@ =~= message@ + if new_line {
                "\n"@
            } else {
                Seq::<char>::empty()
            });
            Some(string_from_chars(&t))
        } else {
            push_str(&mut self.log_stream, message);
            if new_line {
                self.log_stream.push('\n');
            }
            assert(self.log_stream@ =~= old(self)@.log + message@ + if new_line {
                "\n"@
            } else {
                Seq::<char>::empty()
            });
            None
        }
    }

    /// Writes a fifty-column progress bar with `progress` columns filled
    /// (at most fifty), as a status line without a line break.
    pub fn progress_bar(&mut self, progress: usize) -> (r: Option<String>)
        ensures
            old(self)@.status_sink ==> final(self)@ == old(self)@ && (r matches Some(t) && t@
                == progress_bar_text(progress as nat)),
            !old(self)@.status_sink ==> r is None && final(self)@ == (LoggerView {
                log: old(self)@.log + progress_bar_text(progress as nat),
                ..old(self)@
            }),
    {
        let p = if progress < 50 {
            progress
        } else {
            50
        };
        let mut bar: Vec<char> = Vec::new();
        bar.push('\r');
        bar.push('[');
        let mut i: usize = 0;
        while i < 50
            invariant
                i <= 50,
                p <= 50,
                p == if progress < 50 { progress as nat } else { 50 },
                bar@ == seq!['\r', '['] + Seq::new(i as nat, |k: int| if k < p { '#' } else { ' ' }),
            decreases 50 - i,
        {
            bar.push(if i < p { '#' } else { ' ' });
            i = i + 1;
            assert(bar@ =~= seq!['\r', '['] + Seq::new(i as nat, |k: int| if k < p { '#' } else { ' ' }));
        }
        bar.push(']');
        assert(bar@ =~= progress_bar_text(progress as nat));
        let text = string_from_chars(&bar);
        self.status(text.as_str(), false)
    }
}

/// `\r[`, then `progress` (at most fifty) `#` characters padded with spaces
/// to fifty columns, then `]`.
pub open spec fn progress_bar_text(progress: nat) -> Seq<char> {
    let p = if progress < 50 {
        progress
    } else {
        50
    };
    seq!['\r', '['] + Seq::new(50, |k: int| if k < p { '#' } else { ' ' }) + seq![']']
}

/// Appends the instance text as a message line shows it.
fn push_shown_instance(out: &mut Vec<char>, s: &str)
    requires
        instance_cuttable(s@),
    ensures
        final(out)@ == old(out)@ + shown_instance(s@),
{
    if s.as_bytes().len() > 259 {
        let (head, _) = s.split_at(256);
        assert(head.spec_bytes() =~= encode_utf8(s@).subrange(0, 256));
        assert(head@ == decode_utf8(encode_utf8(s@).subrange(0, 256)));
        push_str(out, head);
        push_str(out, "...");
        assert(out@ =~= old(out)@ + shown_instance(s@));
    } else {
        push_str(out, s);
    }
}

/// Escapes a string for a JSON string literal: quote, backslash, line
/// feed, carriage return and tab get their short escapes, other control
/// characters a `\u` escape with four lower-case hex digits.
pub fn escape_json(s: &str) -> (r: String)
    ensures
        r@ == json_escaped(s@),
{
    let cs = crate::text::chars_of(s);
    let mut out: Vec<char> = Vec::new();
    let mut i: usize = 0;
    while i < cs.len()
        invariant
            i <= cs@.len(),
            cs@ == s@,
            out@ == json_escaped(cs@.subrange(0, i as int)),
        decreases cs@.len() - i,
    {
        let c = cs[i];
        let ghost before = out@;
        push_json_char(&mut out, c);
        proof {
            lemma_json_escaped_push(cs@.subrange(0, i as int), c);
            assert(cs@.subrange(0, i + 1) =~= cs@.subrange(0, i as int).push(c));
        }
        i = i + 1;
    }
    assert(cs@.subrange(0, i as int) =~= cs@);
    string_from_chars(&out)
}

/// Is `c` a control character (Unicode category Cc)?
pub open spec fn is_control(c: char) -> bool {
    (c as u32) < 0x20 || (0x7f <= (c as u32) && (c as u32) < 0xa0)
}

/// Lower-case hex digit of `d` (`0 <= d < 16`).
pub open spec fn hex_lower(d: nat) -> char {
    if d < 10 {
        (48 + d) as char
    } else {
        (87 + d) as char
    }
}

/// JSON escape of one character.
pub open spec fn json_char(c: char) -> Seq<char> {
    if c == '"' {
        seq!['\\', '"']
    } else if c == '\\' {
        seq!['\\', '\\']
    } else if c == '\n' {
        seq!['\\', 'n']
    } else if c == '\r' {
        seq!['\\', 'r']
    } else if c == '\t' {
        seq!['\\', 't']
    } else if is_control(c) {
        let u = c as u32 as nat;
        seq!['\\', 'u', '0', '0', hex_lower(u / 16), hex_lower(u % 16)]
    } else {
        seq![c]
    }
}

/// JSON escape of a string, character by character.
pub open spec fn json_escaped(s: Seq<char>) -> Seq<char>
    decreases s.len(),
{
    if s.len() == 0 {
        seq![]
    } else {
        json_escaped(s.drop_last()) + json_char(s.last())
    }
}

proof fn lemma_json_escaped_push(s: Seq<char>, c: char)
    ensures
        json_escaped(s.push(c)) == json_escaped(s) + json_char(c),
{
    assert(s.push(c).drop_last() =~= s);
}

fn hex_digit_lower(d: u32) -> (r: char)
    requires
        d < 16,
    ensures
        r == hex_lower(d as nat),
{
    if d < 10 {
        let r = (48 + d) as u8 as char;
        assert(((48 + d) as u8 as char) == (48 + d) as char);
        r
    } else {
        let r = (87 + d) as u8 as char;
        assert(((87 + d) as u8 as char) == (87 + d) as char);
        r
    }
}

fn push_json_char(out: &mut Vec<char>, c: char)
    ensures
        final(out)@ == old(out)@ + json_char(c),
{
    let u = c as u32;
    if c == '"' {
        out.push('\\');
        out.push('"');
    } else if c == '\\' {
        out.push('\\');
        out.push('\\');
    } else if c == '\n' {
        out.push('\\');
        out.push('n');
    } else if c == '\r' {
        out.push('\\');
        out.push('r');
    } else if c == '\t' {
        out.push('\\');
        out.push('t');
    } else if u < 0x20 || (0x7f <= u && u < 0xa0) {
        out.push('\\');
        out.push('u');
        out.push('0');
        out.push('0');
        out.push(hex_digit_lower(u / 16));
        out.push(hex_digit_lower(u % 16));
    } else {
        out.push(c);
    }
    assert(out@ =~= old(out)@ + json_char(c));
}

} // verus!
