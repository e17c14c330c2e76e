use std::fmt::Write;
use vstd::prelude::*;

verus! {

/// Writes the decimal digits of `n`, most significant first.
pub open spec fn decimal(n: nat) -> Seq<char>
    decreases n,
{
    if n < 10 {
        seq![digit_char(n)]
    } else {
        decimal(n / 10) + seq![digit_char(n % 10)]
    }
}

pub open spec fn digit_char(d: nat) -> char {
    "0123456789"@[d as int]
}

/// The decimal text of a line number.
pub fn decimal_text(n: u32) -> (r: String)
    ensures
        r@ == decimal(n as nat),
    decreases n,
{
    proof {
        reveal_strlit("0123456789");
    }
    let digits = "0123456789";
    let d: usize = (n % 10) as usize;
    let last = digits.substring_char(d, d + 1);
    proof {
        assert(last@ =~= seq![digit_char(d as nat)]);
    }
    if n < 10 {
        last.to_string()
    } else {
        let mut head = decimal_text(n / 10);
        head.append(last);
        head
    }
}


/// Severity of an event, from the most verbose to the most severe.
#[derive(Clone, Copy, Debug, PartialEq, Eq, Structural)]
pub enum Level {
    Trace,
    Debug,
    Info,
    Warn,
    Error,
}

/// A terminal style that the renderer applies to one piece of a line.
#[derive(Clone, Copy, Debug, PartialEq, Eq, Structural)]
pub enum Tone {
    Dim,
    Magenta,
    Blue,
    Green,
    Yellow,
    Red,
    Cyan,
}

/// The number inside the ANSI escape sequence that selects a tone.
pub open spec fn tone_code(t: Tone) -> Seq<char> {
    match t {
        Tone::Dim => seq!['2'],
        Tone::Red => seq!['3', '1'],
        Tone::Green => seq!['3', '2'],
        Tone::Yellow => seq!['3', '3'],
        Tone::Blue => seq!['3', '4'],
        Tone::Magenta => seq!['3', '5'],
        Tone::Cyan => seq!['3', '6'],
    }
}

/// `text` in the given tone: wrapped in an escape sequence and a reset when
/// styling is on, unchanged when it is off.
pub open spec fn painted(text: Seq<char>, t: Tone, styled: bool) -> Seq<char> {
    if styled {
        seq!['\x1b', '['] + tone_code(t) + seq!['m'] + text + seq!['\x1b', '[', '0', 'm']
    } else {
        text
    }
}

/// Relies on console's `style(..).dim()` with styling forced on or off.
#[verifier::external_body]
fn paint_dim(text: &str, styled: bool) -> (r: String)
    ensures
        r@ == painted(text@, Tone::Dim, styled),
{
    console::style(text).dim().force_styling(styled).to_string()
}

/// Relies on console's `style(..).magenta()` with styling forced on or off.
#[verifier::external_body]
fn paint_magenta(text: &str, styled: bool) -> (r: String)
    ensures
        r@ == painted(text@, Tone::Magenta, styled),
{
    console::style(text).magenta().force_styling(styled).to_string()
}

/// Relies on console's `style(..).blue()` with styling forced on or off.
#[verifier::external_body]
fn paint_blue(text: &str, styled: bool) -> (r: String)
    ensures
        r@ == painted(text@, Tone::Blue, styled),
{
    console::style(text).blue().force_styling(styled).to_string()
}

/// Relies on console's `style(..).green()` with styling forced on or off.
#[verifier::external_body]
fn paint_green(text: &str, styled: bool) -> (r: String)
    ensures
        r@ == painted(text@, Tone::Green, styled),
{
    console::style(text).green().force_styling(styled).to_string()
}

/// Relies on console's `style(..).yellow()` with styling forced on or off.
#[verifier::external_body]
fn paint_yellow(text: &str, styled: bool) -> (r: String)
    ensures
        r@ == painted(text@, Tone::Yellow, styled),
{
    console::style(text).yellow().force_styling(styled).to_string()
}

/// Relies on console's `style(..).red()` with styling forced on or off.
#[verifier::external_body]
fn paint_red(text: &str, styled: bool) -> (r: String)
    ensures
        r@ == painted(text@, Tone::Red, styled),
{
    console::style(text).red().force_styling(styled).to_string()
}

/// Relies on console's `style(..).cyan()` with styling forced on or off.
#[verifier::external_body]
fn paint_cyan(text: &str, styled: bool) -> (r: String)
    ensures
        r@ == painted(text@, Tone::Cyan, styled),
{
    console::style(text).cyan().force_styling(styled).to_string()
}

/// Applies a tone to `text`.
pub fn paint(text: &str, t: Tone, styled: bool) -> (r: String)
    ensures
        r@ == painted(text@, t, styled),
{
    match t {
        Tone::Dim => paint_dim(text, styled),
        Tone::Magenta => paint_magenta(text, styled),
        Tone::Blue => paint_blue(text, styled),
        Tone::Green => paint_green(text, styled),
        Tone::Yellow => paint_yellow(text, styled),
        Tone::Red => paint_red(text, styled),
        Tone::Cyan => paint_cyan(text, styled),
    }
}

pub open spec fn level_name(l: Level) -> Seq<char> {
    match l {
        Level::Trace => seq!['T', 'R', 'A', 'C', 'E'],
        Level::Debug => seq!['D', 'E', 'B', 'U', 'G'],
        Level::Info => seq!['I', 'N', 'F', 'O'],
        Level::Warn => seq!['W', 'A', 'R', 'N'],
        Level::Error => seq!['E', 'R', 'R', 'O', 'R'],
    }
}

pub open spec fn level_tone(l: Level) -> Tone {
    match l {
        Level::Trace => Tone::Magenta,
        Level::Debug => Tone::Blue,
        Level::Info => Tone::Green,
        Level::Warn => Tone::Yellow,
        Level::Error => Tone::Red,
    }
}

impl Level {
    /// The upper-case name of the level.
    pub fn name(self) -> (r: &'static str)
        ensures
            r@ == level_name(self),
    {
        proof {
            reveal_strlit("TRACE");
            reveal_strlit("DEBUG");
            reveal_strlit("INFO");
            reveal_strlit("WARN");
            reveal_strlit("ERROR");
        }
        match self {
            Level::Trace => "TRACE",
            Level::Debug => "DEBUG",
            Level::Info => "INFO",
            Level::Warn => "WARN",
            Level::Error => "ERROR",
        }
    }

    /// The tone in which the level's name is shown.
    pub fn tone(self) -> (r: Tone)
        ensures
            r == level_tone(self),
    {
        match self {
            Level::Trace => Tone::Magenta,
            Level::Debug => Tone::Blue,
            Level::Info => Tone::Green,
            Level::Warn => Tone::Yellow,
            Level::Error => Tone::Red,
        }
    }
}


/// One span of an event's scope: its name and its fields, already rendered.
pub struct SpanText {
    pub name: String,
    pub fields: String,
}

/// A span's piece of a line: its name, its fields in braces unless there are
/// none, and a separator.
pub open spec fn span_segment(name: Seq<char>, fields: Seq<char>) -> Seq<char> {
    if fields.len() == 0 {
        name + seq![':', ' ']
    } else {
        name + seq!['{'] + fields + seq!['}'] + seq![':', ' ']
    }
}

/// The segments of a scope, from the root span to the innermost one.
pub open spec fn spans_text(spans: Seq<SpanText>) -> Seq<char>
    decreases spans.len(),
{
    if spans.len() == 0 {
        Seq::empty()
    } else {
        spans_text(spans.drop_last()) + span_segment(
            spans.last().name@,
            spans.last().fields@,
        )
    }
}

/// The source location tag `[file:line]`.
pub open spec fn tag_text(file: Seq<char>, line: nat) -> Seq<char> {
    seq!['['] + file + seq![':'] + decimal(line) + seq![']']
}

pub open spec fn opt_str(s: Option<&str>) -> Seq<char> {
    match s {
        Some(t) => t@,
        None => Seq::empty(),
    }
}

pub open spec fn opt_line(n: Option<u32>) -> nat {
    match n {
        Some(v) => v as nat,
        None => 0,
    }
}

/// Everything of a line up to the span segments: timestamp, level and tag,
/// each in its tone, then a separator.
pub open spec fn head_text(
    timestamp: Seq<char>,
    level: Level,
    file: Seq<char>,
    line: nat,
    styled: bool,
) -> Seq<char> {
    painted(timestamp, Tone::Dim, styled) + seq![' '] + painted(
        level_name(level),
        level_tone(level),
        styled,
    ) + seq![' '] + painted(tag_text(file, line), Tone::Cyan, styled) + seq![':', ' ']
}

/// A whole rendered line, ending in a newline.
pub open spec fn line_text(
    timestamp: Seq<char>,
    level: Level,
    file: Seq<char>,
    line: nat,
    spans: Seq<SpanText>,
    fields: Seq<char>,
    styled: bool,
) -> Seq<char> {
    head_text(timestamp, level, file, line, styled) + spans_text(spans) + fields + seq!['\n']
}

/// Relies on chrono's `Local::now` and `DateTime::format_with_items` with the
/// RFC 2822 item: the current local time in that form, or `None` where the year
/// cannot be written in it; nothing is known of the value.
#[verifier::external_body]
fn now_rfc2822() -> (r: Option<String>) {
    let items = [chrono::format::Item::Fixed(chrono::format::Fixed::RFC2822)];
    let mut text = String::new();
    match write!(text, "{}", chrono::Local::now().format_with_items(items.iter())) {
        Ok(()) => Some(text),
        Err(_) => None,
    }
}

/// Renders events as `<time> <LEVEL> [file:line]: <spans><fields>`, each line
/// carrying the source location of the call that emitted the event.
pub struct SourceFormatter;

impl SourceFormatter {
    /// The tag `[file:line]`; a missing file is empty and a missing line is 0.
    pub fn render_tag(&self, file: Option<&str>, line: Option<u32>) -> (r: String)
        ensures
            r@ == tag_text(opt_str(file), opt_line(line)),
    {
        proof {
            reveal_strlit("[");
            reveal_strlit(":");
            reveal_strlit("]");
        }
        let mut r = "[".to_string();
        match file {
            Some(f) => r.append(f),
            None => {},
        }
        r.append(":");
        let n = match line {
            Some(v) => v,
            None => 0,
        };
        let digits = decimal_text(n);
        r.append(digits.as_str());
        r.append("]");
        r
    }

    /// The segments of the spans, root first; empty when there are none.
    pub fn render_spans(&self, spans: &Vec<SpanText>) -> (r: String)
        ensures
            r@ == spans_text(spans@),
    {
        let mut r = String::new();
        let mut i: usize = 0;
        while i < spans.len()
            invariant
                i <= spans@.len(),
                r@ == spans_text(spans@.subrange(0, i as int)),
            decreases spans@.len() - i,
        {
            proof {
                reveal_strlit("{");
                reveal_strlit("}");
                reveal_strlit(": ");
            }
            let span = &spans[i];
            let ghost before = r@;
            r.append(span.name.as_str());
            if span.fields.as_str().unicode_len() != 0 {
                r.append("{");
                r.append(span.fields.as_str());
                r.append("}");
            }
            r.append(": ");
            proof {
                let next = spans@.subrange(0, i + 1);
                assert(next.drop_last() =~= spans@.subrange(0, i as int));
                assert(next.last() == spans@[i as int]);
                assert(r@ =~= before + span_segment(span.name@, span.fields@));
                assert(spans_text(next) == spans_text(next.drop_last()) + span_segment(
                    next.last().name@,
                    next.last().fields@,
                ));
            }
            i = i + 1;
        }
        proof {
            assert(spans@.subrange(0, spans@.len() as int) =~= spans@);
        }
        r
    }

    /// Timestamp, level and tag, each in its tone, followed by `": "`.
    pub fn render_head(
        &self,
        timestamp: &str,
        level: Level,
        file: Option<&str>,
        line: Option<u32>,
        styled: bool,
    ) -> (r: String)
        ensures
            r@ == head_text(timestamp@, level, opt_str(file), opt_line(line), styled),
    {
        proof {
            reveal_strlit(" ");
            reveal_strlit(": ");
        }
        let tag = self.render_tag(file, line);
        let mut r = paint(timestamp, Tone::Dim, styled);
        r.append(" ");
        let lv = paint(level.name(), level.tone(), styled);
        r.append(lv.as_str());
        r.append(" ");
        let tg = paint(tag.as_str(), Tone::Cyan, styled);
        r.append(tg.as_str());
        r.append(": ");
        r
    }

    /// One whole line for an event at the given time: head, spans, the event's
    /// own rendered fields and a newline.
    pub fn render_line(
        &self,
        timestamp: &str,
        level: Level,
        file: Option<&str>,
        line: Option<u32>,
        spans: &Vec<SpanText>,
        fields: &str,
        styled: bool,
    ) -> (r: String)
        ensures
            r@ == line_text(timestamp@, level, opt_str(file), opt_line(line), spans@, fields@, styled),
    {
        proof {
            reveal_strlit("\n");
        }
        let mut r = self.render_head(timestamp, level, file, line, styled);
        let sp = self.render_spans(spans);
        r.append(sp.as_str());
        r.append(fields);
        r.append("\n");
        r
    }

    /// One whole line for an event, stamped with the current local time in
    /// RFC 2822 form; `None` where the clock reads a date that form cannot hold
    /// (a year below 0 or above 9999).
    pub fn format_event(
        &self,
        level: Level,
        file: Option<&str>,
        line: Option<u32>,
        spans: &Vec<SpanText>,
        fields: &str,
        styled: bool,
    ) -> (r: Option<String>)
        ensures
            r matches Some(text) ==> exists|t: Seq<char>|
                text@ == line_text(t, level, opt_str(file), opt_line(line), spans@, fields@, styled),
    {
        match now_rfc2822() {
            Some(now) => Some(self.render_line(now.as_str(), level, file, line, spans, fields, styled)),
            None => None,
        }
    }
}

} // verus!
