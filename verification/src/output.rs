//! The formatter of the output stream: a prefix with the process name in its
//! own colour, then the line or the control message.

use vstd::prelude::*;
use vstd::string::StringSliceAdditionalSpecFns;
use crate::text::{chars_of, string_of};

verus! {

/// What the supervisor reports about a process.
#[derive(Debug, Clone, Copy, PartialEq, Eq, Structural)]
pub enum ControlEvent {
    Starting,
    Ready,
    Finished,
    Stopped,
    Crashed,
    Restarting,
    TimedOut,
    Exec,
}

/// The stream of a child that a line came from.
#[derive(Debug, Clone, Copy, PartialEq, Eq, Structural)]
pub enum OutputSource {
    Stdout,
    Stderr,
}

/// One line of output of a child.
#[derive(Debug, Clone, PartialEq, Eq)]
pub struct OutputLine {
    pub process: String,
    pub source: OutputSource,
    pub content: String,
}

/// A foreground colour: one of four named colours, or a cell of the palette
/// of 256 colours.
#[derive(Debug, Clone, Copy, PartialEq, Eq, Structural)]
pub enum Tint {
    Cyan,
    Green,
    Red,
    Yellow,
    Fixed(u8),
}

impl ControlEvent {
    /// The symbol that marks the event.
    pub open spec fn mark(self) -> Seq<char> {
        match self {
            ControlEvent::Starting => "▶"@,
            ControlEvent::Ready => "●"@,
            ControlEvent::Finished => "✔"@,
            ControlEvent::Stopped => "☠"@,
            ControlEvent::Crashed => "✘"@,
            ControlEvent::Restarting => "↻"@,
            ControlEvent::TimedOut => "⏱"@,
            ControlEvent::Exec => "$"@,
        }
    }

    /// The symbol that marks the event.
    pub fn symbol(&self) -> (r: &'static str)
        ensures
            r@ == self.mark(),
    {
        match self {
            ControlEvent::Starting => "▶",
            ControlEvent::Ready => "●",
            ControlEvent::Finished => "✔",
            ControlEvent::Stopped => "☠",
            ControlEvent::Crashed => "✘",
            ControlEvent::Restarting => "↻",
            ControlEvent::TimedOut => "⏱",
            ControlEvent::Exec => "$",
        }
    }

    /// The colour of the event's message: green for what went well, red for
    /// what went wrong, yellow for a restart, cyan for a start.
    pub open spec fn tint(self) -> Tint {
        match self {
            ControlEvent::Starting => Tint::Cyan,
            ControlEvent::Ready => Tint::Green,
            ControlEvent::Finished => Tint::Green,
            ControlEvent::Stopped => Tint::Red,
            ControlEvent::Crashed => Tint::Red,
            ControlEvent::Restarting => Tint::Yellow,
            ControlEvent::TimedOut => Tint::Red,
            ControlEvent::Exec => Tint::Cyan,
        }
    }

    /// The colour of the event's message.
    pub fn color(&self) -> (r: Tint)
        ensures
            r == self.tint(),
    {
        match self {
            ControlEvent::Starting => Tint::Cyan,
            ControlEvent::Ready => Tint::Green,
            ControlEvent::Finished => Tint::Green,
            ControlEvent::Stopped => Tint::Red,
            ControlEvent::Crashed => Tint::Red,
            ControlEvent::Restarting => Tint::Yellow,
            ControlEvent::TimedOut => Tint::Red,
            ControlEvent::Exec => Tint::Cyan,
        }
    }
}

/// Whether the cell `c` of the palette serves as the colour of a process: a
/// cell of the colour cube that is neither very dark nor very light, not
/// reddish, and no dark blue or purple.
pub open spec fn usable(c: int) -> bool {
    let idx = c - 16;
    let r = idx / 36;
    let g = (idx % 36) / 6;
    let b = idx % 6;
    &&& 17 <= c <= 231
    &&& 4 <= r + g + b <= 11
    &&& !(r >= 3 && r > g && r > b)
    &&& !(b >= 3 && g <= 1 && r <= 1)
}

/// The usable cells below `n`, ascending.
pub open spec fn usable_below(n: int) -> Seq<u8>
    decreases n,
{
    if n <= 17 || n > 232 {
        Seq::empty()
    } else if usable(n - 1) {
        usable_below(n - 1).push((n - 1) as u8)
    } else {
        usable_below(n - 1)
    }
}

/// The colours that processes are given.
pub open spec fn palette() -> Seq<u8> {
    usable_below(232)
}

pub fn is_usable(c: u8) -> (r: bool)
    ensures
        r == usable(c as int),
{
    if c < 17 || c > 231 {
        return false;
    }
    let idx: u8 = c - 16;
    let r: u8 = idx / 36;
    let g: u8 = (idx % 36) / 6;
    let b: u8 = idx % 6;
    let sum: u8 = r + g + b;
    if sum < 4 || sum > 11 {
        return false;
    }
    if r >= 3 && r > g && r > b {
        return false;
    }
    if b >= 3 && g <= 1 && r <= 1 {
        return false;
    }
    true
}

/// Builds the palette.
pub fn usable_colors() -> (r: Vec<u8>)
    ensures
        r@ == palette(),
        r@.len() > 0,
{
    let mut out: Vec<u8> = Vec::new();
    let mut c: u8 = 17;
    assert(out@ =~= usable_below(17));
    while c < 232
        invariant
            17 <= c <= 232,
            out@ == usable_below(c as int),
            c > 40 ==> out@.len() > 0,
        decreases 232 - c,
    {
        if is_usable(c) {
            out.push(c);
        }
        if c == 40 {
            assert(usable(40));
        }
        c += 1;
    }
    out
}

/// The colour for the hash `hash` of a name: the cell of the palette at the
/// hash modulo the palette's length.
pub open spec fn color_of_hash(hash: u64) -> u8 {
    palette()[((hash as usize) as int) % (palette().len() as int)]
}

pub fn color_for_hash(hash: u64) -> (r: u8)
    ensures
        r == color_of_hash(hash),
{
    let colors = usable_colors();
    let idx: usize = (hash as usize) % colors.len();
    colors[idx]
}

/// What `DefaultHasher` makes of a string: the state after `str::hash`, as
/// `finish` gives it.
pub uninterp spec fn name_hash(name: Seq<char>) -> u64;

/// `Hash::hash` of a string into `DefaultHasher::new()`, then
/// `Hasher::finish`: a hash that depends on the string alone.
#[verifier::external_body]
fn hash_of(name: &str) -> (r: u64)
    ensures
        r == name_hash(name@),
{
    let mut hasher = std::collections::hash_map::DefaultHasher::new();
    std::hash::Hash::hash(name, &mut hasher);
    std::hash::Hasher::finish(&hasher)
}

/// The colour of the process called `name`: the same for the same name.
pub fn color_for_name(name: &str) -> (r: u8)
    ensures
        r == color_of_hash(name_hash(name@)),
{
    color_for_hash(hash_of(name))
}

/// What a text looks like when it is painted in a colour: the text between
/// the escape sequence that sets the colour and the one that resets it.
pub uninterp spec fn painted(text: Seq<char>, tint: Tint) -> Seq<char>;

/// What a text looks like when it is set dim and italic.
pub uninterp spec fn dimmed(text: Seq<char>) -> Seq<char>;

/// Whether `r` is `text` as the terminal library gives it back for the
/// colour `tint`: painted, or, where painting is switched off, unchanged.
pub open spec fn is_painted(r: Seq<char>, text: Seq<char>, tint: Tint) -> bool {
    r == text || r == painted(text, tint)
}

/// Whether `r` is `text` as the terminal library gives it back for dim and
/// italic: styled, or, where painting is switched off, unchanged.
pub open spec fn is_dimmed(r: Seq<char>, text: Seq<char>) -> bool {
    r == text || r == dimmed(text)
}

/// `yansi::Paint::paint` with a foreground colour, written out through
/// `Display`: the text alone where painting is disabled for the process,
/// else the text between the colour's escape sequences.
#[verifier::external_body]
fn paint(text: &str, tint: Tint) -> (r: String)
    ensures
        r@ == text@ || r@ == painted(text@, tint),
{
    let color = match tint {
        Tint::Cyan => yansi::Color::Cyan,
        Tint::Green => yansi::Color::Green,
        Tint::Red => yansi::Color::Red,
        Tint::Yellow => yansi::Color::Yellow,
        Tint::Fixed(n) => yansi::Color::Fixed(n),
    };
    format!("{}", yansi::Paint::paint(text, color))
}

/// `yansi::Paint::dim` and `italic`, written out through `Display`: the text
/// alone where painting is disabled for the process, else the text between
/// the escape sequences of the two attributes.
#[verifier::external_body]
fn dim_italic(text: &str) -> (r: String)
    ensures
        r@ == text@ || r@ == dimmed(text@),
{
    format!("{}", yansi::Paint::dim(text).italic())
}

/// `text`, with spaces before it where it has fewer than `width` characters.
pub open spec fn padded(text: Seq<char>, width: int) -> Seq<char> {
    if text.len() >= width {
        text
    } else {
        Seq::new((width - text.len()) as nat, |i: int| ' ') + text
    }
}

/// Pads `text` on the left to `width` characters.
pub fn pad_left(text: &Vec<char>, width: usize) -> (r: Vec<char>)
    ensures
        r@ == padded(text@, width as int),
{
    let mut out: Vec<char> = Vec::new();
    if text.len() < width {
        let n = width - text.len();
        let mut i: usize = 0;
        while i < n
            invariant
                i <= n,
                out@ == Seq::new(i as nat, |k: int| ' '),
            decreases n - i,
        {
            out.push(' ');
            assert(out@ =~= Seq::new((i + 1) as nat, |k: int| ' '));
            i += 1;
        }
    } else {
        assert(out@ =~= Seq::empty());
    }
    crate::text::append_chars(&mut out, text);
    out
}

/// The greatest length in bytes among the first `n` names.
pub open spec fn longest(names: Seq<&str>, n: int) -> usize
    decreases n,
{
    if n <= 0 || n > names.len() {
        0
    } else if names[n - 1].spec_bytes().len() as usize > longest(names, n - 1) {
        names[n - 1].spec_bytes().len() as usize
    } else {
        longest(names, n - 1)
    }
}

/// Formats lines and control messages for one manifest.
#[derive(Debug, Clone, Copy, PartialEq, Eq, Structural)]
pub struct OutputFormatter {
    pub max_name_len: usize,
    pub show_timestamp: bool,
}

impl OutputFormatter {
    /// A formatter whose prefix is as wide as the longest of the names.
    pub fn new(process_names: &[&str], show_timestamp: bool) -> (r: OutputFormatter)
        ensures
            r.max_name_len == longest(process_names@, process_names@.len() as int),
            r.show_timestamp == show_timestamp,
    {
        let mut max_name_len: usize = 0;
        let mut i: usize = 0;
        while i < process_names.len()
            invariant
                i <= process_names@.len(),
                max_name_len == longest(process_names@, i as int),
            decreases process_names@.len() - i,
        {
            let n = process_names[i].len();
            if n > max_name_len {
                max_name_len = n;
            }
            i += 1;
        }
        OutputFormatter { max_name_len, show_timestamp }
    }

    /// The prefix of an output line, before it is painted: the name, padded
    /// to the width of the longest name, a bar, and, with timestamps, the
    /// elapsed time and a second bar.
    pub open spec fn line_prefix(&self, process: Seq<char>, elapsed: Seq<char>) -> Seq<char> {
        if self.show_timestamp {
            padded(process, self.max_name_len as int) + " │ "@ + elapsed + " │"@
        } else {
            padded(process, self.max_name_len as int) + " │"@
        }
    }

    /// The prefix of a control message, before it is painted: the padded
    /// name, with timestamps a bar and the elapsed time, and the symbol of
    /// the event.
    pub open spec fn control_prefix(
        &self,
        process: Seq<char>,
        symbol: Seq<char>,
        elapsed: Seq<char>,
    ) -> Seq<char> {
        if self.show_timestamp {
            padded(process, self.max_name_len as int) + " │ "@ + elapsed + " "@ + symbol
        } else {
            padded(process, self.max_name_len as int) + " "@ + symbol
        }
    }

    fn plain_line_prefix(&self, process: &str, elapsed: &str) -> (r: Vec<char>)
        ensures
            r@ == self.line_prefix(process@, elapsed@),
    {
        let name = chars_of(process);
        let mut out = pad_left(&name, self.max_name_len);
        if self.show_timestamp {
            let bar = chars_of(" │ ");
            crate::text::append_chars(&mut out, &bar);
            let time = chars_of(elapsed);
            crate::text::append_chars(&mut out, &time);
        }
        let end = chars_of(" │");
        crate::text::append_chars(&mut out, &end);
        out
    }

    fn plain_control_prefix(&self, process: &str, symbol: &str, elapsed: &str) -> (r: Vec<char>)
        ensures
            r@ == self.control_prefix(process@, symbol@, elapsed@),
    {
        let name = chars_of(process);
        let mut out = pad_left(&name, self.max_name_len);
        if self.show_timestamp {
            let bar = chars_of(" │ ");
            crate::text::append_chars(&mut out, &bar);
            let time = chars_of(elapsed);
            crate::text::append_chars(&mut out, &time);
        }
        let space = chars_of(" ");
        crate::text::append_chars(&mut out, &space);
        let mark = chars_of(symbol);
        crate::text::append_chars(&mut out, &mark);
        out
    }

    /// Formats a line of output. `elapsed` is the text of the timestamp
    /// column, read only where timestamps are shown.
    ///
    /// The result is the prefix in the colour of the process, a space, and
    /// the content: as it is for standard output, dim and italic for
    /// standard error.
    pub fn format(&self, line: &OutputLine, elapsed: &str) -> (r: String)
        ensures
            exists|p: Seq<char>, c: Seq<char>|
                is_painted(
                    p,
                    self.line_prefix(line.process@, elapsed@),
                    Tint::Fixed(color_of_hash(name_hash(line.process@))),
                ) && (match line.source {
                    OutputSource::Stdout => c == line.content@,
                    OutputSource::Stderr => is_dimmed(c, line.content@),
                }) && r@ == line_text(p, c),
    {
        let color = color_for_name(line.process.as_str());
        let prefix = string_of(&self.plain_line_prefix(line.process.as_str(), elapsed));
        let styled_prefix = paint(prefix.as_str(), Tint::Fixed(color));
        let content = match line.source {
            OutputSource::Stdout => line.content.clone(),
            OutputSource::Stderr => dim_italic(line.content.as_str()),
        };
        let r = join_line(styled_prefix.as_str(), content.as_str());
        assert(is_painted(
            styled_prefix@,
            self.line_prefix(line.process@, elapsed@),
            Tint::Fixed(color_of_hash(name_hash(line.process@))),
        ));
        assert(r@ == line_text(styled_prefix@, content@));
        r
    }
}

/// A prefix, a space and a text.
pub open spec fn line_text(prefix: Seq<char>, text: Seq<char>) -> Seq<char> {
    prefix.push(' ') + text
}

/// Joins a styled prefix and a styled text by a space.
pub fn join_line(prefix: &str, text: &str) -> (r: String)
    ensures
        r@ == line_text(prefix@, text@),
{
    let mut out = chars_of(prefix);
    out.push(' ');
    let tail = chars_of(text);
    crate::text::append_chars(&mut out, &tail);
    string_of(&out)
}

/// The line `s[i..j]` without the carriage return that a line feed at `j`
/// follows.
pub open spec fn line_between(s: Seq<char>, i: int, j: int) -> Seq<char> {
    if j < s.len() && i < j && s[j - 1] == '\r' {
        s.subrange(i, j - 1)
    } else {
        s.subrange(i, j)
    }
}

/// The lines of `s` from `i` on, with `acc` read so far. A line ends at a
/// line feed, or at a carriage return followed by one; what follows the last
/// line feed is a line only if it is not empty.
pub open spec fn lines_from(s: Seq<char>, i: int, acc: Seq<Seq<char>>) -> Seq<Seq<char>>
    decreases s.len() - i,
{
    let j = crate::parser::tokenizer::run_end(s, i, crate::parser::tokenizer::CharClass::NotLf);
    if 0 <= i <= j < s.len() {
        lines_from(s, j + 1, acc.push(line_between(s, i, j)))
    } else if 0 <= i < j <= s.len() {
        acc.push(s.subrange(i, j))
    } else {
        acc
    }
}

/// The lines of `s`.
pub open spec fn lines_of(s: Seq<char>) -> Seq<Seq<char>> {
    lines_from(s, 0, Seq::empty())
}

/// The lines in which a control message is shown: its lines where it holds a
/// line feed, else the message itself.
pub open spec fn message_lines(message: Seq<char>) -> Seq<Seq<char>> {
    if message.contains('\n') {
        lines_of(message)
    } else {
        seq![message]
    }
}

/// Splits a control message into the lines in which it is shown.
pub fn split_message(message: &Vec<char>) -> (r: Vec<Vec<char>>)
    ensures
        crate::parser::command::rows(r@) == message_lines(message@),
        r@.len() >= 1,
{
    let first = crate::parser::tokenizer::scan_run(
        message,
        0,
        crate::parser::tokenizer::CharClass::NotLf,
    );
    let mut lines: Vec<Vec<char>> = Vec::new();
    if first >= message.len() {
        assert(!message@.contains('\n')) by {
            if message@.contains('\n') {
                let k = choose|k: int| 0 <= k < message@.len() && message@[k] == '\n';
                assert(crate::parser::tokenizer::in_class(
                    crate::parser::tokenizer::CharClass::NotLf,
                    message@[k],
                ));
            }
        }
        let whole = crate::text::copy_range(message, 0, message.len());
        assert(whole@ =~= message@);
        lines.push(whole);
        assert(crate::parser::command::rows(lines@) =~= seq![message@]);
        return lines;
    }
    assert(message@[first as int] == '\n');
    assert(message@.contains('\n'));
    let mut pos: usize = 0;
    assert(crate::parser::command::rows(lines@) =~= Seq::empty());
    loop
        invariant
            pos <= message@.len(),
            lines_of(message@) == lines_from(
                message@,
                pos as int,
                crate::parser::command::rows(lines@),
            ),
            message@.contains('\n'),
            pos > 0 ==> lines@.len() >= 1,
            pos == 0 ==> message@.len() > 0 && crate::parser::tokenizer::run_end(
                message@,
                0,
                crate::parser::tokenizer::CharClass::NotLf,
            ) < message@.len(),
        decreases message@.len() - pos,
    {
        let j = crate::parser::tokenizer::scan_run(
            message,
            pos,
            crate::parser::tokenizer::CharClass::NotLf,
        );
        let ghost before = crate::parser::command::rows(lines@);
        if j < message.len() {
            let end = if pos < j && message[j - 1] == '\r' {
                j - 1
            } else {
                j
            };
            let line = crate::text::copy_range(message, pos, end);
            let ghost l = line@;
            lines.push(line);
            assert(crate::parser::command::rows(lines@) =~= before.push(l));
            pos = j + 1;
        } else {
            if pos < j {
                let line = crate::text::copy_range(message, pos, j);
                let ghost l = line@;
                lines.push(line);
                assert(crate::parser::command::rows(lines@) =~= before.push(l));
            }
            return lines;
        }
    }
}

/// The text of a control message in `n` lines: the painted prefix, a space
/// and the first painted line; then, for each further line, a line feed, the
/// painted continuation prefix, a space and the painted line.
pub open spec fn control_text(
    prefix: Seq<char>,
    lines: Seq<Seq<char>>,
    continuations: Seq<Seq<char>>,
    n: int,
) -> Seq<char>
    decreases n,
{
    if n <= 0 || n > lines.len() || n > continuations.len() {
        Seq::empty()
    } else if n == 1 {
        line_text(prefix, lines[0])
    } else {
        control_text(prefix, lines, continuations, n - 1).push('\n') + line_text(
            continuations[n - 1],
            lines[n - 1],
        )
    }
}

/// Puts the painted pieces of a control message together.
pub fn assemble_control(prefix: &str, lines: &Vec<String>, continuations: &Vec<String>) -> (r:
    String)
    requires
        lines@.len() == continuations@.len(),
    ensures
        r@ == control_text(
            prefix@,
            crate::parser::ast::names_view(lines@),
            crate::parser::ast::names_view(continuations@),
            lines@.len() as int,
        ),
{
    let ghost ls = crate::parser::ast::names_view(lines@);
    let ghost cs = crate::parser::ast::names_view(continuations@);
    let mut out: Vec<char> = Vec::new();
    let mut i: usize = 0;
    assert(out@ =~= Seq::empty());
    while i < lines.len()
        invariant
            i <= lines@.len(),
            lines@.len() == continuations@.len(),
            ls == crate::parser::ast::names_view(lines@),
            cs == crate::parser::ast::names_view(continuations@),
            out@ == control_text(prefix@, ls, cs, i as int),
        decreases lines@.len() - i,
    {
        let head = if i == 0 {
            chars_of(prefix)
        } else {
            out.push('\n');
            chars_of(continuations[i].as_str())
        };
        crate::text::append_chars(&mut out, &head);
        out.push(' ');
        let text = chars_of(lines[i].as_str());
        crate::text::append_chars(&mut out, &text);
        assert(ls[i as int] == text@);
        assert(out@ =~= control_text(prefix@, ls, cs, i + 1));
        i += 1;
    }
    string_of(&out)
}

impl OutputFormatter {
    /// The prefix of the second and later lines of a control message, before
    /// it is painted: spaces in place of the name, and an arrow in place of
    /// the symbol.
    pub open spec fn continuation_prefix(&self, elapsed: Seq<char>) -> Seq<char> {
        if self.show_timestamp {
            padded(Seq::empty(), self.max_name_len as int) + " │ "@ + elapsed + " ↳"@
        } else {
            padded(Seq::empty(), self.max_name_len as int) + " ↳"@
        }
    }

    /// Formats a control message. `elapsed` is the text of the timestamp
    /// column, read only where timestamps are shown.
    ///
    /// The first line is the prefix with the event's symbol, in the colour
    /// of the process, a space, and the first line of the message in the
    /// colour of the event; each further line of the message follows on a
    /// line of its own behind the continuation prefix.
    pub fn format_control(
        &self,
        process: &str,
        event: ControlEvent,
        message: &str,
        elapsed: &str,
    ) -> (r: String)
        ensures
            exists|p: Seq<char>, ls: Seq<Seq<char>>, cs: Seq<Seq<char>>|
                is_painted(
                    p,
                    self.control_prefix(process@, event.mark(), elapsed@),
                    Tint::Fixed(color_of_hash(name_hash(process@))),
                ) && ls.len() == message_lines(message@).len() && cs.len() == ls.len() && (forall|
                    i: int,
                |
                    0 <= i < ls.len() ==> is_painted(
                        #[trigger] ls[i],
                        message_lines(message@)[i],
                        event.tint(),
                    )) && (forall|i: int|
                    0 <= i < cs.len() ==> is_painted(
                        #[trigger] cs[i],
                        self.continuation_prefix(elapsed@),
                        Tint::Fixed(color_of_hash(name_hash(process@))),
                    )) && r@ == control_text(p, ls, cs, ls.len() as int),
    {
        let color = Tint::Fixed(color_for_name(process));
        let prefix = string_of(&self.plain_control_prefix(process, event.symbol(), elapsed));
        let styled_prefix = paint(prefix.as_str(), color);
        let none: Vec<char> = Vec::new();
        assert(none@ =~= Seq::empty());
        let mut plain = pad_left(&none, self.max_name_len);
        if self.show_timestamp {
            let bar = chars_of(" │ ");
            crate::text::append_chars(&mut plain, &bar);
            let time = chars_of(elapsed);
            crate::text::append_chars(&mut plain, &time);
        }
        let arrow = chars_of(" ↳");
        crate::text::append_chars(&mut plain, &arrow);
        let continuation = string_of(&plain);
        assert(continuation@ == self.continuation_prefix(elapsed@));
        let message_chars = chars_of(message);
        let lines = split_message(&message_chars);
        let ghost wanted = message_lines(message@);
        let mut styled: Vec<String> = Vec::new();
        let mut heads: Vec<String> = Vec::new();
        let mut i: usize = 0;
        while i < lines.len()
            invariant
                i <= lines@.len(),
                crate::parser::command::rows(lines@) == wanted,
                styled@.len() == i,
                heads@.len() == i,
                continuation@ == self.continuation_prefix(elapsed@),
                forall|k: int|
                    0 <= k < i ==> is_painted((#[trigger] styled@[k])@, wanted[k], event.tint()),
                forall|k: int|
                    0 <= k < i ==> is_painted(
                        (#[trigger] heads@[k])@,
                        self.continuation_prefix(elapsed@),
                        color,
                    ),
            decreases lines@.len() - i,
        {
            let text = string_of(&lines[i]);
            assert(wanted[i as int] == lines@[i as int]@);
            styled.push(paint(text.as_str(), event.color()));
            if i == 0 {
                heads.push(continuation.clone());
            } else {
                heads.push(paint(continuation.as_str(), color));
            }
            i += 1;
        }
        let r = assemble_control(styled_prefix.as_str(), &styled, &heads);
        proof {
            let ls = crate::parser::ast::names_view(styled@);
            let cs = crate::parser::ast::names_view(heads@);
            assert(ls.len() == wanted.len());
            assert forall|k: int| 0 <= k < ls.len() implies is_painted(
                #[trigger] ls[k],
                wanted[k],
                event.tint(),
            ) by {
                assert(ls[k] == styled@[k]@);
            }
            assert forall|k: int| 0 <= k < cs.len() implies is_painted(
                #[trigger] cs[k],
                self.continuation_prefix(elapsed@),
                color,
            ) by {
                assert(cs[k] == heads@[k]@);
            }
            assert(is_painted(
                styled_prefix@,
                self.control_prefix(process@, event.mark(), elapsed@),
                color,
            ));
            assert(r@ == control_text(styled_prefix@, ls, cs, ls.len() as int));
        }
        r
    }
}

} // verus!
