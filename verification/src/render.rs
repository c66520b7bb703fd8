//! How an error is shown on a terminal: a header with its kind and message,
//! the source line it points at with a caret underline, its hint, and a
//! closing line that says where to report bugs. Colours come from the
//! `colored` crate, which leaves text plain when colours are off.

use crate::display::{value_debug, value_debug_text};
use crate::errortype::{CPSError, ErrorType};
use crate::host::Host;
use crate::text::{lines_of, nat_text, push_char, split_lines, usize_to_string};
use colored::Colorize;
use vstd::prelude::*;

verus! {

/// What `colored` writes for `text` in bright red and bold, when colours are on.
pub uninterp spec fn bright_red_bold_text(text: Seq<char>) -> Seq<char>;

/// What `colored` writes for `text` in bright red, when colours are on.
pub uninterp spec fn bright_red_text(text: Seq<char>) -> Seq<char>;

/// What `colored` writes for `text` in bright yellow and bold, when colours are on.
pub uninterp spec fn bright_yellow_bold_text(text: Seq<char>) -> Seq<char>;

/// What `colored` writes for `text` in bright blue and underlined, when colours are on.
pub uninterp spec fn bright_blue_underline_text(text: Seq<char>) -> Seq<char>;

/// What `colored` writes for `text` dimmed, when colours are on.
pub uninterp spec fn dimmed_text(text: Seq<char>) -> Seq<char>;

/// The text holds no escape character, so no reset sequence `ESC [ 0 m`.
pub open spec fn no_escape(s: Seq<char>) -> bool {
    forall|i: int| 0 <= i < s.len() ==> s[i] != '\x1B'
}

/// `text` between a style sequence and the reset sequence.
pub open spec fn in_style(style: Seq<char>, text: Seq<char>) -> Seq<char> {
    seq!['\x1B', '['] + style + seq!['m'] + text + seq!['\x1B', '[', '0', 'm']
}

/// `text.bright_red().bold()` of `colored`, written out (its `Display`).
/// With colours off it is the text itself; with colours on it is the text
/// in the style `1;91` followed by a reset, where a reset inside the text is
/// followed by the style again (`bright_red_bold_text`). This holds while
/// the colour setting of `colored` does not change during the call.
#[verifier::external_body]
fn paint_bright_red_bold(text: &str) -> (r: String)
    ensures
        r@ == text@ || r@ == bright_red_bold_text(text@),
        no_escape(text@) ==> (r@ == text@ || r@ == in_style(seq!['1', ';', '9', '1'], text@)),
{
    text.bright_red().bold().to_string()
}

/// `text.bright_red()` of `colored`, written out: the text itself with
/// colours off, the text in the style `91` with colours on.
#[verifier::external_body]
fn paint_bright_red(text: &str) -> (r: String)
    ensures
        r@ == text@ || r@ == bright_red_text(text@),
        no_escape(text@) ==> (r@ == text@ || r@ == in_style(seq!['9', '1'], text@)),
{
    text.bright_red().to_string()
}

/// `text.bright_yellow().bold()` of `colored`, written out: the text itself
/// with colours off, the text in the style `1;93` with colours on.
#[verifier::external_body]
fn paint_bright_yellow_bold(text: &str) -> (r: String)
    ensures
        r@ == text@ || r@ == bright_yellow_bold_text(text@),
        no_escape(text@) ==> (r@ == text@ || r@ == in_style(seq!['1', ';', '9', '3'], text@)),
{
    text.bright_yellow().bold().to_string()
}

/// `text.bright_blue().underline()` of `colored`, written out: the text
/// itself with colours off, the text in the style `4;94` with colours on.
#[verifier::external_body]
fn paint_bright_blue_underline(text: &str) -> (r: String)
    ensures
        r@ == text@ || r@ == bright_blue_underline_text(text@),
        no_escape(text@) ==> (r@ == text@ || r@ == in_style(seq!['4', ';', '9', '4'], text@)),
{
    text.bright_blue().underline().to_string()
}

/// `text.dimmed()` of `colored`, written out: the text itself with colours
/// off, the text in the style `2` with colours on.
#[verifier::external_body]
fn paint_dimmed(text: &str) -> (r: String)
    ensures
        r@ == text@ || r@ == dimmed_text(text@),
        no_escape(text@) ==> (r@ == text@ || r@ == in_style(seq!['2'], text@)),
{
    text.dimmed().to_string()
}

/// The painted pieces of a shown error.
pub struct Paint {
    /// "ERROR", bright red and bold.
    pub error_label: String,
    /// The kind of the error followed by " Error", bright red.
    pub kind_label: String,
    /// The caret underline, bright red and bold, when the source line is shown.
    pub carets: Option<String>,
    /// "HINT", bright yellow and bold.
    pub hint_label: String,
    /// The closing line, dimmed, with the address in bright blue and underlined.
    pub trailer: String,
}

/// The model of the painted pieces.
pub struct PaintView {
    pub error_label: Seq<char>,
    pub kind_label: Seq<char>,
    pub carets: Option<Seq<char>>,
    pub hint_label: Seq<char>,
    pub trailer: Seq<char>,
}

impl View for Paint {
    type V = PaintView;

    open spec fn view(&self) -> PaintView {
        PaintView {
            error_label: self.error_label@,
            kind_label: self.kind_label@,
            carets: match self.carets {
                Some(c) => Some(c@),
                None => None,
            },
            hint_label: self.hint_label@,
            trailer: self.trailer@,
        }
    }
}

/// How the kind of an error is written (`{:?}`), where it does not rest on
/// the host: the name of the kind, and for a RETURN the value it carries.
pub open spec fn kind_text(t: ErrorType) -> Option<Seq<char>> {
    match t {
        ErrorType::Lexical => Some("Lexical"@),
        ErrorType::Syntax => Some("Syntax"@),
        ErrorType::Runtime => Some("Runtime"@),
        ErrorType::Return(v) => match value_debug(v@) {
            Some(d) => Some("Return("@ + d + ")"@),
            None => None,
        },
        ErrorType::StepOutput(_) => Some("StepOutput"@),
        ErrorType::StepNeedsInput(_) => Some("StepNeedsInput"@),
    }
}

/// The address where bugs are reported.
pub open spec fn report_address() -> Seq<char> {
    "https://github.com/faisalfakih/cambridge-psudocode-inter/issues"@
}

/// The text before the address on the closing line.
pub open spec fn report_prompt() -> Seq<char> {
    "Think this is a bug in the interpreter? Report it: "@
}

/// `n` spaces.
pub open spec fn spaces(n: nat) -> Seq<char> {
    Seq::new(n, |i: int| ' ')
}

/// `n` carets.
pub open spec fn carets(n: nat) -> Seq<char> {
    Seq::new(n, |i: int| '^')
}

/// The source line that an error points at, when it has a source with that
/// line (lines are numbered from 1).
pub open spec fn pointed_line(e: CPSError) -> Option<Seq<char>> {
    match e.source {
        Some(s) => {
            let ls = lines_of(s@);
            if 0 < e.line && e.line <= ls.len() {
                Some(ls[e.line - 1])
            } else {
                None
            }
        },
        None => None,
    }
}

/// The length of the underline below a source line: the line's length in
/// bytes less the column before the error, in wrapping `usize` arithmetic,
/// and at most the line's length.
pub open spec fn underline_len(line: Seq<char>, column: usize) -> usize {
    let n = vstd::utf8::encode_utf8(line).len() as usize;
    let rem = vstd::wrapping::usize_specs::wrapping_sub(n, vstd::wrapping::usize_specs::wrapping_sub(column, 1));
    if rem < n {
        rem
    } else {
        n
    }
}

/// The pieces are painted as `colored` paints them: each is its plain text
/// or that text in its style.
pub open spec fn painted(e: CPSError, p: PaintView) -> bool {
    &&& p.error_label == "ERROR"@ || p.error_label == bright_red_bold_text("ERROR"@)
    &&& kind_text(e.error_type) matches Some(k) ==> (p.kind_label == k + " Error"@ || p.kind_label == bright_red_text(
        k + " Error"@,
    ))
    &&& match pointed_line(e) {
        Some(l) => p.carets matches Some(c) && (c == carets(underline_len(l, e.column) as nat) || c
            == bright_red_bold_text(carets(underline_len(l, e.column) as nat))),
        None => p.carets is None,
    }
    &&& p.hint_label == "HINT"@ || p.hint_label == bright_yellow_bold_text("HINT"@)
    &&& exists|a: Seq<char>| #[trigger] closing_line(p.trailer, a)
}

/// `t` is the closing line painted with the address painted as `a`.
pub open spec fn closing_line(t: Seq<char>, a: Seq<char>) -> bool {
    &&& a == report_address() || a == bright_blue_underline_text(report_address())
    &&& t == report_prompt() + a || t == dimmed_text(report_prompt() + a)
}

/// The text of a shown error, from its painted pieces: the header line,
/// the source line and its underline (when the error points into its
/// source), the hint line (when it has a hint), an empty line, and the
/// closing line.
pub open spec fn layout(e: CPSError, p: PaintView) -> Seq<char> {
    let header = if e.line == 0 && e.column == 0 {
        p.error_label + ": "@ + p.kind_label + ": "@ + e.message@ + "\n"@
    } else {
        p.error_label + ": "@ + p.kind_label + " at line "@ + nat_text(e.line as nat) + ", column "@ + nat_text(
            e.column as nat,
        ) + ": "@ + e.message@ + "\n"@
    };
    let source = match (pointed_line(e), p.carets) {
        (Some(l), Some(c)) => l + "\n"@ + spaces((e.column - 1) as nat) + c + "\n"@,
        _ => Seq::empty(),
    };
    let hint = match e.hint {
        Some(h) => p.hint_label + ": "@ + h@ + "\n"@,
        None => Seq::empty(),
    };
    header + source + hint + "\n"@ + p.trailer
}

fn push_str(s: &mut String, t: &str)
    ensures
        final(s)@ == old(s)@ + t@,
{
    s.append(t);
}

fn repeated(c: char, n: usize) -> (r: String)
    ensures
        r@ == Seq::new(n as nat, |i: int| c),
{
    let mut s = String::new();
    let mut i: usize = 0;
    while i < n
        invariant
            i <= n,
            s@ == Seq::new(i as nat, |j: int| c),
        decreases n - i,
    {
        push_char(&mut s, c);
        i = i + 1;
        assert(s@ =~= Seq::new(i as nat, |j: int| c));
    }
    s
}

impl ErrorType {
    /// The name of the kind (`Display`).
    pub fn name(&self) -> (r: &'static str)
        ensures
            r@ == match self {
                ErrorType::Lexical => "Lexical"@,
                ErrorType::Syntax => "Syntax"@,
                ErrorType::Return(_) => "Return"@,
                ErrorType::Runtime => "Runtime"@,
                ErrorType::StepOutput(_) => "StepOutput"@,
                ErrorType::StepNeedsInput(_) => "StepNeedsInput"@,
            },
    {
        match self {
            ErrorType::Lexical => "Lexical",
            ErrorType::Syntax => "Syntax",
            ErrorType::Return(_) => "Return",
            ErrorType::Runtime => "Runtime",
            ErrorType::StepOutput(_) => "StepOutput",
            ErrorType::StepNeedsInput(_) => "StepNeedsInput",
        }
    }

    /// How the kind is written in an error's header (`{:?}`).
    pub fn debug_text<H: Host>(&self, host: &H) -> (r: String)
        ensures
            kind_text(*self) matches Some(k) ==> r@ == k,
    {
        match self {
            ErrorType::Return(v) => {
                let mut s = String::from_str("Return(");
                push_str(&mut s, value_debug_text(v, false, host).as_str());
                push_str(&mut s, ")");
                s
            },
            _ => String::from_str(self.name()),
        }
    }
}

impl CPSError {
    /// The source line that the error points at and the length of its
    /// underline, when its source has that line.
    pub fn pointed(&self) -> (r: Option<(String, usize)>)
        ensures
            match (r, pointed_line(*self)) {
                (Some((l, n)), Some(m)) => l@ == m && n == underline_len(m, self.column),
                (None, None) => true,
                _ => false,
            },
    {
        match &self.source {
            Some(source) => {
                let lines = split_lines(source.as_str());
                if 0 < self.line && self.line <= lines.len() {
                    let l = lines[self.line - 1].clone();
                    let n = l.as_str().len();
                    let rem = n.wrapping_sub(self.column.wrapping_sub(1));
                    let len = if rem < n {
                        rem
                    } else {
                        n
                    };
                    proof {
                        assert(lines@.map_values(|x: String| x@)[self.line - 1] == lines@[self.line - 1]@);
                        assert(l@ == lines_of(source@)[self.line - 1]);
                    }
                    Some((l, len))
                } else {
                    None
                }
            },
            None => None,
        }
    }

    /// The error as it is shown, from its painted pieces.
    pub fn layout_text(&self, paint: &Paint) -> (r: String)
        requires
            pointed_line(*self) is Some ==> self.column >= 1,
            (pointed_line(*self) is Some) == (paint.carets is Some),
        ensures
            r@ == layout(*self, paint@),
    {
        let mut s = String::new();
        push_str(&mut s, paint.error_label.as_str());
        push_str(&mut s, ": ");
        push_str(&mut s, paint.kind_label.as_str());
        if self.line == 0 && self.column == 0 {
            push_str(&mut s, ": ");
        } else {
            push_str(&mut s, " at line ");
            push_str(&mut s, usize_to_string(self.line).as_str());
            push_str(&mut s, ", column ");
            push_str(&mut s, usize_to_string(self.column).as_str());
            push_str(&mut s, ": ");
        }
        push_str(&mut s, self.message.as_str());
        push_str(&mut s, "\n");
        let ghost header = s@;
        match (self.pointed(), &paint.carets) {
            (Some((l, _)), Some(c)) => {
                push_str(&mut s, l.as_str());
                push_str(&mut s, "\n");
                push_str(&mut s, repeated(' ', self.column - 1).as_str());
                push_str(&mut s, c.as_str());
                push_str(&mut s, "\n");
            },
            _ => {},
        }
        let ghost with_source = s@;
        match &self.hint {
            Some(h) => {
                push_str(&mut s, paint.hint_label.as_str());
                push_str(&mut s, ": ");
                push_str(&mut s, h.as_str());
                push_str(&mut s, "\n");
            },
            None => {},
        }
        push_str(&mut s, "\n");
        push_str(&mut s, paint.trailer.as_str());
        proof {
            assert(s@ =~= layout(*self, paint@));
        }
        s
    }

    /// The error as the terminal shows it (`Display`): see `layout`, with
    /// the pieces painted by `colored`.
    pub fn render<H: Host>(&self, host: &H) -> (r: String)
        requires
            pointed_line(*self) is Some ==> self.column >= 1,
        ensures
            exists|p: PaintView| painted(*self, p) && #[trigger] layout(*self, p) == r@,
    {
        let kind = self.error_type.debug_text(host);
        let mut kind_label = kind;
        push_str(&mut kind_label, " Error");
        let underline = match self.pointed() {
            Some((_, n)) => Some(paint_bright_red_bold(repeated('^', n).as_str())),
            None => None,
        };
        let address = paint_bright_blue_underline("https://github.com/faisalfakih/cambridge-psudocode-inter/issues");
        let mut closing = String::from_str("Think this is a bug in the interpreter? Report it: ");
        push_str(&mut closing, address.as_str());
        let paint = Paint {
            error_label: paint_bright_red_bold("ERROR"),
            kind_label: paint_bright_red(kind_label.as_str()),
            carets: underline,
            hint_label: paint_bright_yellow_bold("HINT"),
            trailer: paint_dimmed(closing.as_str()),
        };
        let r = self.layout_text(&paint);
        proof {
            reveal_strlit("ERROR");
            reveal_strlit("HINT");
            reveal_strlit("https://github.com/faisalfakih/cambridge-psudocode-inter/issues");
            reveal_strlit("Think this is a bug in the interpreter? Report it: ");
            let pv = paint@;
            assert(pv.error_label == "ERROR"@ || pv.error_label == bright_red_bold_text("ERROR"@));
            assert(kind_text(self.error_type) matches Some(k) ==> (pv.kind_label == k + " Error"@ || pv.kind_label
                == bright_red_text(k + " Error"@)));
            assert(match pointed_line(*self) {
                Some(l) => pv.carets matches Some(c) && (c == carets(underline_len(l, self.column) as nat) || c
                    == bright_red_bold_text(carets(underline_len(l, self.column) as nat))),
                None => pv.carets is None,
            });
            assert(pv.hint_label == "HINT"@ || pv.hint_label == bright_yellow_bold_text("HINT"@));
            assert(address@ == report_address() || address@ == bright_blue_underline_text(report_address()));
            assert(closing@ == report_prompt() + address@);
            assert(closing_line(pv.trailer, address@));
            assert(painted(*self, paint@));
        }
        r
    }
}

} // verus!
