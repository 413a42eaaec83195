//! Styled text: what pcurl prints, as a sequence of spans that the terminal
//! front end colors.

use vstd::prelude::*;
use crate::text::push_str;

verus! {

/// The look of a span of text on a color terminal.
#[derive(Clone, Copy, PartialEq, Eq, Structural, Debug)]
pub enum Style {
    Plain,
    Dim,
    DimItalic,
    Cyan,
    CyanBold,
    White,
    WhiteBold,
    Green,
    GreenBold,
    Yellow,
    YellowBold,
    Magenta,
    Red,
    RedDim,
    RedBold,
    BrightRedBold,
    BlueBold,
    /// Black bold text on green: a 2xx status.
    BadgeSuccess,
    /// Black bold text on yellow: a 3xx status.
    BadgeRedirect,
    /// White bold text on red: a 4xx status.
    BadgeClientError,
    /// White bold text on bright red: a 5xx status.
    BadgeServerError,
    /// Black bold text on white: any other status.
    BadgeOther,
}

/// A piece of output text with its style. Line breaks are part of the text.
#[derive(Debug)]
pub struct Span {
    pub style: Style,
    pub text: String,
}

impl View for Span {
    type V = (Style, Seq<char>);

    open spec fn view(&self) -> (Style, Seq<char>) {
        (self.style, self.text@)
    }
}

/// Output as a sequence of styled texts.
pub type Out = Seq<(Style, Seq<char>)>;

/// The view of a vector of spans.
pub open spec fn spans(v: Seq<Span>) -> Out {
    v.map_values(|s: Span| s@)
}

/// One styled text.
pub open spec fn piece(st: Style, t: Seq<char>) -> Out {
    seq![(st, t)]
}

/// A line break.
pub open spec fn nl() -> Out {
    piece(Style::Plain, "\n"@)
}

/// Appends a span.
pub fn emit(out: &mut Vec<Span>, style: Style, text: String)
    ensures
        spans(final(out)@) == spans(old(out)@) + piece(style, text@),
{
    let ghost t = text@;
    out.push(Span { style, text });
    assert(spans(out@) =~= spans(old(out)@) + piece(style, t));
}

/// Appends a span holding a copy of the literal `lit`.
pub fn emit_str(out: &mut Vec<Span>, style: Style, lit: &str)
    ensures
        spans(final(out)@) == spans(old(out)@) + piece(style, lit@),
{
    emit(out, style, lit.to_owned());
}

/// Appends a line break.
pub fn emit_nl(out: &mut Vec<Span>)
    ensures
        spans(final(out)@) == spans(old(out)@) + nl(),
{
    emit_str(out, Style::Plain, "\n");
}

/// Appends a span holding the characters `v`.
pub fn emit_chars(out: &mut Vec<Span>, style: Style, v: &[char])
    ensures
        spans(final(out)@) == spans(old(out)@) + piece(style, v@),
{
    emit(out, style, crate::text::string_of(v));
}

/// The concatenation of the texts, styles dropped.
pub open spec fn plain_text(o: Out) -> Seq<char>
    decreases o.len(),
{
    if o.len() == 0 {
        Seq::empty()
    } else {
        plain_text(o.drop_last()) + o.last().1
    }
}

/// The text of the spans with styles dropped, as printed without colors.
pub fn to_plain(v: &Vec<Span>) -> (s: String)
    ensures
        s@ == plain_text(spans(v@)),
{
    let mut s = String::new();
    let mut i: usize = 0;
    while i < v.len()
        invariant
            i <= v@.len(),
            s@ == plain_text(spans(v@).take(i as int)),
        decreases v@.len() - i,
    {
        push_str(&mut s, v[i].text.as_str());
        i = i + 1;
        assert(spans(v@).take(i as int).drop_last() =~= spans(v@).take((i - 1) as int));
    }
    assert(spans(v@).take(v@.len() as int) =~= spans(v@));
    s
}

} // verus!
