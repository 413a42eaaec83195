//! The decisions taken while `curl -i` output streams in: which header
//! block is the final response, when the status and headers are shown, how
//! server-sent events are echoed, and what is shown at the end.

use vstd::prelude::*;
use crate::cli::OutputMode;
use crate::display::{
    append_spans, body_section_out, display_body_section, display_empty_body,
    display_sse_line, display_status_and_headers, empty_body_out, is_sse_block,
    is_sse_content_type, parse_status_code, sse_line_out, status_and_headers_out, status_code_of,
    strip_line_end,
};
use crate::render::{Out, Span, Style, emit_nl, emit_str, nl, piece, spans};
use crate::text::{chars_of, contains, contains_chars, push_str, slice_chars, starts_with, starts_with_str, string_of, trim, trim_chars};

verus! {

/// What has been read so far of the output of `curl -i`.
pub struct StreamState {
    /// Body text of the displayed response (when it is not an event stream).
    pub body: String,
    /// The status and headers of the final response have been shown.
    pub headers_displayed: bool,
    /// Header block of the last redirect, kept in case no response follows.
    pub saved_redirect_headers: String,
    /// Body text read after that redirect.
    pub saved_redirect_body: String,
    pub has_saved_redirect: bool,
    /// Header block being read (status line and header lines joined by `\n`).
    pub block: String,
    /// Status of the block being read; 0 outside a block.
    pub status: u16,
    /// The displayed response is an event stream.
    pub is_sse: bool,
}

/// The mathematical content of a `StreamState`.
pub struct StreamModel {
    pub body: Seq<char>,
    pub headers_displayed: bool,
    pub saved_redirect_headers: Seq<char>,
    pub saved_redirect_body: Seq<char>,
    pub has_saved_redirect: bool,
    pub block: Seq<char>,
    pub status: u16,
    pub is_sse: bool,
}

impl View for StreamState {
    type V = StreamModel;

    open spec fn view(&self) -> StreamModel {
        StreamModel {
            body: self.body@,
            headers_displayed: self.headers_displayed,
            saved_redirect_headers: self.saved_redirect_headers@,
            saved_redirect_body: self.saved_redirect_body@,
            has_saved_redirect: self.has_saved_redirect,
            block: self.block@,
            status: self.status,
            is_sse: self.is_sse,
        }
    }
}

/// The state before any output was read.
pub open spec fn initial_stream() -> StreamModel {
    StreamModel {
        body: Seq::empty(),
        headers_displayed: false,
        saved_redirect_headers: Seq::empty(),
        saved_redirect_body: Seq::empty(),
        has_saved_redirect: false,
        block: Seq::empty(),
        status: 0,
        is_sse: false,
    }
}

/// A redirect status (3xx).
pub open spec fn is_redirect(status: u16) -> bool {
    300 <= status < 400
}

/// An interim status (1xx, such as `100 Continue`): a final response follows.
pub open spec fn is_interim(status: u16) -> bool {
    100 <= status < 200
}

/// The next state, and what is printed, after reading the line `buf` (line
/// ending included) `elapsed_ms` milliseconds after the request started.
///
/// Once the final headers are shown, lines are body text, or events echoed
/// as they come for an event stream. Before that, a line starting with
/// `HTTP/` opens a header block (and drops a saved redirect), other
/// non-empty lines extend the open block, and an empty line closes it: an
/// interim (1xx) block is dropped, a redirect (3xx) block is saved, and any
/// other is shown and makes its response the final one. Lines outside
/// blocks after a redirect are kept as its body.
pub open spec fn stream_step(m: StreamModel, buf: Seq<char>, elapsed_ms: u128, mode: OutputMode) -> (
    StreamModel,
    Out,
) {
    let line = strip_line_end(buf);
    if m.headers_displayed {
        if m.is_sse {
            (m, if !mode.headers_only { sse_line_out(buf) } else { Seq::empty() })
        } else {
            (StreamModel { body: m.body + buf, ..m }, Seq::empty())
        }
    } else if line.len() == 0 {
        if m.status > 0 && !is_interim(m.status) {
            if !is_redirect(m.status) {
                (
                    StreamModel {
                        headers_displayed: true,
                        is_sse: is_sse_block(m.block),
                        has_saved_redirect: false,
                        saved_redirect_headers: Seq::empty(),
                        saved_redirect_body: Seq::empty(),
                        block: Seq::empty(),
                        status: 0,
                        ..m
                    },
                    status_and_headers_out(m.block, elapsed_ms, mode),
                )
            } else {
                (
                    StreamModel {
                        has_saved_redirect: true,
                        saved_redirect_headers: m.block,
                        saved_redirect_body: Seq::empty(),
                        block: Seq::empty(),
                        status: 0,
                        ..m
                    },
                    Seq::empty(),
                )
            }
        } else {
            (StreamModel { block: Seq::empty(), status: 0, ..m }, Seq::empty())
        }
    } else if starts_with(line, "HTTP/"@) {
        let m1 = if m.has_saved_redirect {
            StreamModel {
                has_saved_redirect: false,
                saved_redirect_headers: Seq::empty(),
                saved_redirect_body: Seq::empty(),
                ..m
            }
        } else {
            m
        };
        (StreamModel { status: status_code_of(line), block: line, ..m1 }, Seq::empty())
    } else if m.status > 0 {
        (StreamModel { block: m.block + "\n"@ + line, ..m }, Seq::empty())
    } else if m.has_saved_redirect {
        (StreamModel { saved_redirect_body: m.saved_redirect_body + buf, ..m }, Seq::empty())
    } else {
        (m, Seq::empty())
    }
}

/// The body part shown at the end for a body text.
pub open spec fn final_body_out(body: Seq<char>, mode: OutputMode) -> Out {
    let bt = trim(body);
    if !mode.headers_only {
        if bt.len() == 0 {
            empty_body_out()
        } else {
            body_section_out(bt, mode)
        }
    } else if !mode.body_only {
        nl()
    } else {
        Seq::empty()
    }
}

/// The message printed on standard error when no response came.
pub open spec fn no_response_out() -> Out {
    piece(Style::RedBold, "✗"@) + piece(Style::Plain, " No response received. Check the URL."@)
        + nl()
}

/// What is printed when the output ends: (standard output, standard error).
/// An event stream ends with a blank line; a shown response with its body;
/// a redirect that no response followed is shown with its body; and when
/// nothing was shown, an error is reported.
pub open spec fn stream_finish(m: StreamModel, elapsed_ms: u128, mode: OutputMode) -> (Out, Out) {
    if m.headers_displayed && m.is_sse {
        (if !mode.body_only { nl() } else { Seq::empty() }, Seq::empty())
    } else if m.headers_displayed {
        (final_body_out(m.body, mode), Seq::empty())
    } else if m.has_saved_redirect {
        (
            status_and_headers_out(m.saved_redirect_headers, elapsed_ms, mode) + final_body_out(
                m.saved_redirect_body,
                mode,
            ),
            Seq::empty(),
        )
    } else {
        let output = trim(m.body);
        if output.len() == 0 {
            (Seq::empty(), no_response_out())
        } else {
            (body_section_out(output, mode), Seq::empty())
        }
    }
}

impl StreamState {
    /// The state before any output was read.
    pub fn new() -> (s: Self)
        ensures
            s@ == initial_stream(),
    {
        StreamState {
            body: String::new(),
            headers_displayed: false,
            saved_redirect_headers: String::new(),
            saved_redirect_body: String::new(),
            has_saved_redirect: false,
            block: String::new(),
            status: 0,
            is_sse: false,
        }
    }

    /// Reads one line of output (line ending included) and returns what to
    /// print on standard output.
    pub fn step(&mut self, buf: &str, elapsed_ms: u128, mode: &OutputMode) -> (out: Vec<Span>)
        ensures
            final(self)@ == stream_step(old(self)@, buf@, elapsed_ms, *mode).0,
            spans(out@) == stream_step(old(self)@, buf@, elapsed_ms, *mode).1,
    {
        let s = chars_of(buf);
        let mut j = s.len();
        assert(s@.take(j as int) =~= s@);
        while j > 0 && (s[j - 1] == '\r' || s[j - 1] == '\n')
            invariant
                j <= s@.len(),
                strip_line_end(s@) == strip_line_end(s@.take(j as int)),
            decreases j,
        {
            assert(s@.take(j as int).drop_last() =~= s@.take(j - 1));
            j = j - 1;
        }
        let line = slice_chars(&s, 0, j);
        assert(line@ =~= s@.take(j as int));
        assert(strip_line_end(line@) == line@);
        let mut out: Vec<Span> = Vec::new();
        assert(spans(out@) =~= Seq::empty());
        if self.headers_displayed {
            if self.is_sse {
                if !mode.headers_only {
                    out = display_sse_line(buf);
                }
            } else {
                push_str(&mut self.body, buf);
            }
            return out;
        }
        if line.len() == 0 {
            if self.status > 0 && !(100 <= self.status && self.status < 200) {
                if !(300 <= self.status && self.status < 400) {
                    out = display_status_and_headers(self.block.as_str(), elapsed_ms, mode);
                    self.is_sse = is_sse_content_type(self.block.as_str());
                    self.headers_displayed = true;
                    self.has_saved_redirect = false;
                    self.saved_redirect_headers = String::new();
                    self.saved_redirect_body = String::new();
                } else {
                    self.has_saved_redirect = true;
                    self.saved_redirect_headers = self.block.as_str().to_owned();
                    self.saved_redirect_body = String::new();
                }
            }
            self.block = String::new();
            self.status = 0;
        } else if starts_with_str(&line, "HTTP/") {
            if self.has_saved_redirect {
                self.has_saved_redirect = false;
                self.saved_redirect_headers = String::new();
                self.saved_redirect_body = String::new();
            }
            let ls = string_of(&line);
            self.status = parse_status_code(ls.as_str());
            self.block = ls;
        } else if self.status > 0 {
            push_str(&mut self.block, "\n");
            push_str(&mut self.block, string_of(&line).as_str());
        } else if self.has_saved_redirect {
            push_str(&mut self.saved_redirect_body, buf);
        }
        out
    }

    /// What to print when the output ends: (standard output, standard error).
    pub fn finish(&self, elapsed_ms: u128, mode: &OutputMode) -> (r: (Vec<Span>, Vec<Span>))
        ensures
            spans(r.0@) == stream_finish(self@, elapsed_ms, *mode).0,
            spans(r.1@) == stream_finish(self@, elapsed_ms, *mode).1,
    {
        let mut out: Vec<Span> = Vec::new();
        let mut err: Vec<Span> = Vec::new();
        assert(spans(out@) =~= Seq::empty());
        assert(spans(err@) =~= Seq::empty());
        if self.headers_displayed && self.is_sse {
            if !mode.body_only {
                emit_nl(&mut out);
            }
        } else if self.headers_displayed {
            Self::emit_final_body(&mut out, &self.body, mode);
        } else if self.has_saved_redirect {
            out = display_status_and_headers(self.saved_redirect_headers.as_str(), elapsed_ms, mode);
            Self::emit_final_body(&mut out, &self.saved_redirect_body, mode);
        } else {
            let bt = trim_chars(&chars_of(self.body.as_str()));
            if bt.len() == 0 {
                emit_str(&mut err, Style::RedBold, "✗");
                emit_str(&mut err, Style::Plain, " No response received. Check the URL.");
                emit_nl(&mut err);
            } else {
                out = display_body_section(string_of(&bt).as_str(), mode);
            }
        }
        (out, err)
    }

    fn emit_final_body(out: &mut Vec<Span>, body: &String, mode: &OutputMode)
        ensures
            spans(final(out)@) == spans(old(out)@) + final_body_out(body@, *mode),
    {
        let ghost start = spans(out@);
        let bt = trim_chars(&chars_of(body.as_str()));
        if !mode.headers_only {
            if bt.len() == 0 {
                append_spans(out, &display_empty_body());
            } else {
                append_spans(out, &display_body_section(string_of(&bt).as_str(), mode));
            }
        } else if !mode.body_only {
            emit_nl(out);
        }
        assert(spans(out@) =~= start + final_body_out(body@, *mode));
    }
}

/// Whether a line that curl wrote on standard error is worth showing: not
/// blank, and not part of curl's progress meter.
pub open spec fn keep_stderr_line_spec(line: Seq<char>) -> bool {
    let t = trim(line);
    t.len() > 0 && !contains(t, "% Total"@) && !contains(t, "Dload"@) && !starts_with(t, " "@)
}

/// Decides whether a line from curl's standard error is shown.
pub fn keep_stderr_line(line: &str) -> (r: bool)
    ensures
        r == keep_stderr_line_spec(line@),
{
    let t = trim_chars(&chars_of(line));
    t.len() > 0 && !contains_chars(&t, &chars_of("% Total")) && !contains_chars(
        &t,
        &chars_of("Dload"),
    ) && !starts_with_str(&t, " ")
}


/// Once the final headers are shown they stay shown, and no status or
/// headers are printed again: later lines print at most stream events.
pub proof fn law_headers_shown_once(m: StreamModel, buf: Seq<char>, elapsed_ms: u128, mode: OutputMode)
    requires
        m.headers_displayed,
    ensures
        stream_step(m, buf, elapsed_ms, mode).0.headers_displayed,
        stream_step(m, buf, elapsed_ms, mode).1 == Seq::<(Style, Seq<char>)>::empty() || (m.is_sse
            && stream_step(m, buf, elapsed_ms, mode).1 == sse_line_out(buf)),
{
}

/// A redirect is never shown when its header block ends: it is kept aside,
/// and shown only if no other response follows (see `stream_finish`).
pub proof fn law_redirect_kept_aside(m: StreamModel, buf: Seq<char>, elapsed_ms: u128, mode: OutputMode)
    requires
        !m.headers_displayed,
        is_redirect(m.status),
        strip_line_end(buf).len() == 0,
    ensures
        stream_step(m, buf, elapsed_ms, mode).1 == Seq::<(Style, Seq<char>)>::empty(),
        stream_step(m, buf, elapsed_ms, mode).0.has_saved_redirect,
        stream_step(m, buf, elapsed_ms, mode).0.saved_redirect_headers == m.block,
        !stream_step(m, buf, elapsed_ms, mode).0.headers_displayed,
{
}

/// The first complete header block that is neither interim nor a redirect is shown as soon
/// as it ends, before any of its body, and decides whether the body is an
/// event stream.
pub proof fn law_final_headers_before_body(
    m: StreamModel,
    buf: Seq<char>,
    elapsed_ms: u128,
    mode: OutputMode,
)
    requires
        !m.headers_displayed,
        m.status > 0,
        !is_interim(m.status),
        !is_redirect(m.status),
        strip_line_end(buf).len() == 0,
    ensures
        stream_step(m, buf, elapsed_ms, mode).1 == status_and_headers_out(m.block, elapsed_ms, mode),
        stream_step(m, buf, elapsed_ms, mode).0.headers_displayed,
        stream_step(m, buf, elapsed_ms, mode).0.is_sse == is_sse_block(m.block),
        stream_step(m, buf, elapsed_ms, mode).0.body == m.body,
{
}
/// An interim (1xx) header block is never shown: when it ends it is
/// dropped, nothing is printed, and the final response is still awaited.
pub proof fn law_interim_block_dropped(m: StreamModel, buf: Seq<char>, elapsed_ms: u128, mode: OutputMode)
    requires
        !m.headers_displayed,
        is_interim(m.status),
        strip_line_end(buf).len() == 0,
    ensures
        stream_step(m, buf, elapsed_ms, mode).1 == Seq::<(Style, Seq<char>)>::empty(),
        !stream_step(m, buf, elapsed_ms, mode).0.headers_displayed,
        stream_step(m, buf, elapsed_ms, mode).0.status == 0,
        stream_step(m, buf, elapsed_ms, mode).0.block == Seq::<char>::empty(),
        stream_step(m, buf, elapsed_ms, mode).0.body == m.body,
        stream_step(m, buf, elapsed_ms, mode).0.has_saved_redirect == m.has_saved_redirect,
{
}
/// The lines read one after the other, in order.
pub open spec fn concat_lines(bufs: Seq<Seq<char>>) -> Seq<char>
    decreases bufs.len(),
{
    if bufs.len() == 0 {
        Seq::empty()
    } else {
        concat_lines(bufs.drop_last()) + bufs.last()
    }
}

/// The state after reading the lines `bufs` in order.
pub open spec fn feed_lines(m: StreamModel, bufs: Seq<Seq<char>>, elapsed_ms: u128, mode: OutputMode) -> StreamModel
    decreases bufs.len(),
{
    if bufs.len() == 0 {
        m
    } else {
        stream_step(feed_lines(m, bufs.drop_last(), elapsed_ms, mode), bufs.last(), elapsed_ms, mode).0
    }
}

/// Once the final headers of a response that is not an event stream are
/// shown, each line read is added to the end of the body and nothing is
/// printed: the body grows by exactly that line, and the rest of the state
/// stays as it was.
pub proof fn law_body_line_appended(m: StreamModel, buf: Seq<char>, elapsed_ms: u128, mode: OutputMode)
    requires
        m.headers_displayed,
        !m.is_sse,
    ensures
        stream_step(m, buf, elapsed_ms, mode).0.body == m.body + buf,
        stream_step(m, buf, elapsed_ms, mode).1.len() == 0,
        stream_step(m, buf, elapsed_ms, mode).0.headers_displayed,
        !stream_step(m, buf, elapsed_ms, mode).0.is_sse,
{
}

/// After the final headers of a response that is not an event stream, the
/// body collected from the lines read is all of them, joined in order:
/// no line is lost or repeated.
pub proof fn law_body_is_all_lines(m: StreamModel, bufs: Seq<Seq<char>>, elapsed_ms: u128, mode: OutputMode)
    requires
        m.headers_displayed,
        !m.is_sse,
    ensures
        feed_lines(m, bufs, elapsed_ms, mode).body == m.body + concat_lines(bufs),
        feed_lines(m, bufs, elapsed_ms, mode).headers_displayed,
        !feed_lines(m, bufs, elapsed_ms, mode).is_sse,
    decreases bufs.len(),
{
    if bufs.len() == 0 {
        assert(m.body + concat_lines(bufs) =~= m.body);
    } else {
        law_body_is_all_lines(m, bufs.drop_last(), elapsed_ms, mode);
        let prev = feed_lines(m, bufs.drop_last(), elapsed_ms, mode);
        law_body_line_appended(prev, bufs.last(), elapsed_ms, mode);
        assert(m.body + concat_lines(bufs.drop_last()) + bufs.last() =~= m.body + concat_lines(bufs));
    }
}
} // verus!
