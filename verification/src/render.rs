//! The renderer: the top-level event loop, the tag start/end handlers, and
//! the raw-text collector. The specification side is a recursive interpreter
//! over the event sequence; the executable side is proved to produce exactly
//! its output.

use vstd::prelude::*;
use crate::collab::Collaborators;
use crate::escape::{
    dec_seq, escape_href, escape_html, first_token, href_escaped, html_escaped, lit, lit_vec,
    bytes_eq, push_bytes, push_dec, push_lit, take_first_token,
};
use crate::events::{Align, Event, Tag};
use crate::notes::{names_unique, note_assign, note_ordinal, Notes};

verus! {

/// Nesting depth past which a render aborts.
pub const DEPTH_LIMIT: u64 = 100;

/// The fixed notice that replaces all output when the nesting guard fires.
pub open spec fn deep_nesting_notice() -> Seq<u8> {
    lit("Post too deeply nested."@)
}

/// The per-render state the handlers read and update: table phase (heading or
/// body), the current table's column alignments, the current cell index, the
/// code-block flag with the declared language, and the footnote name list in
/// first-seen order.
pub ghost struct GState {
    pub head: bool,
    pub aligns: Seq<Align>,
    pub cell: int,
    pub in_code: bool,
    pub lang: Seq<u8>,
    pub notes: Seq<Seq<u8>>,
}

/// The state a render starts from.
pub open spec fn init_state() -> GState {
    GState {
        head: true,
        aligns: Seq::empty(),
        cell: 0,
        in_code: false,
        lang: Seq::empty(),
        notes: Seq::empty(),
    }
}

/// Output with a newline appended unless it is empty or already ends in one;
/// applied before every block-level opening tag so block markup cannot fuse
/// with preceding inline content.
pub open spec fn fresh_line_spec(out: Seq<u8>) -> Seq<u8> {
    if out.len() == 0 || out.last() == 10u8 {
        out
    } else {
        out.push(10u8)
    }
}

/// The digit byte of a heading level (wrapping at the byte boundary; levels
/// are 1 to 6 in well-formed input).
pub open spec fn head_digit(level: u8) -> u8 {
    if level <= 207 {
        (48 + level) as u8
    } else {
        (level - 208) as u8
    }
}

/// The `align` attribute of the cell at `cell` under an alignment list: empty
/// when the index is past the list or the column declared no alignment.
pub open spec fn align_attr(aligns: Seq<Align>, cell: int) -> Seq<u8> {
    if 0 <= cell < aligns.len() {
        match aligns[cell] {
            Align::Left => lit(" align=\"left\""@),
            Align::Center => lit(" align=\"center\""@),
            Align::Right => lit(" align=\"right\""@),
            Align::Unset => Seq::empty(),
        }
    } else {
        Seq::empty()
    }
}

/// The `title` attribute fragment of a link or image: empty for an empty
/// title, otherwise the plain-escaped title closing the preceding attribute.
pub open spec fn title_attr(title: Seq<u8>) -> Seq<u8> {
    if title.len() > 0 {
        lit("\" title=\""@) + html_escaped(title, false)
    } else {
        Seq::empty()
    }
}

/// What the raw-text collector leaves behind, starting at event `i` with a
/// local nesting count `depth`: it drains events until the end event matching
/// the already-consumed start (or the end of input), escaping literal text
/// and trusted inline HTML, dropping trusted block HTML, turning breaks into
/// one space and footnote references into a bracketed ordinal. Returns the
/// position after the matching end event, the footnote names, and the output.
pub open spec fn raw_text_spec(
    events: Seq<Event>,
    i: int,
    depth: int,
    notes: Seq<Seq<u8>>,
    out: Seq<u8>,
) -> (int, Seq<Seq<u8>>, Seq<u8>)
    decreases events.len() - i,
{
    if i < 0 || i >= events.len() {
        (i, notes, out)
    } else {
        match events[i] {
            Event::Start(_) => raw_text_spec(events, i + 1, depth + 1, notes, out),
            Event::End(_) => if depth == 0 {
                (i + 1, notes, out)
            } else {
                raw_text_spec(events, i + 1, depth - 1, notes, out)
            },
            Event::Text(t) => raw_text_spec(
                events,
                i + 1,
                depth,
                notes,
                out + html_escaped(t@, false),
            ),
            Event::Html(_) => raw_text_spec(events, i + 1, depth, notes, out),
            Event::InlineHtml(h) => raw_text_spec(
                events,
                i + 1,
                depth,
                notes,
                out + html_escaped(h@, false),
            ),
            Event::SoftBreak => raw_text_spec(events, i + 1, depth, notes, out.push(32u8)),
            Event::HardBreak => raw_text_spec(events, i + 1, depth, notes, out.push(32u8)),
            Event::FootnoteReference(name) => raw_text_spec(
                events,
                i + 1,
                depth,
                note_assign(notes, name@),
                out + lit("["@) + dec_seq(note_ordinal(notes, name@)) + lit("]"@),
            ),
        }
    }
}

/// What a start handler emits and how it changes the state. `i` is the
/// position just after the start event; only an image moves it further (its
/// alt text is collected through the matching end event). Returns the new
/// position, state, and output.
pub open spec fn start_spec(
    events: Seq<Event>,
    i: int,
    tag: Tag,
    st: GState,
    out: Seq<u8>,
) -> (int, GState, Seq<u8>) {
    match tag {
        Tag::Paragraph => (i, st, fresh_line_spec(out) + lit("<p>"@)),
        Tag::Rule => (i, st, fresh_line_spec(out) + lit("<hr />\n"@)),
        Tag::Header(level) => (
            i,
            st,
            fresh_line_spec(out) + lit("<h"@) + seq![head_digit(level)] + lit(
                " class=\"markdown__heading\">"@,
            ),
        ),
        Tag::Table(aligns) => (
            i,
            GState { aligns: aligns@, ..st },
            out + lit("<div class=\"table-responsive\"><table class=\"markdown__table\">"@),
        ),
        Tag::TableHead => (i, GState { head: true, ..st }, out + lit("<thead>"@)),
        Tag::TableRow => (i, GState { cell: 0, ..st }, out + lit("<tr>"@)),
        Tag::TableCell => (
            i,
            st,
            out + (if st.head {
                lit("<th"@)
            } else {
                lit("<td"@)
            }) + align_attr(st.aligns, st.cell) + lit(">"@),
        ),
        Tag::BlockQuote => (i, st, fresh_line_spec(out) + lit("<blockquote>\n"@)),
        Tag::CodeBlock(info) => {
            let lang = first_token(info@);
            let st2 = GState { in_code: true, lang: lang, ..st };
            if lang.len() == 0 {
                (
                    i,
                    st2,
                    fresh_line_spec(out) + lit(
                        "<div class=\"post-code post-code--wrap\"><code class=\"hljs\">"@,
                    ),
                )
            } else if lang == lit("tex"@) || lang == lit("latex"@) {
                (i, st2, fresh_line_spec(out))
            } else {
                (
                    i,
                    st2,
                    fresh_line_spec(out) + lit(
                        "<div class =\"post-code\"><span class=\"post-code__language\">"@,
                    ) + html_escaped(lang, false) + lit("</span><code class=\"language-"@)
                        + html_escaped(lang, false) + lit("\">"@),
                )
            }
        },
        Tag::List(opt) => match opt {
            Some(start) => if start == 1 {
                (i, st, fresh_line_spec(out) + lit("<ol>\n"@))
            } else {
                (
                    i,
                    st,
                    fresh_line_spec(out) + lit("<ol start=\""@) + dec_seq(start as nat) + lit(
                        "\">\n"@,
                    ),
                )
            },
            None => (i, st, fresh_line_spec(out) + lit("<ul>\n"@)),
        },
        Tag::Item => (i, st, fresh_line_spec(out) + lit("<li>"@)),
        Tag::Emphasis => (i, st, out + lit("<em>"@)),
        Tag::Strong => (i, st, out + lit("<strong>"@)),
        Tag::Code => (i, st, out + lit("<span class=\"codespan__pre-wrap\"><code>"@)),
        Tag::Link(dest, title) => (
            i,
            st,
            out + lit("<a href=\""@) + href_escaped(dest@) + title_attr(title@) + lit("\">"@),
        ),
        Tag::Image(dest, title) => {
            let out1 = out + lit("<img src=\""@) + href_escaped(dest@) + lit("\" alt=\""@);
            let (j, notes2, out2) = raw_text_spec(events, i, 0, st.notes, out1);
            (j, GState { notes: notes2, ..st }, out2 + title_attr(title@) + lit("\" />"@))
        },
        Tag::FootnoteDefinition(name) => {
            let ord = note_ordinal(st.notes, name@);
            (
                i,
                GState { notes: note_assign(st.notes, name@), ..st },
                fresh_line_spec(out) + lit("<div class=\"footnote-definition\" id=\""@)
                    + html_escaped(name@, false) + lit(
                    "\"><sup class=\"footnote-definition-label\">"@,
                ) + dec_seq(ord) + lit("</sup>"@),
            )
        },
    }
}

/// What an end handler emits and how it changes the state.
pub open spec fn end_spec(tag: Tag, st: GState, out: Seq<u8>) -> (GState, Seq<u8>) {
    match tag {
        Tag::Paragraph => (st, out + lit("</p>\n"@)),
        Tag::Rule => (st, out),
        Tag::Header(level) => (st, out + lit("</h"@) + seq![head_digit(level)] + lit(">\n"@)),
        Tag::Table(_) => (st, out + lit("</tbody></table></div>\n"@)),
        Tag::TableHead => (GState { head: false, ..st }, out + lit("</thead><tbody>\n"@)),
        Tag::TableRow => (st, out + lit("</tr>\n"@)),
        Tag::TableCell => (
            GState { cell: st.cell + 1, ..st },
            out + (if st.head {
                lit("</th>"@)
            } else {
                lit("</td>"@)
            }),
        ),
        Tag::BlockQuote => (st, out + lit("</blockquote>\n"@)),
        Tag::CodeBlock(_) => {
            let st2 = GState { in_code: false, ..st };
            if st.lang == lit("tex"@) || st.lang == lit("latex"@) {
                (st2, out)
            } else {
                (st2, out + lit("</code></div>\n"@))
            }
        },
        Tag::List(opt) => match opt {
            Some(_) => (st, out + lit("</ol>\n"@)),
            None => (st, out + lit("</ul>\n"@)),
        },
        Tag::Item => (st, out + lit("</li>\n"@)),
        Tag::Emphasis => (st, out + lit("</em>"@)),
        Tag::Strong => (st, out + lit("</strong>"@)),
        Tag::Code => (st, out + lit("</code></span>"@)),
        Tag::Link(_, _) => (st, out + lit("</a>"@)),
        Tag::Image(_, _) => (st, out),
        Tag::FootnoteDefinition(_) => (st, out + lit("</div>\n"@)),
    }
}

/// The concatenation of the maximal run of adjacent text events at `i`.
pub open spec fn text_run(events: Seq<Event>, i: int) -> Seq<u8>
    decreases events.len() - i,
{
    if 0 <= i < events.len() {
        match events[i] {
            Event::Text(t) => t@ + text_run(events, i + 1),
            _ => Seq::empty(),
        }
    } else {
        Seq::empty()
    }
}

/// The position just past the maximal run of adjacent text events at `i`.
pub open spec fn text_run_end(events: Seq<Event>, i: int) -> int
    decreases events.len() - i,
{
    if 0 <= i < events.len() {
        match events[i] {
            Event::Text(_) => text_run_end(events, i + 1),
            _ => i,
        }
    } else {
        i
    }
}

/// What a coalesced text run becomes inside a code block: routed to the
/// highlighter under the declared language ("html" maps to the "xml"
/// grammar), except "tex"/"latex", which wrap the plain-escaped run as a
/// self-contained formula element.
pub open spec fn code_text_spec<C: Collaborators>(c: &C, st: GState, t: Seq<u8>) -> Seq<u8> {
    if st.lang == lit("html"@) {
        c.highlight_spec(lit("xml"@), t)
    } else if st.lang == lit("tex"@) || st.lang == lit("latex"@) {
        lit("<div data-latex=\""@) + html_escaped(t, false) + lit("\"></div>"@)
    } else {
        c.highlight_spec(st.lang, t)
    }
}

/// A position clamped into a range; the renderer's spec recursions only ever
/// clamp positions that its lemmas show already lie in the range.
pub open spec fn clip_pos(j: int, lo: int, hi: int) -> int {
    if j < lo {
        lo
    } else if j > hi {
        hi
    } else {
        j
    }
}

/// The output of the renderer driver from position `i` with nesting counter
/// `depth`, state `st` and the output built so far: one event (or one
/// coalesced text run, or one image with its alt content) is consumed per
/// step. The counter rises by one per start event and falls by one per end
/// event; the moment a start would push it over the limit, rendering aborts:
/// everything built is discarded for the fixed notice (the start's own markup
/// included) and no further event is consumed.
pub open spec fn run_spec<C: Collaborators>(
    c: &C,
    events: Seq<Event>,
    i: int,
    depth: int,
    st: GState,
    out: Seq<u8>,
) -> Seq<u8>
    decreases events.len() - i,
{
    if i < 0 || i >= events.len() {
        out
    } else {
        match events[i] {
            Event::Start(tag) => {
                if depth + 1 > DEPTH_LIMIT as int {
                    deep_nesting_notice()
                } else {
                    let (j, st2, out2) = start_spec(events, i + 1, tag, st, out);
                    run_spec(
                        c,
                        events,
                        clip_pos(j, i + 1, events.len() as int),
                        depth + 1,
                        st2,
                        out2,
                    )
                }
            },
            Event::End(tag) => {
                let (st2, out2) = end_spec(tag, st, out);
                run_spec(c, events, i + 1, depth - 1, st2, out2)
            },
            Event::Text(_) => {
                let t = text_run(events, i);
                let j = clip_pos(text_run_end(events, i), i + 1, events.len() as int);
                let out2 = if st.in_code {
                    out + code_text_spec(c, st, t)
                } else {
                    out + c.format_spec(t)
                };
                run_spec(c, events, j, depth, st, out2)
            },
            Event::Html(h) => run_spec(c, events, i + 1, depth, st, out + h@),
            Event::InlineHtml(h) => run_spec(c, events, i + 1, depth, st, out + h@),
            Event::SoftBreak => run_spec(c, events, i + 1, depth, st, out.push(10u8)),
            Event::HardBreak => run_spec(c, events, i + 1, depth, st, out.push(10u8)),
            Event::FootnoteReference(name) => run_spec(
                c,
                events,
                i + 1,
                depth,
                GState { notes: note_assign(st.notes, name@), ..st },
                out + lit("<sup class=\"footnote-reference\"><a href=\"#"@) + html_escaped(
                    name@,
                    false,
                ) + lit("\">"@) + dec_seq(note_ordinal(st.notes, name@)) + lit("</a></sup>"@),
            ),
        }
    }
}

/// A text run ends after the position it starts at and within the input.
pub proof fn lemma_text_run_end_pos(events: Seq<Event>, i: int)
    requires
        0 <= i <= events.len(),
    ensures
        i <= text_run_end(events, i) <= events.len(),
        i < events.len() && events[i] is Text ==> text_run_end(events, i) > i,
    decreases events.len() - i,
{
    if i < events.len() {
        if events[i] is Text {
            lemma_text_run_end_pos(events, i + 1);
        }
    }
}

/// A stretch of non-image start events long enough to push the nesting
/// counter over the limit forces the fixed notice.
proof fn lemma_guard_fires<C: Collaborators>(
    c: &C,
    events: Seq<Event>,
    i: int,
    depth: int,
    st: GState,
    out: Seq<u8>,
    m: int,
)
    requires
        0 <= i,
        0 <= m,
        i + m <= events.len(),
        0 <= depth <= DEPTH_LIMIT as int,
        depth + m > DEPTH_LIMIT as int,
        forall|k: int|
            i <= k < i + m ==> ((#[trigger] events[k]) matches Event::Start(tag) && !(
                tag is Image)),
    ensures
        run_spec(c, events, i, depth, st, out) == deep_nesting_notice(),
    decreases m,
{
    assert(m >= 1);
    assert(events[i] matches Event::Start(tag) && !(tag is Image));
    match events[i] {
        Event::Start(tag) => {
            if depth < DEPTH_LIMIT as int {
                let r = start_spec(events, i + 1, tag, st, out);
                assert(r.0 == i + 1);
                lemma_guard_fires(c, events, i + 1, depth + 1, r.1, r.2, m - 1);
            }
        },
        _ => {
            assert(false);
        },
    }
}

/// The nesting guard: an event sequence that opens more than the depth limit
/// of nested constructs (none of them images) renders as exactly the fixed
/// notice and nothing else, whether or not anything follows — the start that
/// trips the counter contributes no markup of its own, and whatever the
/// output buffer held before (`prior`, including content a caller handed to
/// the entry point) is discarded with it.
pub proof fn lemma_nesting_guard<C: Collaborators>(c: &C, events: Seq<Event>, prior: Seq<u8>)
    requires
        events.len() > DEPTH_LIMIT as int,
        forall|k: int|
            0 <= k <= DEPTH_LIMIT as int ==> ((#[trigger] events[k]) matches Event::Start(tag)
                && !(tag is Image)),
    ensures
        run_spec(c, events, 0, 0, init_state(), prior) == deep_nesting_notice(),
{
    lemma_guard_fires(c, events, 0, 0, init_state(), prior, DEPTH_LIMIT as int + 1);
}

/// The raw-text collector draws footnote ordinals from the same render-wide
/// first-seen list as the driver: it keeps the list duplicate-free, and a
/// name already sighted before the subtree keeps its ordinal through it, so
/// any later sighting — inside the subtree or after it — renders the same
/// ordinal.
pub proof fn lemma_raw_text_notes(
    events: Seq<Event>,
    i: int,
    depth: int,
    notes: Seq<Seq<u8>>,
    out: Seq<u8>,
    name: Seq<u8>,
)
    requires
        names_unique(notes),
    ensures
        ({
            let r = raw_text_spec(events, i, depth, notes, out);
            &&& names_unique(r.1)
            &&& (notes.contains(name) ==> r.1.contains(name) && note_ordinal(r.1, name)
                == note_ordinal(notes, name))
        }),
    decreases events.len() - i,
{
    if 0 <= i < events.len() {
        match events[i] {
            Event::Start(_) => {
                lemma_raw_text_notes(events, i + 1, depth + 1, notes, out, name);
            },
            Event::End(_) => {
                if depth != 0 {
                    lemma_raw_text_notes(events, i + 1, depth - 1, notes, out, name);
                }
            },
            Event::Text(t) => {
                lemma_raw_text_notes(
                    events,
                    i + 1,
                    depth,
                    notes,
                    out + html_escaped(t@, false),
                    name,
                );
            },
            Event::Html(_) => {
                lemma_raw_text_notes(events, i + 1, depth, notes, out, name);
            },
            Event::InlineHtml(h) => {
                lemma_raw_text_notes(
                    events,
                    i + 1,
                    depth,
                    notes,
                    out + html_escaped(h@, false),
                    name,
                );
            },
            Event::SoftBreak => {
                lemma_raw_text_notes(events, i + 1, depth, notes, out.push(32u8), name);
            },
            Event::HardBreak => {
                lemma_raw_text_notes(events, i + 1, depth, notes, out.push(32u8), name);
            },
            Event::FootnoteReference(nm) => {
                let next = note_assign(notes, nm@);
                crate::notes::lemma_note_ordinal_stable(notes, name, nm@);
                if notes.contains(name) {
                    assert(next.contains(name)) by {
                        let ix = notes.index_of(name);
                        assert(notes[ix] == name);
                        assert(next[ix] == name);
                    }
                }
                lemma_raw_text_notes(
                    events,
                    i + 1,
                    depth,
                    next,
                    out + lit("["@) + dec_seq(note_ordinal(notes, nm@)) + lit("]"@),
                    name,
                );
            },
        }
    }
}

/// What the raw-text collector appends to the output is free of the bytes
/// `"` `<` `>`, and what was already there is kept: everything it collects
/// can stand inside the quoted alt attribute it is collected for.
pub proof fn lemma_raw_text_appends_safe(
    events: Seq<Event>,
    i: int,
    depth: int,
    notes: Seq<Seq<u8>>,
    out: Seq<u8>,
)
    ensures
        ({
            let r = raw_text_spec(events, i, depth, notes, out);
            &&& r.2.len() >= out.len()
            &&& (forall|k: int| 0 <= k < out.len() ==> r.2[k] == out[k])
            &&& (forall|k: int|
                out.len() <= k < r.2.len() ==> ((#[trigger] r.2[k]) != 34 && r.2[k] != 60 && r.2[k]
                    != 62))
        }),
    decreases events.len() - i, 0int,
{
    reveal_strlit("[");
    reveal_strlit("]");
    if 0 <= i < events.len() {
        let r = raw_text_spec(events, i, depth, notes, out);
        match events[i] {
            Event::Start(_) => {
                lemma_raw_text_appends_safe(events, i + 1, depth + 1, notes, out);
            },
            Event::End(_) => {
                if depth != 0 {
                    lemma_raw_text_appends_safe(events, i + 1, depth - 1, notes, out);
                }
            },
            Event::Text(t) => {
                let chunk = html_escaped(t@, false);
                crate::escape::lemma_html_escaped_safe(t@, false);
                lemma_raw_text_step(events, i + 1, depth, notes, out, chunk);
            },
            Event::Html(_) => {
                lemma_raw_text_appends_safe(events, i + 1, depth, notes, out);
            },
            Event::InlineHtml(h) => {
                let chunk = html_escaped(h@, false);
                crate::escape::lemma_html_escaped_safe(h@, false);
                lemma_raw_text_step(events, i + 1, depth, notes, out, chunk);
            },
            Event::SoftBreak => {
                assert(out.push(32u8) =~= out + seq![32u8]);
                lemma_raw_text_step(events, i + 1, depth, notes, out, seq![32u8]);
            },
            Event::HardBreak => {
                assert(out.push(32u8) =~= out + seq![32u8]);
                lemma_raw_text_step(events, i + 1, depth, notes, out, seq![32u8]);
            },
            Event::FootnoteReference(name) => {
                let chunk = lit("["@) + dec_seq(note_ordinal(notes, name@)) + lit("]"@);
                crate::escape::lemma_dec_seq_digits(note_ordinal(notes, name@));
                assert(forall|k: int|
                    0 <= k < chunk.len() ==> ((#[trigger] chunk[k]) != 34 && chunk[k] != 60
                        && chunk[k] != 62));
                assert(out + lit("["@) + dec_seq(note_ordinal(notes, name@)) + lit("]"@) =~= out
                    + chunk);
                lemma_raw_text_step(events, i + 1, depth, note_assign(notes, name@), out, chunk);
            },
        }
    }
}

/// One collection step: if the collector continues at `i` after appending a
/// safe chunk, what it appends from the old output's end on is safe.
proof fn lemma_raw_text_step(
    events: Seq<Event>,
    i: int,
    depth: int,
    notes: Seq<Seq<u8>>,
    out: Seq<u8>,
    chunk: Seq<u8>,
)
    requires
        forall|k: int|
            0 <= k < chunk.len() ==> ((#[trigger] chunk[k]) != 34 && chunk[k] != 60 && chunk[k]
                != 62),
    ensures
        ({
            let r = raw_text_spec(events, i, depth, notes, out + chunk);
            &&& r.2.len() >= out.len()
            &&& (forall|k: int| 0 <= k < out.len() ==> r.2[k] == out[k])
            &&& (forall|k: int|
                out.len() <= k < r.2.len() ==> ((#[trigger] r.2[k]) != 34 && r.2[k] != 60 && r.2[k]
                    != 62))
        }),
    decreases events.len() - i, 1int,
{
    let out2 = out + chunk;
    lemma_raw_text_appends_safe(events, i, depth, notes, out2);
    let r = raw_text_spec(events, i, depth, notes, out2);
    assert forall|k: int| 0 <= k < out.len() implies r.2[k] == out[k] by {
        assert(r.2[k] == out2[k]);
        assert(out2[k] == out[k]);
    }
    assert forall|k: int|
        out.len() <= k < r.2.len() implies ((#[trigger] r.2[k]) != 34 && r.2[k] != 60 && r.2[k]
        != 62) by {
        if k < out2.len() {
            assert(r.2[k] == out2[k]);
            assert(out2[k] == chunk[k - out.len()]);
        }
    }
}

/// Whether an event is a literal-text event.
fn is_text(ev: &Event) -> (r: bool)
    ensures
        r == (ev is Text),
{
    match ev {
        Event::Text(_) => true,
        _ => false,
    }
}

/// Copy a column-alignment list.
fn copy_aligns(v: &Vec<Align>) -> (r: Vec<Align>)
    ensures
        r@ == v@,
{
    let mut r: Vec<Align> = Vec::new();
    let mut i: usize = 0;
    while i < v.len()
        invariant
            i <= v@.len(),
            r@ == v@.take(i as int),
        decreases v@.len() - i,
    {
        r.push(v[i]);
        proof {
            assert(v@.take(i + 1) =~= v@.take(i as int).push(v@[i as int]));
        }
        i += 1;
    }
    proof {
        assert(v@.take(v@.len() as int) =~= v@);
    }
    r
}

/// The rendering context of one render call: the event sequence with a
/// cursor, the output buffer, the per-render state, and the collaborator
/// pair. Created fresh per call to the entry point and discarded once the
/// output is returned.
pub struct Ctx<'e, C: Collaborators> {
    pub events: &'e Vec<Event>,
    pub pos: usize,
    pub buf: Vec<u8>,
    /// Table phase: still rendering the heading row.
    pub head: bool,
    /// The current table's column alignments.
    pub aligns: Vec<Align>,
    /// The current table cell index; reset at every row start.
    pub cell: usize,
    /// Whether the cursor is inside a code block.
    pub in_code: bool,
    /// The current code block's declared language.
    pub lang: Vec<u8>,
    /// The footnote name-to-ordinal mapping.
    pub notes: Notes,
    pub collab: &'e C,
}

impl<'e, C: Collaborators> Ctx<'e, C> {
    /// The handler-visible state as its mathematical model.
    pub open spec fn st(&self) -> GState {
        GState {
            head: self.head,
            aligns: self.aligns@,
            cell: self.cell as int,
            in_code: self.in_code,
            lang: self.lang@,
            notes: self.notes@,
        }
    }

    /// Well-formedness: the footnote list is duplicate-free, the cursor is
    /// within the input, and the footnote and cell counters cannot outrun the
    /// events consumed (so they can always grow by one).
    pub open spec fn wf(&self) -> bool {
        &&& self.notes.wf()
        &&& self.pos <= self.events@.len()
        &&& self.notes@.len() <= self.pos
        &&& self.cell <= self.pos
    }

    /// A fresh context over an event sequence, owning the output built so far.
    pub fn new(events: &'e Vec<Event>, collab: &'e C, buf: Vec<u8>) -> (r: Ctx<'e, C>)
        ensures
            r.wf(),
            r.events == events,
            r.collab == collab,
            r.pos == 0,
            r.buf == buf,
            r.st() == init_state(),
    {
        let r = Ctx {
            events,
            pos: 0,
            buf,
            head: true,
            aligns: Vec::new(),
            cell: 0,
            in_code: false,
            lang: Vec::new(),
            notes: Notes::new(),
            collab,
        };
        proof {
            assert(r.st() == init_state());
        }
        r
    }

    /// Ensure the output ends in a newline (or is empty) before block markup.
    fn fresh_line(&mut self)
        ensures
            *final(self) == (Ctx { buf: final(self).buf, ..*old(self) }),
            final(self).buf@ == fresh_line_spec(old(self).buf@),
    {
        let n = self.buf.len();
        if n != 0 {
            if self.buf[n - 1] != 10 {
                self.buf.push(10);
            }
        }
    }

    /// The raw-text collector: drain events until the end event matching the
    /// start just consumed (or the end of input), flattening them into one
    /// plain-escaped run appended to the output; nested structural tags
    /// contribute no markup, only their content.
    fn raw_text(&mut self)
        requires
            old(self).wf(),
        ensures
            final(self).wf(),
            *final(self) == (Ctx {
                pos: final(self).pos,
                buf: final(self).buf,
                notes: final(self).notes,
                ..*old(self)
            }),
            ({
                let r = raw_text_spec(
                    old(self).events@,
                    old(self).pos as int,
                    0,
                    old(self).notes@,
                    old(self).buf@,
                );
                final(self).pos as int == r.0 && final(self).notes@ == r.1 && final(self).buf@
                    == r.2
            }),
            old(self).pos <= final(self).pos,
    {
        let evs = self.events;
        let mut depth: usize = 0;
        loop
            invariant
                self.wf(),
                self.events == old(self).events,
                self.collab == old(self).collab,
                self.head == old(self).head,
                self.aligns == old(self).aligns,
                self.cell == old(self).cell,
                self.in_code == old(self).in_code,
                self.lang == old(self).lang,
                evs == self.events,
                old(self).pos <= self.pos,
                depth <= self.pos,
                raw_text_spec(evs@, old(self).pos as int, 0, old(self).notes@, old(self).buf@)
                    == raw_text_spec(evs@, self.pos as int, depth as int, self.notes@, self.buf@),
            decreases evs@.len() - self.pos,
        {
            if self.pos >= evs.len() {
                return ;
            }
            let ghost p0 = self.pos as int;
            let ghost notes0 = self.notes@;
            let ghost buf0 = self.buf@;
            let ev = &evs[self.pos];
            self.pos = self.pos + 1;
            match ev {
                Event::Start(_) => {
                    depth = depth + 1;
                },
                Event::End(_) => {
                    if depth == 0 {
                        return ;
                    }
                    depth = depth - 1;
                },
                Event::Text(t) => {
                    escape_html(&mut self.buf, t, false);
                },
                Event::Html(_) => {},
                Event::InlineHtml(h) => {
                    escape_html(&mut self.buf, h, false);
                },
                Event::SoftBreak => {
                    self.buf.push(32);
                },
                Event::HardBreak => {
                    self.buf.push(32);
                },
                Event::FootnoteReference(name) => {
                    push_lit(&mut self.buf, "[");
                    let ord = self.notes.ordinal(name);
                    push_dec(&mut self.buf, ord as u64);
                    push_lit(&mut self.buf, "]");
                    proof {
                        assert(self.buf@ =~= buf0 + lit("["@) + dec_seq(
                            note_ordinal(notes0, name@),
                        ) + lit("]"@));
                    }
                },
            }
        }
    }

    /// Translate one start tag into its opening markup (and, for an image,
    /// collect its alt text through the matching end event).
    fn start_tag(&mut self, tag: &Tag)
        requires
            old(self).wf(),
            old(self).notes@.len() < old(self).pos,
        ensures
            final(self).wf(),
            final(self).events == old(self).events,
            final(self).collab == old(self).collab,
            old(self).pos <= final(self).pos,
            ({
                let r = start_spec(
                    old(self).events@,
                    old(self).pos as int,
                    *tag,
                    old(self).st(),
                    old(self).buf@,
                );
                final(self).pos as int == r.0 && final(self).st() == r.1 && final(self).buf@
                    == r.2
            }),
    {
        match tag {
            Tag::Paragraph => {
                self.fresh_line();
                push_lit(&mut self.buf, "<p>");
            },
            Tag::Rule => {
                self.fresh_line();
                push_lit(&mut self.buf, "<hr />\n");
            },
            Tag::Header(level) => {
                self.fresh_line();
                push_lit(&mut self.buf, "<h");
                let d: u8 = if *level <= 207 {
                    48 + *level
                } else {
                    *level - 208
                };
                self.buf.push(d);
                push_lit(&mut self.buf, " class=\"markdown__heading\">");
                proof {
                    assert(self.buf@ =~= fresh_line_spec(old(self).buf@) + lit("<h"@) + seq![
                        head_digit(*level),
                    ] + lit(" class=\"markdown__heading\">"@));
                }
            },
            Tag::Table(aligns) => {
                self.aligns = copy_aligns(aligns);
                push_lit(
                    &mut self.buf,
                    "<div class=\"table-responsive\"><table class=\"markdown__table\">",
                );
            },
            Tag::TableHead => {
                self.head = true;
                push_lit(&mut self.buf, "<thead>");
            },
            Tag::TableRow => {
                self.cell = 0;
                push_lit(&mut self.buf, "<tr>");
            },
            Tag::TableCell => {
                if self.head {
                    push_lit(&mut self.buf, "<th");
                } else {
                    push_lit(&mut self.buf, "<td");
                }
                if self.cell < self.aligns.len() {
                    match self.aligns[self.cell] {
                        Align::Left => push_lit(&mut self.buf, " align=\"left\""),
                        Align::Center => push_lit(&mut self.buf, " align=\"center\""),
                        Align::Right => push_lit(&mut self.buf, " align=\"right\""),
                        Align::Unset => {},
                    }
                }
                push_lit(&mut self.buf, ">");
                proof {
                    assert(self.buf@ =~= old(self).buf@ + (if old(self).head {
                        lit("<th"@)
                    } else {
                        lit("<td"@)
                    }) + align_attr(old(self).aligns@, old(self).cell as int) + lit(">"@));
                }
            },
            Tag::BlockQuote => {
                self.fresh_line();
                push_lit(&mut self.buf, "<blockquote>\n");
            },
            Tag::CodeBlock(info) => {
                self.fresh_line();
                self.in_code = true;
                self.lang = take_first_token(info);
                if self.lang.len() == 0 {
                    push_lit(
                        &mut self.buf,
                        "<div class=\"post-code post-code--wrap\"><code class=\"hljs\">",
                    );
                } else {
                    let tex = lit_vec("tex");
                    let latex = lit_vec("latex");
                    let is_formula = bytes_eq(&self.lang, &tex) || bytes_eq(&self.lang, &latex);
                    if !is_formula {
                        push_lit(
                            &mut self.buf,
                            "<div class =\"post-code\"><span class=\"post-code__language\">",
                        );
                        escape_html(&mut self.buf, &self.lang, false);
                        push_lit(&mut self.buf, "</span><code class=\"language-");
                        escape_html(&mut self.buf, &self.lang, false);
                        push_lit(&mut self.buf, "\">");
                    }
                }
            },
            Tag::List(opt) => {
                self.fresh_line();
                match opt {
                    Some(start) => {
                        if *start == 1 {
                            push_lit(&mut self.buf, "<ol>\n");
                        } else {
                            push_lit(&mut self.buf, "<ol start=\"");
                            push_dec(&mut self.buf, *start);
                            push_lit(&mut self.buf, "\">\n");
                        }
                    },
                    None => {
                        push_lit(&mut self.buf, "<ul>\n");
                    },
                }
            },
            Tag::Item => {
                self.fresh_line();
                push_lit(&mut self.buf, "<li>");
            },
            Tag::Emphasis => {
                push_lit(&mut self.buf, "<em>");
            },
            Tag::Strong => {
                push_lit(&mut self.buf, "<strong>");
            },
            Tag::Code => {
                push_lit(&mut self.buf, "<span class=\"codespan__pre-wrap\"><code>");
            },
            Tag::Link(dest, title) => {
                push_lit(&mut self.buf, "<a href=\"");
                escape_href(&mut self.buf, dest);
                if title.len() > 0 {
                    push_lit(&mut self.buf, "\" title=\"");
                    escape_html(&mut self.buf, title, false);
                }
                push_lit(&mut self.buf, "\">");
                proof {
                    assert(self.buf@ =~= old(self).buf@ + lit("<a href=\""@) + href_escaped(dest@)
                        + title_attr(title@) + lit("\">"@));
                }
            },
            Tag::Image(dest, title) => {
                push_lit(&mut self.buf, "<img src=\"");
                escape_href(&mut self.buf, dest);
                push_lit(&mut self.buf, "\" alt=\"");
                proof {
                    assert(self.buf@ =~= old(self).buf@ + lit("<img src=\""@) + href_escaped(dest@)
                        + lit("\" alt=\""@));
                }
                self.raw_text();
                if title.len() > 0 {
                    push_lit(&mut self.buf, "\" title=\"");
                    escape_html(&mut self.buf, title, false);
                }
                push_lit(&mut self.buf, "\" />");
                proof {
                    let r = raw_text_spec(
                        old(self).events@,
                        old(self).pos as int,
                        0,
                        old(self).notes@,
                        old(self).buf@ + lit("<img src=\""@) + href_escaped(dest@) + lit(
                            "\" alt=\""@,
                        ),
                    );
                    assert(self.buf@ =~= r.2 + title_attr(title@) + lit("\" />"@));
                }
            },
            Tag::FootnoteDefinition(name) => {
                self.fresh_line();
                push_lit(&mut self.buf, "<div class=\"footnote-definition\" id=\"");
                escape_html(&mut self.buf, name, false);
                push_lit(&mut self.buf, "\"><sup class=\"footnote-definition-label\">");
                let ord = self.notes.ordinal(name);
                push_dec(&mut self.buf, ord as u64);
                push_lit(&mut self.buf, "</sup>");
                proof {
                    assert(self.buf@ =~= fresh_line_spec(old(self).buf@) + lit(
                        "<div class=\"footnote-definition\" id=\""@,
                    ) + html_escaped(name@, false) + lit(
                        "\"><sup class=\"footnote-definition-label\">"@,
                    ) + dec_seq(note_ordinal(old(self).notes@, name@)) + lit("</sup>"@));
                }
            },
        }
    }

    /// Translate one end tag into its closing markup.
    fn end_tag(&mut self, tag: &Tag)
        requires
            old(self).wf(),
            old(self).cell < old(self).pos,
        ensures
            final(self).wf(),
            final(self).events == old(self).events,
            final(self).collab == old(self).collab,
            final(self).pos == old(self).pos,
            ({
                let r = end_spec(*tag, old(self).st(), old(self).buf@);
                final(self).st() == r.0 && final(self).buf@ == r.1
            }),
    {
        match tag {
            Tag::Paragraph => {
                push_lit(&mut self.buf, "</p>\n");
            },
            Tag::Rule => {},
            Tag::Header(level) => {
                push_lit(&mut self.buf, "</h");
                let d: u8 = if *level <= 207 {
                    48 + *level
                } else {
                    *level - 208
                };
                self.buf.push(d);
                push_lit(&mut self.buf, ">\n");
                proof {
                    assert(self.buf@ =~= old(self).buf@ + lit("</h"@) + seq![head_digit(*level)]
                        + lit(">\n"@));
                }
            },
            Tag::Table(_) => {
                push_lit(&mut self.buf, "</tbody></table></div>\n");
            },
            Tag::TableHead => {
                push_lit(&mut self.buf, "</thead><tbody>\n");
                self.head = false;
            },
            Tag::TableRow => {
                push_lit(&mut self.buf, "</tr>\n");
            },
            Tag::TableCell => {
                if self.head {
                    push_lit(&mut self.buf, "</th>");
                } else {
                    push_lit(&mut self.buf, "</td>");
                }
                self.cell = self.cell + 1;
            },
            Tag::BlockQuote => {
                push_lit(&mut self.buf, "</blockquote>\n");
            },
            Tag::CodeBlock(_) => {
                self.in_code = false;
                let tex = lit_vec("tex");
                let latex = lit_vec("latex");
                let is_formula = bytes_eq(&self.lang, &tex) || bytes_eq(&self.lang, &latex);
                if !is_formula {
                    push_lit(&mut self.buf, "</code></div>\n");
                }
            },
            Tag::List(opt) => {
                match opt {
                    Some(_) => {
                        push_lit(&mut self.buf, "</ol>\n");
                    },
                    None => {
                        push_lit(&mut self.buf, "</ul>\n");
                    },
                }
            },
            Tag::Item => {
                push_lit(&mut self.buf, "</li>\n");
            },
            Tag::Emphasis => {
                push_lit(&mut self.buf, "</em>");
            },
            Tag::Strong => {
                push_lit(&mut self.buf, "</strong>");
            },
            Tag::Code => {
                push_lit(&mut self.buf, "</code></span>");
            },
            Tag::Link(_, _) => {
                push_lit(&mut self.buf, "</a>");
            },
            Tag::Image(_, _) => {},
            Tag::FootnoteDefinition(_) => {
                push_lit(&mut self.buf, "</div>\n");
            },
        }
    }

    /// The renderer driver: consume the events from the cursor to the end of
    /// input, coalescing adjacent text runs and enforcing the nesting-depth
    /// guard, and leave the rendered output in the buffer.
    pub fn run(&mut self)
        requires
            old(self).wf(),
        ensures
            final(self).events == old(self).events,
            final(self).collab == old(self).collab,
            final(self).buf@ == run_spec(
                old(self).collab,
                old(self).events@,
                old(self).pos as int,
                0,
                old(self).st(),
                old(self).buf@,
            ),
    {
        let evs = self.events;
        let c = self.collab;
        let mut depth: i128 = 0;
        while self.pos < evs.len()
            invariant
                self.wf(),
                self.events == old(self).events,
                self.collab == old(self).collab,
                evs == self.events,
                c == self.collab,
                -(self.pos as int) <= depth as int,
                depth as int <= DEPTH_LIMIT as int,
                run_spec(c, evs@, old(self).pos as int, 0, old(self).st(), old(self).buf@)
                    == run_spec(c, evs@, self.pos as int, depth as int, self.st(), self.buf@),
            decreases evs@.len() - self.pos,
        {
            let ghost p0 = self.pos as int;
            let ghost d0 = depth as int;
            let ghost st0 = self.st();
            let ghost buf0 = self.buf@;
            let ev = &evs[self.pos];
            self.pos = self.pos + 1;
            match ev {
                Event::Start(tag) => {
                    if depth >= DEPTH_LIMIT as i128 {
                        self.buf.clear();
                        push_lit(&mut self.buf, "Post too deeply nested.");
                        proof {
                            assert(self.buf@ =~= deep_nesting_notice());
                        }
                        return ;
                    }
                    self.start_tag(tag);
                    depth = depth + 1;
                    proof {
                        assert(run_spec(c, evs@, p0, d0, st0, buf0) == run_spec(
                            c,
                            evs@,
                            self.pos as int,
                            depth as int,
                            self.st(),
                            self.buf@,
                        ));
                    }
                },
                Event::End(tag) => {
                    self.end_tag(tag);
                    depth = depth - 1;
                    proof {
                        assert(run_spec(c, evs@, p0, d0, st0, buf0) == run_spec(
                            c,
                            evs@,
                            self.pos as int,
                            depth as int,
                            self.st(),
                            self.buf@,
                        ));
                    }
                },
                Event::Text(t) => {
                    let mut tb: Vec<u8> = Vec::new();
                    push_bytes(&mut tb, t);
                    proof {
                        lemma_text_run_end_pos(evs@, p0);
                        lemma_text_run_end_pos(evs@, p0 + 1);
                        assert(tb@ =~= Seq::<u8>::empty() + t@);
                    }
                    while self.pos < evs.len() && is_text(&evs[self.pos])
                        invariant
                            self.wf(),
                            self.events == old(self).events,
                            self.collab == old(self).collab,
                            evs == self.events,
                            c == self.collab,
                            p0 < self.pos as int <= evs@.len(),
                            self.st() == st0,
                            self.buf@ == buf0,
                            tb@ + text_run(evs@, self.pos as int) == text_run(evs@, p0),
                            text_run_end(evs@, self.pos as int) == text_run_end(evs@, p0),
                        decreases evs@.len() - self.pos,
                    {
                        let ghost q0 = self.pos as int;
                        let ghost tb0 = tb@;
                        match &evs[self.pos] {
                            Event::Text(t2) => {
                                push_bytes(&mut tb, t2);
                                proof {
                                    assert(tb@ =~= tb0 + text_run(evs@, q0).take(t2@.len() as int));
                                    assert(text_run(evs@, q0).take(t2@.len() as int) =~= t2@);
                                    assert(tb@ + text_run(evs@, q0 + 1) =~= tb0 + text_run(
                                        evs@,
                                        q0,
                                    ));
                                }
                            },
                            _ => {
                                proof {
                                    assert(false);
                                }
                            },
                        }
                        self.pos = self.pos + 1;
                        proof {
                            lemma_text_run_end_pos(evs@, self.pos as int);
                        }
                    }
                    proof {
                        assert(text_run(evs@, self.pos as int) =~= Seq::<u8>::empty());
                        assert(tb@ =~= text_run(evs@, p0));
                        assert(self.pos as int == text_run_end(evs@, p0));
                    }
                    if self.in_code {
                        let html_l = lit_vec("html");
                        if bytes_eq(&self.lang, &html_l) {
                            let xml = lit_vec("xml");
                            let frag = c.highlight(&xml, &tb);
                            push_bytes(&mut self.buf, &frag);
                        } else {
                            let tex = lit_vec("tex");
                            let latex = lit_vec("latex");
                            if bytes_eq(&self.lang, &tex) || bytes_eq(&self.lang, &latex) {
                                push_lit(&mut self.buf, "<div data-latex=\"");
                                escape_html(&mut self.buf, &tb, false);
                                push_lit(&mut self.buf, "\"></div>");
                                proof {
                                    assert(self.buf@ =~= buf0 + (lit("<div data-latex=\""@)
                                        + html_escaped(tb@, false) + lit("\"></div>"@)));
                                }
                            } else {
                                let frag = c.highlight(&self.lang, &tb);
                                push_bytes(&mut self.buf, &frag);
                            }
                        }
                    } else {
                        let frag = c.format_text(&tb);
                        push_bytes(&mut self.buf, &frag);
                    }
                    proof {
                        assert(run_spec(c, evs@, p0, d0, st0, buf0) == run_spec(
                            c,
                            evs@,
                            self.pos as int,
                            depth as int,
                            self.st(),
                            self.buf@,
                        ));
                    }
                },
                Event::Html(h) => {
                    push_bytes(&mut self.buf, h);
                },
                Event::InlineHtml(h) => {
                    push_bytes(&mut self.buf, h);
                },
                Event::SoftBreak => {
                    self.buf.push(10);
                },
                Event::HardBreak => {
                    self.buf.push(10);
                },
                Event::FootnoteReference(name) => {
                    push_lit(&mut self.buf, "<sup class=\"footnote-reference\"><a href=\"#");
                    escape_html(&mut self.buf, name, false);
                    push_lit(&mut self.buf, "\">");
                    let ord = self.notes.ordinal(name);
                    push_dec(&mut self.buf, ord as u64);
                    push_lit(&mut self.buf, "</a></sup>");
                    proof {
                        assert(self.buf@ =~= buf0 + lit(
                            "<sup class=\"footnote-reference\"><a href=\"#"@,
                        ) + html_escaped(name@, false) + lit("\">"@) + dec_seq(
                            note_ordinal(st0.notes, name@),
                        ) + lit("</a></sup>"@));
                    }
                },
            }
        }
    }
}

/// Iterate over a sequence of events, generate HTML for each, and append it
/// to the output buffer. If the nesting guard fires, everything in the
/// buffer — the content it held before the call included — is replaced by the
/// fixed notice.
pub fn push_html<C: Collaborators>(buf: &mut Vec<u8>, events: &Vec<Event>, collab: &C)
    ensures
        final(buf)@ == run_spec(collab, events@, 0, 0, init_state(), old(buf)@),
{
    let mut moved: Vec<u8> = Vec::new();
    push_bytes(&mut moved, buf);
    proof {
        assert(moved@ =~= buf@);
    }
    let mut ctx = Ctx::new(events, collab, moved);
    ctx.run();
    let out = ctx.buf;
    *buf = out;
}

/// The render entry point: one finite event sequence in, one HTML byte string
/// out.
pub fn render<C: Collaborators>(events: &Vec<Event>, collab: &C) -> (out: Vec<u8>)
    ensures
        out@ == run_spec(collab, events@, 0, 0, init_state(), Seq::empty()),
{
    let mut out: Vec<u8> = Vec::new();
    push_html(&mut out, events, collab);
    out
}

} // verus!
