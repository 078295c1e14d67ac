use mdhtml::collab::PlainCollaborators;
use mdhtml::events::{Align, Event, Tag};
use mdhtml::render::{push_html, render};

fn b(s: &str) -> Vec<u8> {
    s.as_bytes().to_vec()
}

fn r(events: Vec<Event>) -> String {
    String::from_utf8(render(&events, &PlainCollaborators)).unwrap()
}

#[test]
fn paragraph_text() {
    let out = r(vec![
        Event::Start(Tag::Paragraph),
        Event::Text(b("hello")),
        Event::End(Tag::Paragraph),
    ]);
    assert_eq!(out, "<p>hello</p>\n");
}

#[test]
fn adjacent_text_events_coalesce() {
    let out = r(vec![
        Event::Start(Tag::Paragraph),
        Event::Text(b("al")),
        Event::Text(b("ph")),
        Event::Text(b("a")),
        Event::End(Tag::Paragraph),
    ]);
    assert_eq!(out, "<p>alpha</p>\n");
}

#[test]
fn body_text_is_escaped() {
    let out = r(vec![
        Event::Start(Tag::Paragraph),
        Event::Text(b("a<b & \"c\">d/e")),
        Event::End(Tag::Paragraph),
    ]);
    assert_eq!(out, "<p>a&lt;b &amp; &quot;c&quot;&gt;d/e</p>\n");
}

#[test]
fn heading_levels_and_fresh_line() {
    let out = r(vec![
        Event::Start(Tag::Emphasis),
        Event::Text(b("x")),
        Event::End(Tag::Emphasis),
        Event::Start(Tag::Header(2)),
        Event::Text(b("title")),
        Event::End(Tag::Header(2)),
    ]);
    assert_eq!(out, "<em>x</em>\n<h2 class=\"markdown__heading\">title</h2>\n");
}

#[test]
fn rule_blockquote_item_markup() {
    let out = r(vec![
        Event::Start(Tag::Rule),
        Event::End(Tag::Rule),
        Event::Start(Tag::BlockQuote),
        Event::Start(Tag::Paragraph),
        Event::Text(b("q")),
        Event::End(Tag::Paragraph),
        Event::End(Tag::BlockQuote),
    ]);
    assert_eq!(out, "<hr />\n<blockquote>\n<p>q</p>\n</blockquote>\n");
}

#[test]
fn inline_spans() {
    let out = r(vec![
        Event::Start(Tag::Strong),
        Event::Text(b("s")),
        Event::End(Tag::Strong),
        Event::Start(Tag::Code),
        Event::Text(b("c")),
        Event::End(Tag::Code),
    ]);
    assert_eq!(
        out,
        "<strong>s</strong><span class=\"codespan__pre-wrap\"><code>c</code></span>"
    );
}

#[test]
fn raw_html_passes_through_verbatim() {
    let out = r(vec![
        Event::Html(b("<script>1</script>")),
        Event::InlineHtml(b("<br>")),
    ]);
    assert_eq!(out, "<script>1</script><br>");
}

#[test]
fn breaks_render_as_newlines() {
    let out = r(vec![
        Event::Text(b("a")),
        Event::SoftBreak,
        Event::Text(b("b")),
        Event::HardBreak,
        Event::Text(b("c")),
    ]);
    assert_eq!(out, "a\nb\nc");
}

#[test]
fn footnote_ordinals_by_first_sighting() {
    let out = r(vec![
        Event::FootnoteReference(b("b")),
        Event::FootnoteReference(b("a")),
        Event::FootnoteReference(b("b")),
    ]);
    assert_eq!(
        out,
        "<sup class=\"footnote-reference\"><a href=\"#b\">1</a></sup>\
         <sup class=\"footnote-reference\"><a href=\"#a\">2</a></sup>\
         <sup class=\"footnote-reference\"><a href=\"#b\">1</a></sup>"
    );
}

#[test]
fn footnote_definition_shares_numbering_with_references() {
    let out = r(vec![
        Event::FootnoteReference(b("x")),
        Event::Start(Tag::FootnoteDefinition(b("x"))),
        Event::Start(Tag::Paragraph),
        Event::Text(b("note")),
        Event::End(Tag::Paragraph),
        Event::End(Tag::FootnoteDefinition(b("x"))),
    ]);
    assert_eq!(
        out,
        "<sup class=\"footnote-reference\"><a href=\"#x\">1</a></sup>\n\
         <div class=\"footnote-definition\" id=\"x\"><sup class=\"footnote-definition-label\">1</sup>\n\
         <p>note</p>\n</div>\n"
    );
}

#[test]
fn table_alignment_attributes_per_row() {
    let cells = |texts: [&str; 3]| -> Vec<Event> {
        let mut v = Vec::new();
        for t in texts {
            v.push(Event::Start(Tag::TableCell));
            v.push(Event::Text(b(t)));
            v.push(Event::End(Tag::TableCell));
        }
        v
    };
    let mut events = vec![
        Event::Start(Tag::Table(vec![Align::Left, Align::Unset, Align::Right])),
        Event::Start(Tag::TableHead),
    ];
    events.extend(cells(["a", "b", "c"]));
    events.push(Event::End(Tag::TableHead));
    events.push(Event::Start(Tag::TableRow));
    events.extend(cells(["1", "2", "3"]));
    events.push(Event::End(Tag::TableRow));
    events.push(Event::Start(Tag::TableRow));
    events.extend(cells(["4", "5", "6"]));
    events.push(Event::End(Tag::TableRow));
    events.push(Event::End(Tag::Table(vec![
        Align::Left,
        Align::Unset,
        Align::Right,
    ])));
    let out = r(events);
    assert_eq!(
        out,
        "<div class=\"table-responsive\"><table class=\"markdown__table\">\
         <thead><th align=\"left\">a</th><th>b</th><th align=\"right\">c</th></thead><tbody>\n\
         <tr><td align=\"left\">1</td><td>2</td><td align=\"right\">3</td></tr>\n\
         <tr><td align=\"left\">4</td><td>5</td><td align=\"right\">6</td></tr>\n\
         </tbody></table></div>\n"
    );
}

#[test]
fn nesting_guard_yields_fixed_notice() {
    let mut events = Vec::new();
    for _ in 0..101 {
        events.push(Event::Start(Tag::Paragraph));
    }
    let out = r(events);
    assert_eq!(out, "Post too deeply nested.");
}

#[test]
fn nesting_guard_fires_whatever_follows() {
    let mut events = Vec::new();
    for _ in 0..150 {
        events.push(Event::Start(Tag::Paragraph));
    }
    events.push(Event::Text(b("deep")));
    let out = r(events);
    assert_eq!(out, "Post too deeply nested.");
}

#[test]
fn nesting_guard_discards_prior_buffer_content() {
    let mut events = Vec::new();
    for _ in 0..101 {
        events.push(Event::Start(Tag::BlockQuote));
    }
    events.push(Event::Text(b("deep")));
    let mut buf = b("already rendered");
    push_html(&mut buf, &events, &PlainCollaborators);
    assert_eq!(buf, b("Post too deeply nested."));
}

#[test]
fn hundred_nested_starts_render_normally() {
    let mut events = Vec::new();
    for _ in 0..100 {
        events.push(Event::Start(Tag::Emphasis));
    }
    events.push(Event::Text(b("x")));
    for _ in 0..100 {
        events.push(Event::End(Tag::Emphasis));
    }
    let out = r(events);
    assert_eq!(out, "<em>".repeat(100) + "x" + &"</em>".repeat(100));
}

#[test]
fn ordered_list_start_five_gets_attribute() {
    let out = r(vec![
        Event::Start(Tag::List(Some(5))),
        Event::Start(Tag::Item),
        Event::Text(b("x")),
        Event::End(Tag::Item),
        Event::End(Tag::List(Some(5))),
    ]);
    assert_eq!(out, "<ol start=\"5\">\n<li>x</li>\n</ol>\n");
}

#[test]
fn ordered_list_start_one_gets_no_attribute() {
    let out = r(vec![
        Event::Start(Tag::List(Some(1))),
        Event::Start(Tag::Item),
        Event::Text(b("x")),
        Event::End(Tag::Item),
        Event::End(Tag::List(Some(1))),
    ]);
    assert_eq!(out, "<ol>\n<li>x</li>\n</ol>\n");
}

#[test]
fn unordered_list() {
    let out = r(vec![
        Event::Start(Tag::List(None)),
        Event::Start(Tag::Item),
        Event::Text(b("x")),
        Event::End(Tag::Item),
        Event::End(Tag::List(None)),
    ]);
    assert_eq!(out, "<ul>\n<li>x</li>\n</ul>\n");
}

#[test]
fn href_escaping_in_link() {
    let out = r(vec![
        Event::Start(Tag::Link(b("a&b'c <d>"), b(""))),
        Event::Text(b("x")),
        Event::End(Tag::Link(b(""), b(""))),
    ]);
    assert_eq!(out, "<a href=\"a&amp;b&#x27;c%20%3Cd%3E\">x</a>");
}

#[test]
fn link_title_is_escaped() {
    let out = r(vec![
        Event::Start(Tag::Link(b("u"), b("t\"&"))),
        Event::Text(b("x")),
        Event::End(Tag::Link(b(""), b(""))),
    ]);
    assert_eq!(out, "<a href=\"u\" title=\"t&quot;&amp;\">x</a>");
}

#[test]
fn image_alt_flattens_nested_content() {
    let out = r(vec![
        Event::Start(Tag::Image(b("u"), b(""))),
        Event::Start(Tag::Emphasis),
        Event::Text(b("cat")),
        Event::End(Tag::Emphasis),
        Event::End(Tag::Image(b(""), b(""))),
    ]);
    assert_eq!(out, "<img src=\"u\" alt=\"cat\" />");
}

#[test]
fn image_alt_escapes_and_numbers_footnotes() {
    let out = r(vec![
        Event::Start(Tag::Image(b("u"), b("t"))),
        Event::Text(b("a")),
        Event::SoftBreak,
        Event::InlineHtml(b("<b>")),
        Event::Html(b("<div>")),
        Event::FootnoteReference(b("z")),
        Event::End(Tag::Image(b(""), b(""))),
        Event::FootnoteReference(b("z")),
    ]);
    assert_eq!(
        out,
        "<img src=\"u\" alt=\"a &lt;b&gt;[1]\" title=\"t\" />\
         <sup class=\"footnote-reference\"><a href=\"#z\">1</a></sup>"
    );
}

#[test]
fn labeled_code_block_takes_first_token_of_info() {
    let out = r(vec![
        Event::Start(Tag::CodeBlock(b("rust ignore"))),
        Event::Text(b("let a = \"<\";")),
        Event::End(Tag::CodeBlock(b("rust ignore"))),
    ]);
    assert_eq!(
        out,
        "<div class =\"post-code\"><span class=\"post-code__language\">rust</span>\
         <code class=\"language-rust\">let a = &quot;&lt;&quot;;</code></div>\n"
    );
}

#[test]
fn unlabeled_code_block_gets_generic_wrapper() {
    let out = r(vec![
        Event::Start(Tag::CodeBlock(b(""))),
        Event::Text(b("plain")),
        Event::End(Tag::CodeBlock(b(""))),
    ]);
    assert_eq!(
        out,
        "<div class=\"post-code post-code--wrap\"><code class=\"hljs\">plain</code></div>\n"
    );
}

#[test]
fn latex_code_block_becomes_formula_element() {
    let out = r(vec![
        Event::Start(Tag::CodeBlock(b("tex"))),
        Event::Text(b("x^2 \"y\"")),
        Event::End(Tag::CodeBlock(b("tex"))),
    ]);
    assert_eq!(out, "<div data-latex=\"x^2 &quot;y&quot;\"></div>");
}

#[test]
fn html_code_block_keeps_html_label() {
    let out = r(vec![
        Event::Start(Tag::CodeBlock(b("html"))),
        Event::Text(b("<p>")),
        Event::End(Tag::CodeBlock(b("html"))),
    ]);
    assert_eq!(
        out,
        "<div class =\"post-code\"><span class=\"post-code__language\">html</span>\
         <code class=\"language-html\">&lt;p&gt;</code></div>\n"
    );
}

#[test]
fn push_html_appends_to_existing_buffer() {
    let mut buf = b("before");
    push_html(
        &mut buf,
        &vec![
            Event::Start(Tag::Paragraph),
            Event::Text(b("x")),
            Event::End(Tag::Paragraph),
        ],
        &PlainCollaborators,
    );
    assert_eq!(buf, b("before\n<p>x</p>\n"));
}

#[test]
fn empty_input_renders_empty() {
    assert_eq!(r(vec![]), "");
}

#[test]
fn escape_html_secure_flag_escapes_slash() {
    let mut ob: Vec<u8> = Vec::new();
    mdhtml::escape::escape_html(&mut ob, &b("a/b\"c"), true);
    assert_eq!(ob, b("a&#47;b&quot;c"));
    let mut ob2: Vec<u8> = Vec::new();
    mdhtml::escape::escape_html(&mut ob2, &b("a/b\"c"), false);
    assert_eq!(ob2, b("a/b&quot;c"));
}

#[test]
fn escape_href_percent_encodes_multibyte_characters() {
    let mut ob: Vec<u8> = Vec::new();
    mdhtml::escape::escape_href(&mut ob, &b("caf\u{e9}?q=1"));
    assert_eq!(ob, b("caf%C3%A9?q=1"));
}

#[test]
fn escape_href_keeps_safe_punctuation() {
    let mut ob: Vec<u8> = Vec::new();
    mdhtml::escape::escape_href(&mut ob, &b("http://a.b/c-d_e.f?g=h&i='j`"));
    assert_eq!(ob, b("http://a.b/c-d_e.f?g=h&amp;i=&#x27;j%60"));
}

#[test]
fn ordered_list_multi_digit_start() {
    let out = r(vec![
        Event::Start(Tag::List(Some(5070))),
        Event::Start(Tag::Item),
        Event::Text(b("x")),
        Event::End(Tag::Item),
        Event::End(Tag::List(Some(5070))),
    ]);
    assert_eq!(out, "<ol start=\"5070\">\n<li>x</li>\n</ol>\n");
}

#[test]
fn footnote_name_is_escaped_in_markup() {
    let out = r(vec![Event::FootnoteReference(b("a\"<b>"))]);
    assert_eq!(
        out,
        "<sup class=\"footnote-reference\"><a href=\"#a&quot;&lt;b&gt;\">1</a></sup>"
    );
}

#[test]
fn code_block_label_is_escaped() {
    let out = r(vec![
        Event::Start(Tag::CodeBlock(b("a<b"))),
        Event::Text(b("x")),
        Event::End(Tag::CodeBlock(b("a<b"))),
    ]);
    assert_eq!(
        out,
        "<div class =\"post-code\"><span class=\"post-code__language\">a&lt;b</span>\
         <code class=\"language-a&lt;b\">x</code></div>\n"
    );
}

#[test]
fn nesting_guard_counts_starts_minus_ends() {
    let mut events = Vec::new();
    for _ in 0..100 {
        events.push(Event::Start(Tag::Emphasis));
    }
    events.push(Event::End(Tag::Emphasis));
    events.push(Event::Start(Tag::Emphasis));
    events.push(Event::Start(Tag::Emphasis));
    let out = r(events);
    assert_eq!(out, "Post too deeply nested.");
}
