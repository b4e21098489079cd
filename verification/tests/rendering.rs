use mdsite::codegen::DateParts;
use mdsite::codegen::gen_html;
use mdsite::codegen::gen_html_now;
use mdsite::data::Elem;
use mdsite::data::HtmlText;
use mdsite::data::escape;
use mdsite::parser::parse;

fn date() -> DateParts {
    DateParts { year: 2001, month: 2, day: 3, hour: 4, minute: 5, second: 6 }
}

fn render(doc: &str, template: Vec<Elem>) -> String {
    let (title, toc, content) = parse(doc).unwrap();
    gen_html(&title, &toc, &content, &template, &date())
}

#[test]
fn plain_paragraph_escapes_angle_brackets() {
    let out = render("hello <world>", vec![Elem::Content(0)]);
    assert_eq!(out, "\n<p>hello &lt;world&gt;</p>\n");
}

#[test]
fn end_to_end_title_only_document() {
    let out = render(
        "# Title",
        vec![
            Elem::Str("<title>".to_string()),
            Elem::Title,
            Elem::Str("</title>".to_string()),
            Elem::Content(0),
        ],
    );
    assert_eq!(out, "<title>Title</title>\n");
}

#[test]
fn escaped_dollar_in_math_block_renders_literally() {
    let out = render("$$\\$$$", vec![Elem::Content(0)]);
    assert_eq!(out, "\n<p>\\[$\\]</p>\n");
}

#[test]
fn escaped_angle_bracket_drops_backslash_and_escapes() {
    let out = render("\\<", vec![Elem::Content(0)]);
    assert_eq!(out, "\n<p>&lt;</p>\n");
}

#[test]
fn date_fields_are_zero_padded() {
    let out = render(
        "x",
        vec![
            Elem::Year,
            Elem::Str("-".to_string()),
            Elem::Month,
            Elem::Str("-".to_string()),
            Elem::Day,
            Elem::Str(" ".to_string()),
            Elem::Hour,
            Elem::Str(":".to_string()),
            Elem::Minute,
            Elem::Str(":".to_string()),
            Elem::Second,
        ],
    );
    assert_eq!(out, "2001-02-03 04:05:06");
}

#[test]
fn negative_year_counts_sign_toward_width() {
    let (title, toc, content) = parse("x").unwrap();
    let d = DateParts { year: -5, month: 1, day: 1, hour: 0, minute: 0, second: 0 };
    let out = gen_html(&title, &toc, &content, &vec![Elem::Year], &d);
    assert_eq!(out, "-005");
}

#[test]
fn toc_renders_nested_links() {
    let out = render("## a\n### b\n", vec![Elem::Toc(0)]);
    assert_eq!(
        out,
        "\n<ol>\n  <li>\n    <a href=\"#a\">a</a>\n    <ol>\n      <li>\n        <a href=\"#b\">b</a>\n      </li>\n    </ol>\n  </li>\n</ol>\n"
    );
}

#[test]
fn list_renders_with_four_space_nesting() {
    let out = render("- a\n  - b\n", vec![Elem::Content(0)]);
    assert_eq!(
        out,
        "\n<ul>\n  <li>\n    a\n    <ul>\n      <li>\n        b\n      </li>\n    </ul>\n  </li>\n</ul>\n"
    );
}

#[test]
fn heading_renders_with_anchor_id() {
    let out = render("## a<b\n", vec![Elem::Content(0)]);
    assert_eq!(out, "\n<h2 id=\"a<b\">a&lt;b</h2>\n");
}

#[test]
fn blockquote_renders_lines() {
    let out = render(">>a\nb\n<<", vec![Elem::Content(2)]);
    assert_eq!(out, "\n  <blockquote>\n    <p>a</p>\n    <p>b</p>\n  </blockquote>\n");
}

#[test]
fn table_renders_head_and_body() {
    let out = render("|h|\n----\n|b|\n", vec![Elem::Content(0)]);
    assert_eq!(
        out,
        "\n<table>\n  <thead>\n    <tr>\n      <td>h</td>\n    </tr>\n  </thead>\n  <tbody>\n    <tr>\n      <td>b</td>\n    </tr>\n  </tbody>\n</table>\n"
    );
}

#[test]
fn code_block_with_empty_tag_is_plaintext() {
    let out = render("```\nx<y\n```", vec![Elem::Content(0)]);
    assert_eq!(out, "\n<pre><code class=\"language-plaintext\">x&lt;y\n</code></pre>\n");
}

#[test]
fn citation_renders_superscript_and_reference_list() {
    let out = render("a[^n<ote]\n", vec![Elem::Content(0)]);
    assert_eq!(
        out,
        "\n<p>a<sup id=\"cite-1\"><a href=\"#ref-1\">[1]</a></sup></p>\n<dl class=\"references\">\n  <dt id=\"ref-1\">[1]</dt>\n  <dd>n&lt;ote</dd>\n</dl>\n"
    );
}

#[test]
fn image_renders_caption() {
    let out = render("@[cap](p.png)", vec![Elem::Content(0)]);
    assert_eq!(
        out,
        "\n<div class=\"image\">\n  <img src=\"p.png\">\n  <p class=\"caption\">cap</p>\n</div>\n"
    );
}

#[test]
fn inline_math_and_code_escape_their_source() {
    let out = render("$x<y$`a>b`", vec![Elem::Content(0)]);
    assert_eq!(out, "\n<p>\\(x&lt;y\\)<code>a&gt;b</code></p>\n");
}

#[test]
fn escape_rewrites_only_angle_brackets() {
    assert_eq!(escape('<'), "&lt;");
    assert_eq!(escape('>'), "&gt;");
    assert_eq!(escape('a'), "a");
    assert_eq!(escape('&'), "&");
}

#[test]
fn html_text_strips_backslashes_and_escapes() {
    assert_eq!(HtmlText("\\<".to_string()).to_html(), "&lt;");
    assert_eq!(HtmlText("a\\$b".to_string()).to_html(), "a$b");
    assert_eq!(HtmlText("a\\".to_string()).to_html(), "a");
    assert_eq!(HtmlText("x<y>z".to_string()).to_html(), "x&lt;y&gt;z");
}

#[test]
fn clock_backed_month_is_two_digits_in_range() {
    let (title, toc, content) = parse("x").unwrap();
    let out = gen_html_now(&title, &toc, &content, &vec![Elem::Month]);
    assert_eq!(out.len(), 2);
    let m: u32 = out.parse().unwrap();
    assert!(1 <= m && m <= 12);
}

#[test]
fn escaped_bracket_in_link_renders_without_backslash() {
    let out = render("[a\\]b](u)", vec![Elem::Content(0)]);
    assert_eq!(out, "\n<p><a href=\"u\">a]b</a></p>\n");
}
