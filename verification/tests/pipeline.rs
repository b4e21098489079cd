use mdsite::codegen::DateParts;
use mdsite::codegen::gen_html;
use mdsite::data::Block;
use mdsite::data::Elem;
use mdsite::data::Metadata;
use mdsite::data::Span;
use mdsite::multiset::MultiSet;
use mdsite::parser::parse;
use mdsite::resolve::apply_metadata;
use mdsite::resolve::card_urls;
use mdsite::resolve::link_urls;
use mdsite::template::ConfigError;
use mdsite::template::parse_template;

#[test]
fn registry_counts_repeated_keys() {
    let mut m = MultiSet::new();
    assert_eq!(m.insert("a".to_string()), 0);
    assert_eq!(m.insert("a".to_string()), 1);
    assert_eq!(m.insert("b".to_string()), 0);
    assert_eq!(m.insert("a".to_string()), 2);
    assert_eq!(m.insert("b".to_string()), 1);
}

#[test]
fn template_splits_literals_and_placeholders() {
    let t = parse_template("ab{toc}\n  {content}").unwrap();
    assert_eq!(
        t,
        vec![
            Elem::Str("ab".to_string()),
            Elem::Toc(2),
            Elem::Str("\n  ".to_string()),
            Elem::Content(2),
        ],
    );
}

#[test]
fn template_knows_all_nine_placeholders() {
    let t = parse_template("{title}{year}{month}{day}{hour}{minute}{second}{toc}{content}")
        .unwrap();
    assert_eq!(
        t,
        vec![
            Elem::Title,
            Elem::Year,
            Elem::Month,
            Elem::Day,
            Elem::Hour,
            Elem::Minute,
            Elem::Second,
            Elem::Toc(47),
            Elem::Content(52),
        ],
    );
}

#[test]
fn template_rejects_unknown_placeholder() {
    let r = parse_template("a{title}b{mystery}c");
    assert_eq!(r, Err(ConfigError::UnknownPlaceholder("mystery".to_string())));
}

#[test]
fn template_keeps_unshaped_braces_as_text() {
    let t = parse_template("{not a name}{}").unwrap();
    assert_eq!(t, vec![Elem::Str("{not a name}{}".to_string())]);
}

#[test]
fn empty_link_text_is_deferred_then_resolved() {
    let (title, toc, content) = parse("[](http://e)x").unwrap();
    assert_eq!(link_urls(&content), vec!["http://e".to_string()]);
    let titles = vec![("http://e".to_string(), "T<".to_string())];
    let cards: Vec<(String, Metadata)> = Vec::new();
    let resolved = apply_metadata(&content, &titles, &cards);
    match &resolved[0] {
        Block::Paragraph { text } => match &text.0[0] {
            Span::Link { text, url } => {
                assert_eq!(url, "http://e");
                assert_eq!(text.0, vec![Span::Text { text: "T<".to_string() }]);
            },
            other => panic!("expected link, got {:?}", other),
        },
        other => panic!("expected paragraph, got {:?}", other),
    }
    let d = DateParts { year: 2001, month: 1, day: 1, hour: 0, minute: 0, second: 0 };
    let out = gen_html(&title, &toc, &resolved, &vec![Elem::Content(0)], &d);
    assert_eq!(out, "\n<p><a href=\"http://e\">T&lt;</a>x</p>\n");
}

#[test]
fn unresolved_link_keeps_empty_text() {
    let (_, _, content) = parse("[](http://e)").unwrap();
    let titles: Vec<(String, String)> = Vec::new();
    let cards: Vec<(String, Metadata)> = Vec::new();
    let resolved = apply_metadata(&content, &titles, &cards);
    match &resolved[0] {
        Block::Paragraph { text } => match &text.0[0] {
            Span::Link { text, .. } => assert_eq!(text.0.len(), 0),
            other => panic!("expected link, got {:?}", other),
        },
        other => panic!("expected paragraph, got {:?}", other),
    }
}

#[test]
fn link_card_is_deferred_then_resolved() {
    let (_, _, content) = parse("@[cap](http://site)").unwrap();
    assert_eq!(card_urls(&content), vec!["http://site".to_string()]);
    assert_eq!(link_urls(&content), Vec::<String>::new());
    let titles: Vec<(String, String)> = Vec::new();
    let cards = vec![
        (
            "http://site".to_string(),
            Metadata {
                title: "Site".to_string(),
                image: Some("i.png".to_string()),
                description: Some("desc".to_string()),
                site_name: Some("SN".to_string()),
            },
        ),
    ];
    let resolved = apply_metadata(&content, &titles, &cards);
    match &resolved[0] {
        Block::LinkCard { title, image, url, description, site_name } => {
            assert_eq!(title, "Site");
            assert_eq!(image.as_deref(), Some("i.png"));
            assert_eq!(url, "http://site");
            assert_eq!(description.as_deref(), Some("desc"));
            assert_eq!(site_name.as_deref(), Some("SN"));
        },
        other => panic!("expected link card, got {:?}", other),
    }
}

#[test]
fn rendered_card_names_site_or_url() {
    let (title, toc, content) = parse("@[cap](http://site)").unwrap();
    let d = DateParts { year: 2001, month: 1, day: 1, hour: 0, minute: 0, second: 0 };
    let out = gen_html(&title, &toc, &content, &vec![Elem::Content(0)], &d);
    assert!(out.contains("<span  class=\"linkcard-sitename\">http://site</span>"));
    assert!(out.contains("<h3 class=\"linkcard-title\"></h3>"));
}

#[test]
fn nested_link_urls_are_found_in_order() {
    let (_, _, content) = parse("[](http://a)x\n- [](http://b)\n").unwrap();
    assert_eq!(link_urls(&content), vec!["http://a".to_string(), "http://b".to_string()]);
}
