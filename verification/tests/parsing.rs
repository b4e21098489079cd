use mdsite::data::Block;
use mdsite::data::Span;
use mdsite::data::SyntaxError;
use mdsite::parser::parse;

#[test]
fn plain_text_is_one_paragraph() {
    let (title, toc, content) = parse("hello world").unwrap();
    assert_eq!(title, "");
    assert_eq!(toc.items.len(), 0);
    assert_eq!(content.len(), 2);
    match &content[0] {
        Block::Paragraph { text } => {
            assert_eq!(text.0.len(), 1);
            match &text.0[0] {
                Span::Text { text } => assert_eq!(text, "hello world"),
                other => panic!("expected text, got {:?}", other),
            }
        },
        other => panic!("expected paragraph, got {:?}", other),
    }
    match &content[1] {
        Block::Ref(notes) => assert_eq!(notes.len(), 0),
        other => panic!("expected reference group, got {:?}", other),
    }
}

#[test]
fn level_one_heading_sets_title() {
    let (title, toc, content) = parse("# My Page").unwrap();
    assert_eq!(title, "My Page");
    assert_eq!(toc.items.len(), 0);
    // the title block is not repeated in the content
    assert_eq!(content.len(), 1);
    assert!(matches!(content[0], Block::Ref(_)));
}

#[test]
fn heading_dedup_assigns_suffixes() {
    let (_, toc, content) = parse("## a\n## a\n## a\n").unwrap();
    let ids: Vec<&str> = content
        .iter()
        .filter_map(|b| match b {
            Block::Header { id, .. } => Some(id.as_str()),
            _ => None,
        })
        .collect();
    assert_eq!(ids, vec!["a", "a-1", "a-2"]);
    assert_eq!(toc.items.len(), 3);
    match &toc.items[0].item.0[0] {
        Span::Link { url, .. } => assert_eq!(url, "#a"),
        other => panic!("expected link, got {:?}", other),
    }
    match &toc.items[2].item.0[0] {
        Span::Link { url, .. } => assert_eq!(url, "#a-2"),
        other => panic!("expected link, got {:?}", other),
    }
}

#[test]
fn toc_nests_by_level() {
    let (_, toc, _) = parse("## a\n### b\n## c\n").unwrap();
    assert_eq!(toc.items.len(), 2);
    assert_eq!(toc.items[0].list.items.len(), 1);
    match &toc.items[0].list.items[0].item.0[0] {
        Span::Link { url, .. } => assert_eq!(url, "#b"),
        other => panic!("expected link, got {:?}", other),
    }
}

#[test]
fn heading_skip_is_rejected() {
    let r = parse("## a\n#### b\n");
    assert_eq!(r, Err(SyntaxError::HeadingSkip));
}

#[test]
fn footnote_ids_increase_across_groups() {
    let (_, _, content) = parse("x[^one]y\n[^]\nz[^two][^three]\n").unwrap();
    let mut groups: Vec<Vec<usize>> = Vec::new();
    for b in &content {
        if let Block::Ref(notes) = b {
            groups.push(notes.iter().map(|n| n.1).collect());
        }
    }
    assert_eq!(groups, vec![vec![1], vec![2, 3]]);
}

#[test]
fn list_nesting_two_space_indent() {
    let (_, _, content) = parse("- a\n  - b\n- c").unwrap();
    match &content[0] {
        Block::ListBlock(l) => {
            assert!(!l.ordered);
            assert_eq!(l.items.len(), 2);
            match &l.items[0].item.0[0] {
                Span::Text { text } => assert_eq!(text, "a"),
                other => panic!("expected text, got {:?}", other),
            }
            assert_eq!(l.items[0].list.items.len(), 1);
            match &l.items[0].list.items[0].item.0[0] {
                Span::Text { text } => assert_eq!(text, "b"),
                other => panic!("expected text, got {:?}", other),
            }
            assert_eq!(l.items[1].list.items.len(), 0);
            match &l.items[1].item.0[0] {
                Span::Text { text } => assert_eq!(text, "c"),
                other => panic!("expected text, got {:?}", other),
            }
        },
        other => panic!("expected list, got {:?}", other),
    }
}

#[test]
fn mixed_markers_keep_last_kind() {
    let (_, _, content) = parse("- a\n+ b\n").unwrap();
    match &content[0] {
        Block::ListBlock(l) => {
            assert!(l.ordered);
            assert_eq!(l.items.len(), 2);
        },
        other => panic!("expected list, got {:?}", other),
    }
}

#[test]
fn table_rows_split_at_separator() {
    let (_, _, content) = parse("|h1|h2|\n----\n|b1|b2|\n").unwrap();
    match &content[0] {
        Block::Table { head, body } => {
            assert_eq!(head.len(), 1);
            assert_eq!(body.len(), 1);
            assert_eq!(head[0].len(), 2);
            assert_eq!(body[0].len(), 2);
            match &head[0][0].0[0] {
                Span::Text { text } => assert_eq!(text, "h1"),
                other => panic!("expected text, got {:?}", other),
            }
            match &body[0][1].0[0] {
                Span::Text { text } => assert_eq!(text, "b2"),
                other => panic!("expected text, got {:?}", other),
            }
        },
        other => panic!("expected table, got {:?}", other),
    }
}

#[test]
fn math_block_keeps_escaped_dollar() {
    let (_, _, content) = parse("$$\\$$$").unwrap();
    match &content[0] {
        Block::MathBlock { math } => assert_eq!(math, "\\$"),
        other => panic!("expected math block, got {:?}", other),
    }
}

#[test]
fn code_block_takes_language_tag() {
    let (_, _, content) = parse("```rust\nlet x;\n```").unwrap();
    match &content[0] {
        Block::CodeBlock { lang, code } => {
            assert_eq!(lang, "rust");
            assert_eq!(code, "let x;\n");
        },
        other => panic!("expected code block, got {:?}", other),
    }
}

#[test]
fn blockquote_collects_lines() {
    let (_, _, content) = parse(">>a\nb\n<<").unwrap();
    match &content[0] {
        Block::Blockquote { lines } => {
            assert_eq!(lines.len(), 2);
            match &lines[0].0[0] {
                Span::Text { text } => assert_eq!(text, "a"),
                other => panic!("expected text, got {:?}", other),
            }
        },
        other => panic!("expected blockquote, got {:?}", other),
    }
}

#[test]
fn embed_with_raster_suffix_is_image() {
    let (_, _, content) = parse("@[cap](pic.png)").unwrap();
    match &content[0] {
        Block::Image { title, url } => {
            assert_eq!(url, "pic.png");
            match &title.0[0] {
                Span::Text { text } => assert_eq!(text, "cap"),
                other => panic!("expected text, got {:?}", other),
            }
        },
        other => panic!("expected image, got {:?}", other),
    }
}

#[test]
fn embed_without_raster_suffix_is_unresolved_card() {
    let (_, _, content) = parse("@[cap](http://site)").unwrap();
    match &content[0] {
        Block::LinkCard { title, image, url, description, site_name } => {
            assert_eq!(title, "");
            assert_eq!(*image, None);
            assert_eq!(url, "http://site");
            assert_eq!(*description, None);
            assert_eq!(*site_name, None);
        },
        other => panic!("expected link card, got {:?}", other),
    }
}

#[test]
fn inline_spans_parse() {
    let (_, _, content) = parse("**b**__i__$m$`c`[t](u)").unwrap();
    match &content[0] {
        Block::Paragraph { text } => {
            assert_eq!(text.0.len(), 5);
            assert!(matches!(&text.0[0], Span::Bold { .. }));
            assert!(matches!(&text.0[1], Span::Ital { .. }));
            match &text.0[2] {
                Span::Math { math } => assert_eq!(math, "m"),
                other => panic!("expected math, got {:?}", other),
            }
            match &text.0[3] {
                Span::Code { code } => assert_eq!(code, "c"),
                other => panic!("expected code, got {:?}", other),
            }
            match &text.0[4] {
                Span::Link { url, .. } => assert_eq!(url, "u"),
                other => panic!("expected link, got {:?}", other),
            }
        },
        other => panic!("expected paragraph, got {:?}", other),
    }
}

#[test]
fn unterminated_bold_reports_delimiters() {
    let r = parse("**a");
    assert_eq!(r, Err(SyntaxError::Expect(vec!["**".to_string()])));
}

#[test]
fn unterminated_inline_math_reports_delimiters() {
    let r = parse("$x");
    assert_eq!(r, Err(SyntaxError::Expect(vec!["$".to_string()])));
}

#[test]
fn unterminated_blockquote_reports_delimiters() {
    let r = parse(">>a\n");
    assert_eq!(r, Err(SyntaxError::Expect(vec!["<<".to_string()])));
}

#[test]
fn heading_anchor_descends_into_styling() {
    let (_, _, content) = parse("## **T**\n").unwrap();
    match &content[0] {
        Block::Header { id, level, .. } => {
            assert_eq!(*level, 2);
            assert_eq!(id, "T");
        },
        other => panic!("expected heading, got {:?}", other),
    }
}

#[test]
fn stray_special_character_is_literal_text() {
    let (_, _, content) = parse("a|b").unwrap();
    match &content[0] {
        Block::Paragraph { text } => {
            let joined: String = text
                .0
                .iter()
                .map(|sp| match sp {
                    Span::Text { text } => text.clone(),
                    other => panic!("expected text, got {:?}", other),
                })
                .collect();
            assert_eq!(joined, "a|b");
        },
        other => panic!("expected paragraph, got {:?}", other),
    }
}

#[test]
fn carriage_return_line_breaks_split_paragraphs() {
    let (_, _, content) = parse("a\r\nb").unwrap();
    assert_eq!(content.len(), 3);
    assert!(matches!(content[0], Block::Paragraph { .. }));
    assert!(matches!(content[1], Block::Paragraph { .. }));
    assert!(matches!(content[2], Block::Ref(_)));
}

#[test]
fn escaped_bracket_survives_into_link_text() {
    let (_, _, content) = parse("[a\\]b](u)").unwrap();
    match &content[0] {
        Block::Paragraph { text } => match &text.0[0] {
            Span::Link { text, url } => {
                assert_eq!(url, "u");
                match &text.0[0] {
                    Span::Text { text } => assert_eq!(text, "a\\]b"),
                    other => panic!("expected text, got {:?}", other),
                }
            },
            other => panic!("expected link, got {:?}", other),
        },
        other => panic!("expected paragraph, got {:?}", other),
    }
}

#[test]
fn escaped_dollar_survives_into_inline_math() {
    let (_, _, content) = parse("$a\\$b$").unwrap();
    match &content[0] {
        Block::Paragraph { text } => match &text.0[0] {
            Span::Math { math } => assert_eq!(math, "a\\$b"),
            other => panic!("expected math, got {:?}", other),
        },
        other => panic!("expected paragraph, got {:?}", other),
    }
}
