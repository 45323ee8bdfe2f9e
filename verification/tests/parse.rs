//! Parser tests: the grammar, error collection, and style resolution.

use froggi::markup::parse::{parse, parse_inline_styles, parse_item, parse_page_styles};
use froggi::markup::scan::{Scanner, Token, TokenKind};
use froggi::markup::style::resolve_styles;
use froggi::markup::{InlineStyle, ItemPayload, PageStyle, StyleSpec};
use froggi::{ErrorKind, ParseError};

#[test]
fn anchor() {
    let sample = r#"(# "something")"#;
    let page = parse(sample).unwrap();
    match &page.items[0].payload {
        ItemPayload::Anchor { anchor } => assert_eq!(anchor.lexeme(), b"something".to_vec()),
        _ => panic!(),
    }
}

#[test]
fn references() {
    let sample = r#"(& "image.jpg" {user-style (fg "30300") serif} "with alt" " text")"#;
    parse(sample).unwrap();

    let sample = r#"(& "somewhere")"#;
    parse(sample).unwrap();
}

#[test]
fn links() {
    let sample =
        r#"(^ "frgi://www.lipsum.com/" {footnote (fill "20")} "from frgi://www.lipsum.com/")"#;
    parse(sample).unwrap();

    let sample = r#"(^ "frgi://www.lipsum.com/" {serif })"#;
    parse(sample).unwrap();

    let sample = r#"(^ "frgi://www.lipsum.com/")"#;
    parse(sample).unwrap();
}

#[test]
fn parent_style_missing_arg() {
    let item = "(this {style (missing)} (\"multiple children?\") (doesnt-work \"why\"))";
    assert!(parse(item).is_err());
}

#[test]
fn child_style_missing_arg() {
    let item = "(this (doesnt-work {style (missing)} \"why\"))";
    assert!(parse(item).is_err());
}

#[test]
fn page_style_missing_arg() {
    let style = "{(item style (missing))}";
    assert!(parse(style).is_err());
}

#[test]
fn item_inline_style_missing_arg() {
    let item = "(item {style (missing)} \"arg\")";
    let mut scanner = Scanner::new(item);
    assert!(parse_item(&mut scanner).is_err());
}

#[test]
fn inline_style_missing_arg() {
    let style = "{inline-style (something)}";
    let mut scanner = Scanner::new(style);
    assert!(parse_inline_styles(&mut scanner).is_err());
}

#[test]
fn well_formed_page_item() {
    let item = "(box {user-style inline-style (with \"args\")} (\"children\") ({with} \"style\"))";
    parse(item).unwrap();
}

#[test]
fn ill_formed_page_styles() {
    let style = "{";
    let mut scanner = Scanner::new(style);
    assert!(parse_page_styles(&mut scanner).is_err());

    let style = "{text) serif}";
    let mut scanner = Scanner::new(style);
    assert!(parse_page_styles(&mut scanner).is_err());

    let style = "{(text) serif}";
    let mut scanner = Scanner::new(style);
    assert!(parse_page_styles(&mut scanner).is_err());

    let style = "{() (style)}";
    let mut scanner = Scanner::new(style);
    assert!(parse_page_styles(&mut scanner).is_err());

    let style = "{( (style)}";
    let mut scanner = Scanner::new(style);
    assert!(parse_page_styles(&mut scanner).is_err());

    let style = "{ (style))}";
    let mut scanner = Scanner::new(style);
    assert!(parse_page_styles(&mut scanner).is_err());

    let style = "";
    let mut scanner = Scanner::new(style);
    assert!(parse_page_styles(&mut scanner).is_err());
}

#[test]
fn well_formed_page_style() {
    let style = "{(text serif)(footnote underline (zip \"90210\"))}";
    let mut scanner = Scanner::new(style);
    let style = parse_page_styles(&mut scanner).unwrap();
    assert_eq!(
        style,
        vec![
            PageStyle {
                selector: Token::new(TokenKind::Text, 1, "text"),
                styles: vec![StyleSpec::WithoutArg {
                    name: Token::new(TokenKind::Identifier, 1, "serif"),
                }],
            },
            PageStyle {
                selector: Token::new(TokenKind::Identifier, 1, "footnote"),
                styles: vec![
                    StyleSpec::WithoutArg {
                        name: Token::new(TokenKind::Identifier, 1, "underline"),
                    },
                    StyleSpec::WithArg {
                        name: Token::new(TokenKind::Identifier, 1, "zip"),
                        arg: Token::new(TokenKind::String, 1, "\"90210\""),
                    },
                ],
            },
        ]
    );
}

#[test]
fn blob_with_styles_and_alt() {
    let page = parse(r#"(& "image.jpg" {serif (fg "303030")} "alt " "text")"#).unwrap();
    let item = &page.items[0];
    match &item.payload {
        ItemPayload::Blob { name, alt } => {
            assert_eq!(name.lexeme(), b"image.jpg".to_vec());
            assert_eq!(alt.len(), 2);
            assert_eq!(alt[0].lexeme(), b"alt ".to_vec());
            assert_eq!(alt[1].lexeme(), b"text".to_vec());
        }
        _ => panic!(),
    }
    let resolved = resolve_styles(&page.styles, &item.inline_styles).unwrap();
    assert_eq!(resolved.len(), 2);
    assert!(matches!(resolved[0], InlineStyle::Serif { .. }));
    match &resolved[1] {
        InlineStyle::Fg { arg, .. } => assert_eq!(*arg, (0x30, 0x30, 0x30)),
        _ => panic!(),
    }
}

#[test]
fn link_with_fill() {
    let page = parse(r#"(^ "frgi://x/" {(fill "20")} "click")"#).unwrap();
    let item = &page.items[0];
    match &item.payload {
        ItemPayload::Link { link, text } => {
            assert_eq!(link.lexeme(), b"frgi://x/".to_vec());
            assert_eq!(text[0].lexeme(), b"click".to_vec());
        }
        _ => panic!(),
    }
    let resolved = resolve_styles(&page.styles, &item.inline_styles).unwrap();
    match &resolved[0] {
        InlineStyle::Fill { arg, .. } => assert_eq!(*arg, 20),
        _ => panic!(),
    }
}

#[test]
fn page_styles_accepted_in_isolation() {
    // The zip style is unknown only when an item refers to it.
    let page = parse("{(text serif)(footnote underline (zip \"90210\"))}").unwrap();
    assert_eq!(page.styles.len(), 2);
    assert_eq!(page.items.len(), 0);

    let zip_ref = vec![StyleSpec::WithoutArg {
        name: Token::new(TokenKind::Identifier, 1, "zip"),
    }];
    let err = resolve_styles(&page.styles, &zip_ref).unwrap_err();
    assert!(matches!(
        err.kind(),
        ErrorKind::ParseError { error: ParseError::UnknownStyle { .. }, .. }
    ));

    let footnote_ref = vec![StyleSpec::WithoutArg {
        name: Token::new(TokenKind::Identifier, 1, "footnote"),
    }];
    let resolved = resolve_styles(&page.styles, &footnote_ref).unwrap();
    assert!(matches!(resolved[0], InlineStyle::UserDefined { .. }));
}

#[test]
fn duplicate_page_style_block() {
    // At most one page-style block is allowed; a second one is ExpectedItem.
    let errs = parse("{(a serif)} {(b serif)}").unwrap_err();
    assert!(errs.iter().any(|e| matches!(
        e.kind(),
        ErrorKind::ParseError { error: ParseError::ExpectedItem { .. }, .. }
    )));

    // An empty first block still counts as the one allowed block.
    let errs = parse("{} {}").unwrap_err();
    assert!(errs.iter().any(|e| matches!(
        e.kind(),
        ErrorKind::ParseError { error: ParseError::ExpectedItem { .. }, .. }
    )));
}

#[test]
fn page_style_block_after_item() {
    // The page-style block must come before any items.
    let errs = parse("(# \"top\") {(a serif)}").unwrap_err();
    assert!(errs.iter().any(|e| matches!(
        e.kind(),
        ErrorKind::ParseError { error: ParseError::ExpectedItem { .. }, .. }
    )));
}

#[test]
fn error_context_breadcrumbs() {
    // A fresh error carries no context; appends are comma-joined.
    let errs = parse("{text) serif}").unwrap_err();
    assert!(errs[0].context().is_some());
}

#[test]
fn error_accumulation() {
    // Two malformed items at top level yield at least two diagnostics.
    let errs = parse("(#) (#)").unwrap_err();
    assert!(errs.len() >= 2);

    // Two stray tokens yield exactly one expected-item diagnostic each.
    let errs = parse("foo bar").unwrap_err();
    assert_eq!(errs.len(), 2);
    for e in &errs {
        assert!(matches!(
            e.kind(),
            ErrorKind::ParseError { error: ParseError::ExpectedItem { .. }, .. }
        ));
    }
}

#[test]
fn recursive_styles_rejected() {
    let page = parse("{(a b)(b a)} (* {a} \"x\")").unwrap();
    let err = resolve_styles(&page.styles, &page.items[0].inline_styles).unwrap_err();
    assert!(matches!(
        err.kind(),
        ErrorKind::ParseError { error: ParseError::RecursiveStyle { .. }, .. }
    ));

    let page = parse("{(a a)} (* {a} \"x\")").unwrap();
    let err = resolve_styles(&page.styles, &page.items[0].inline_styles).unwrap_err();
    assert!(matches!(
        err.kind(),
        ErrorKind::ParseError { error: ParseError::RecursiveStyle { .. }, .. }
    ));
}

#[test]
fn number_format_errors() {
    let page = parse("(* {(fg \"zz0000\")} \"t\")").unwrap();
    let err = resolve_styles(&page.styles, &page.items[0].inline_styles).unwrap_err();
    assert!(matches!(
        err.kind(),
        ErrorKind::ParseError { error: ParseError::IncorrectNumberFormat { .. }, .. }
    ));

    let page = parse("(* {(fill \"256\")} \"t\")").unwrap();
    assert!(resolve_styles(&page.styles, &page.items[0].inline_styles).is_err());

    let page = parse("(* {(fill \"255\")} \"t\")").unwrap();
    let resolved = resolve_styles(&page.styles, &page.items[0].inline_styles).unwrap();
    assert!(matches!(resolved[0], InlineStyle::Fill { arg: 255, .. }));

    let page = parse("(* {(size \"0\")} \"t\")").unwrap();
    assert!(resolve_styles(&page.styles, &page.items[0].inline_styles).is_err());

    let page = parse("(* {(size \"65535\")} \"t\")").unwrap();
    let resolved = resolve_styles(&page.styles, &page.items[0].inline_styles).unwrap();
    assert!(matches!(resolved[0], InlineStyle::Size { arg: 65535, .. }));
}

#[test]
fn nested_boxes() {
    let page = parse("($ (* \"a\") (| (* \"b\") (* \"c\")))").unwrap();
    match &page.items[0].payload {
        ItemPayload::Children { children, .. } => {
            assert_eq!(children.len(), 2);
            match &children[1].payload {
                ItemPayload::Children { children, .. } => assert_eq!(children.len(), 2),
                _ => panic!(),
            }
        }
        _ => panic!(),
    }
}

#[test]
fn representative_page() {
    // A page in the shape the reference server serves: page styles, then a
    // mix of anchors, text, boxes, links and blobs over several lines.
    let sample = "{(text serif)(quote-box (bg \"fff8dc\") (fg \"303030\"))}\n\
        (# \"top\")\n\
        ($ {quote-box} (* {bold} \"Lorem ipsum example\") (& \"header.jpg\" \"a red toy\"))\n\
        (* \"Lorem ipsum dolor sit amet, consectetur\")\n\
        (| (* \"Contrary to popular belief, Lorem Ipsum\")\n\
           (* \"from 45 BC, making it over 2000 years old.\"))\n\
        (^ \"frgi://www.lipsum.com/\" {underline} \"from www.lipsum.com\")\n";
    let page = parse(sample).unwrap();
    assert_eq!(page.styles.len(), 2);
    assert_eq!(page.items.len(), 5);
    match &page.items[1].payload {
        ItemPayload::Children { children, line } => {
            assert_eq!(*line, 3);
            assert_eq!(children.len(), 2);
        }
        _ => panic!(),
    }
    // Every item's styles resolve against the page styles.
    for item in &page.items {
        resolve_styles(&page.styles, &item.inline_styles).unwrap();
    }
    let html = froggi::markup::to_html(&page);
    assert!(html.contains("background-color: #fff8dc;"));
    assert!(html.contains("<img src=\"header.jpg\""));
}

#[test]
fn render_smoke() {
    let page = parse(
        "{(text serif)} (# \"top\") (& \"pic.png\" \"alt\") (^ \"frgi://x/\" \"go\") (* {bold (fg \"ff8800\")} \"hello\")",
    )
    .unwrap();
    let html = froggi::markup::to_html(&page);
    assert!(html.contains("<img src=\"pic.png\""));
    assert!(html.contains("<a href=\"frgi://x/\">"));
    assert!(html.contains("color: #ff8800;"));
    assert!(html.contains("font-weight: bold;"));
    assert!(html.contains("id=\"top\""));
}
