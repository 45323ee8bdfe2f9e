//! FML markup: scanner, parser, page AST and style resolution.

pub mod parse;
pub mod scan;
pub mod style;

use scan::{Token, TokenKind};
use vstd::prelude::*;
use vstd::string::StringExecFns;

verus! {

/// A parsed page: the page-wide style rules and the ordered page items.
#[derive(Debug, PartialEq)]
pub struct Page {
    pub styles: Vec<PageStyle>,
    pub items: Vec<PageItem>,
}

/// One page-wide style rule: a selector and the styles it applies.
#[derive(Debug, PartialEq)]
pub struct PageStyle {
    pub selector: Token,
    pub styles: Vec<StyleSpec>,
}

/// A style as it appears in the source: a bare name, or a name with one
/// string argument.
#[derive(Debug, PartialEq)]
pub enum StyleSpec {
    WithoutArg { name: Token },
    WithArg { name: Token, arg: Token },
}

/// One item of a page: a built-in kind token, its inline styles, and a
/// payload that depends on the built-in.
#[derive(Debug, PartialEq)]
pub struct PageItem {
    pub builtin: Token,
    pub inline_styles: Vec<StyleSpec>,
    pub payload: ItemPayload,
}

#[derive(Debug, PartialEq)]
pub enum ItemPayload {
    Text { text: Vec<Token> },
    Children { children: Vec<PageItem>, line: usize },
    Link { link: Token, text: Vec<Token> },
    Blob { name: Token, alt: Vec<Token> },
    Anchor { anchor: Token },
}

/// A resolved inline style: one of the built-in styles with its typed
/// argument, or a reference to a page-style selector.
#[derive(Debug, PartialEq)]
pub enum InlineStyle {
    Mono { token: Token },
    Serif { token: Token },
    Sans { token: Token },
    Bold { token: Token },
    Italic { token: Token },
    Underline { token: Token },
    Strike { token: Token },
    Fg { token: Token, arg: (u8, u8, u8) },
    Bg { token: Token, arg: (u8, u8, u8) },
    Fill { token: Token, arg: u8 },
    Size { token: Token, arg: usize },
    UserDefined { token: Token },
}

// ---------------------------------------------------------------------------
// Well-formedness of the AST that the parser yields
// ---------------------------------------------------------------------------

/// Token kinds that may stand as a page-style selector.
pub open spec fn selector_kind(k: TokenKind) -> bool {
    ||| k == TokenKind::Identifier
    ||| k == TokenKind::Link
    ||| k == TokenKind::Box
    ||| k == TokenKind::VBox
    ||| k == TokenKind::Text
}

/// Tokens that may stand as a page-style selector.
pub open spec fn selector_wf(t: Token) -> bool {
    selector_kind(t.kind)
}

pub open spec fn style_spec_wf(s: StyleSpec) -> bool {
    match s {
        StyleSpec::WithoutArg { name } => name.kind == TokenKind::Identifier,
        StyleSpec::WithArg { name, arg } => name.kind == TokenKind::Identifier && arg.kind
            == TokenKind::String,
    }
}

pub open spec fn styles_wf(styles: Seq<StyleSpec>) -> bool {
    forall|i: int| 0 <= i < styles.len() ==> style_spec_wf(#[trigger] styles[i])
}

pub open spec fn text_tokens_wf(text: Seq<Token>) -> bool {
    forall|i: int| 0 <= i < text.len() ==> (#[trigger] text[i]).kind == TokenKind::String
}

pub open spec fn page_style_wf(p: PageStyle) -> bool {
    selector_wf(p.selector) && styles_wf(p.styles@)
}

/// The payload of a well-formed item agrees with its built-in kind, its
/// string payloads are string tokens, and an anchor carries no styles.
pub open spec fn item_wf(item: PageItem) -> bool
    decreases item,
{
    &&& styles_wf(item.inline_styles@)
    &&& match item.payload {
        ItemPayload::Text { text } => (item.builtin.kind == TokenKind::Text || item.builtin.kind
            == TokenKind::ImplicitText) && text_tokens_wf(text@),
        ItemPayload::Children { children, line } => (item.builtin.kind == TokenKind::VBox
            || item.builtin.kind == TokenKind::Box) && forall|i: int|
            0 <= i < children@.len() ==> item_wf(#[trigger] children@[i]),
        ItemPayload::Link { link, text } => item.builtin.kind == TokenKind::Link && link.kind
            == TokenKind::String && text_tokens_wf(text@),
        ItemPayload::Blob { name, alt } => item.builtin.kind == TokenKind::Blob && name.kind
            == TokenKind::String && text_tokens_wf(alt@),
        ItemPayload::Anchor { anchor } => item.builtin.kind == TokenKind::Anchor && anchor.kind
            == TokenKind::String && item.inline_styles@.len() == 0,
    }
}

pub open spec fn page_wf(p: Page) -> bool {
    &&& forall|i: int| 0 <= i < p.styles@.len() ==> page_style_wf(#[trigger] p.styles@[i])
    &&& forall|i: int| 0 <= i < p.items@.len() ==> item_wf(#[trigger] p.items@[i])
}


// ---------------------------------------------------------------------------
// Rendering to HTML (informative: not part of the protocol contract)
// ---------------------------------------------------------------------------

/// Append the bytes of a string literal.
fn push_str_bytes(out: &mut Vec<u8>, s: &str) {
    let b = s.as_bytes();
    let mut i: usize = 0;
    while i < b.len()
        decreases b@.len() - i,
    {
        out.push(b[i]);
        i = i + 1;
    }
}

/// Append a byte string.
fn push_bytes(out: &mut Vec<u8>, b: &Vec<u8>) {
    let mut i: usize = 0;
    while i < b.len()
        decreases b@.len() - i,
    {
        out.push(b[i]);
        i = i + 1;
    }
}

/// Append one byte as two lower-case hex digits.
fn push_hex_byte(out: &mut Vec<u8>, v: u8) {
    let hi = v / 16;
    let lo = v % 16;
    out.push(if hi < 10 { hi + '0' as u8 } else { hi - 10 + 'a' as u8 });
    out.push(if lo < 10 { lo + '0' as u8 } else { lo - 10 + 'a' as u8 });
}

/// Append a number in decimal.
fn push_dec(out: &mut Vec<u8>, v: usize) {
    let mut digits: Vec<u8> = Vec::new();
    let mut n = v;
    if n == 0 {
        out.push('0' as u8);
        return;
    }
    while n > 0
        decreases n,
    {
        digits.push((n % 10) as u8 + '0' as u8);
        n = n / 10;
    }
    let mut i = digits.len();
    while i > 0
        invariant
            i <= digits.len(),
        decreases i,
    {
        i = i - 1;
        out.push(digits[i]);
    }
}

/// The CSS text of one resolved inline style; a user-defined reference
/// yields nothing here, it becomes a class name instead.
fn inline_style_to_html(style: &InlineStyle) -> Vec<u8> {
    let mut out: Vec<u8> = Vec::new();
    match style {
        InlineStyle::Mono { .. } => push_str_bytes(&mut out, "font-family: monospace;"),
        InlineStyle::Serif { .. } => push_str_bytes(&mut out, "font-family: serif;"),
        InlineStyle::Sans { .. } => push_str_bytes(&mut out, "font-family: sans-serif;"),
        InlineStyle::Bold { .. } => push_str_bytes(&mut out, "font-weight: bold;"),
        InlineStyle::Italic { .. } => push_str_bytes(&mut out, "font-style: italic;"),
        InlineStyle::Underline { .. } => push_str_bytes(&mut out, "text-decoration: underline;"),
        InlineStyle::Strike { .. } => push_str_bytes(&mut out, "text-decoration: line-through;"),
        InlineStyle::Fg { arg, .. } => {
            push_str_bytes(&mut out, "color: #");
            push_hex_byte(&mut out, arg.0);
            push_hex_byte(&mut out, arg.1);
            push_hex_byte(&mut out, arg.2);
            push_str_bytes(&mut out, ";");
        },
        InlineStyle::Bg { arg, .. } => {
            push_str_bytes(&mut out, "background-color: #");
            push_hex_byte(&mut out, arg.0);
            push_hex_byte(&mut out, arg.1);
            push_hex_byte(&mut out, arg.2);
            push_str_bytes(&mut out, ";");
        },
        InlineStyle::Fill { arg, .. } => {
            push_str_bytes(&mut out, "flex-grow: ");
            push_dec(&mut out, *arg as usize);
            push_str_bytes(&mut out, ";");
        },
        InlineStyle::Size { arg, .. } => {
            push_str_bytes(&mut out, "font-size: ");
            push_dec(&mut out, *arg);
            push_str_bytes(&mut out, "px;");
        },
        InlineStyle::UserDefined { .. } => {},
    }
    out
}

/// The class and style attributes of one item's style list.
fn style_list_to_html(
    page_styles: &Vec<PageStyle>,
    specs: &Vec<StyleSpec>,
    flex_column: bool,
) -> Vec<u8> {
    let mut html: Vec<u8> = Vec::new();
    let mut classes: Vec<Vec<u8>> = Vec::new();
    let mut styles: Vec<Vec<u8>> = Vec::new();
    match crate::markup::style::resolve_styles(page_styles, specs) {
        Err(_) => {},
        Ok(resolved) => {
            let mut i: usize = 0;
            while i < resolved.len()
                decreases resolved@.len() - i,
            {
                match &resolved[i] {
                    InlineStyle::UserDefined { token } => {
                        classes.push(token.lexeme());
                    },
                    other => {
                        styles.push(inline_style_to_html(other));
                    },
                }
                i = i + 1;
            }
        },
    }
    if classes.len() > 0 {
        push_str_bytes(&mut html, " class=\"");
        let mut i: usize = 0;
        while i < classes.len()
            decreases classes@.len() - i,
        {
            push_bytes(&mut html, &classes[i]);
            if i + 1 < classes.len() {
                push_str_bytes(&mut html, " ");
            }
            i = i + 1;
        }
        push_str_bytes(&mut html, "\"");
    }
    if styles.len() > 0 {
        push_str_bytes(&mut html, " style=\"");
        if flex_column {
            push_str_bytes(&mut html, "flex-direction: column;");
        }
        let mut i: usize = 0;
        while i < styles.len()
            decreases styles@.len() - i,
        {
            push_bytes(&mut html, &styles[i]);
            if i + 1 < styles.len() {
                push_str_bytes(&mut html, " ");
            }
            i = i + 1;
        }
        push_str_bytes(&mut html, "\"");
    } else if flex_column {
        push_str_bytes(&mut html, " style=\"flex-direction: column;\"");
    }
    html
}

/// The HTML of one page item and, for boxes, of its nested items.
fn page_item_to_html(
    item: &PageItem,
    page_styles: &Vec<PageStyle>,
    child_of_inline: bool,
) -> Vec<u8>
    decreases *item,
{
    let mut html: Vec<u8> = Vec::new();
    match &item.payload {
        ItemPayload::Text { text } => {
            push_str_bytes(&mut html, "<span");
            if item.inline_styles.len() > 0 {
                let attrs = style_list_to_html(page_styles, &item.inline_styles, false);
                push_bytes(&mut html, &attrs);
            }
            push_str_bytes(&mut html, ">");
            let mut i: usize = 0;
            while i < text.len()
                decreases text@.len() - i,
            {
                let lex = text[i].lexeme();
                push_bytes(&mut html, &lex);
                i = i + 1;
            }
            push_str_bytes(&mut html, "</span>");
            if !child_of_inline {
                push_str_bytes(&mut html, "<br>");
            }
            push_str_bytes(&mut html, "\n");
        },
        ItemPayload::Children { children, line } => {
            let is_vertical = item.builtin.kind() == TokenKind::VBox;
            let is_inline = item.builtin.kind() == TokenKind::Inline;
            let tag: &str = if is_inline { "span" } else { "div" };
            push_str_bytes(&mut html, "<");
            push_str_bytes(&mut html, tag);
            let attrs = style_list_to_html(page_styles, &item.inline_styles, is_vertical);
            push_bytes(&mut html, &attrs);
            push_str_bytes(&mut html, ">\n");
            let mut i: usize = 0;
            while i < children.len()
                invariant
                    item.payload == (ItemPayload::Children { children: *children, line: *line }),
                decreases children@.len() - i,
            {
                proof {
                    assert(decreases_to!(*item => item.payload));
                    assert(decreases_to!(item.payload => item.payload->children));
                    assert(item.payload->children == *children);
                    assert(decreases_to!(*children => children[i as int]));
                }
                let child = page_item_to_html(&children[i], page_styles, is_inline);
                push_bytes(&mut html, &child);
                if is_vertical {
                    push_str_bytes(&mut html, "<br>");
                }
                i = i + 1;
            }
            push_str_bytes(&mut html, "</");
            push_str_bytes(&mut html, tag);
            push_str_bytes(&mut html, ">");
            if is_vertical || is_inline {
                push_str_bytes(&mut html, "<br>\n");
            } else {
                push_str_bytes(&mut html, "\n");
            }
        },
        ItemPayload::Link { link, text } => {
            push_str_bytes(&mut html, "<div");
            if item.inline_styles.len() > 0 {
                let attrs = style_list_to_html(page_styles, &item.inline_styles, false);
                push_bytes(&mut html, &attrs);
            }
            push_str_bytes(&mut html, "><a href=\"");
            let target = link.lexeme();
            push_bytes(&mut html, &target);
            push_str_bytes(&mut html, "\">");
            if text.len() > 0 {
                let mut i: usize = 0;
                while i < text.len()
                    decreases text@.len() - i,
                {
                    let lex = text[i].lexeme();
                    push_bytes(&mut html, &lex);
                    i = i + 1;
                }
            } else {
                push_bytes(&mut html, &target);
            }
            push_str_bytes(&mut html, "</a></div>\n");
        },
        ItemPayload::Blob { name, alt } => {
            push_str_bytes(&mut html, "<img src=\"");
            let src = name.lexeme();
            push_bytes(&mut html, &src);
            push_str_bytes(&mut html, "\"");
            if alt.len() > 0 {
                push_str_bytes(&mut html, " alt=\"");
                let mut i: usize = 0;
                while i < alt.len()
                    decreases alt@.len() - i,
                {
                    let lex = alt[i].lexeme();
                    push_bytes(&mut html, &lex);
                    i = i + 1;
                }
                push_str_bytes(&mut html, "\"");
            }
            push_str_bytes(&mut html, ">\n");
        },
        ItemPayload::Anchor { anchor } => {
            push_str_bytes(&mut html, "<div id=\"");
            let id = anchor.lexeme();
            push_bytes(&mut html, &id);
            push_str_bytes(&mut html, "\" style=\"display:hidden;\"></div>\n");
        },
    }
    html
}

/// Render a page to HTML: the page styles become CSS rules, the items
/// become the body. Rendering is best-effort glue, not part of the
/// protocol contract: run `style::resolve_styles` over each item first to
/// surface unknown-style, recursive-style and number-format diagnostics;
/// here a style list that fails to resolve is rendered without styles.
/// Lexemes that are not valid UTF-8 leave the result empty.
pub fn to_html(page: &Page) -> String {
    let mut html: Vec<u8> = Vec::new();
    push_str_bytes(
        &mut html,
        "<!DOCTYPE html>\n<html>\n  <head>\n    <meta charset=\"utf8\">\n    <style>\n",
    );
    push_str_bytes(
        &mut html,
        "div {\n    display: flex;\n}\ndiv > * {\n    flex-basis: 0;\n    flex-grow: 1;\n    padding: 3px 3px 7px 3px;\n}\nbody {\n    max-width: 850px;\n    margin: 0 auto;\n    float: none;\n}\n",
    );
    let mut i: usize = 0;
    while i < page.styles.len()
        decreases page.styles@.len() - i,
    {
        let rule = &page.styles[i];
        let known = match rule.selector.kind() {
            TokenKind::Identifier => {
                push_str_bytes(&mut html, ".");
                let sel = rule.selector.lexeme();
                push_bytes(&mut html, &sel);
                push_str_bytes(&mut html, " {\n");
                true
            },
            TokenKind::Blob => {
                push_str_bytes(&mut html, "img {\n");
                true
            },
            TokenKind::Link => {
                push_str_bytes(&mut html, "a {\n");
                true
            },
            TokenKind::Box | TokenKind::VBox => {
                push_str_bytes(&mut html, "div {\n");
                true
            },
            TokenKind::Text | TokenKind::ImplicitText | TokenKind::Inline => {
                push_str_bytes(&mut html, "span {\n");
                true
            },
            _ => false,
        };
        if known {
            match crate::markup::style::resolve_styles(&page.styles, &rule.styles) {
                Err(_) => {},
                Ok(resolved) => {
                    let mut j: usize = 0;
                    while j < resolved.len()
                        decreases resolved@.len() - j,
                    {
                        push_str_bytes(&mut html, "    ");
                        let css = inline_style_to_html(&resolved[j]);
                        push_bytes(&mut html, &css);
                        push_str_bytes(&mut html, "\n");
                        j = j + 1;
                    }
                },
            }
            push_str_bytes(&mut html, "}\n");
        }
        i = i + 1;
    }
    push_str_bytes(&mut html, "    </style>\n  </head>\n  <body>\n");
    let mut k: usize = 0;
    while k < page.items.len()
        decreases page.items@.len() - k,
    {
        let item_html = page_item_to_html(&page.items[k], &page.styles, false);
        push_bytes(&mut html, &item_html);
        k = k + 1;
    }
    push_str_bytes(&mut html, "  </body>\n</html>\n");
    match crate::utf8_to_str(html.as_slice()) {
        Some(s) => String::from_str(s),
        None => String::new(),
    }
}


} // verus!
