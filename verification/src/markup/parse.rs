//! Parser for FML source: consumes tokens and yields a `Page`.
//!
//! Parse errors at the top level are collected so that one malformed item
//! does not mask the others; scan errors are fatal and end the parse at
//! once.

use crate::markup::scan::{
    lemma_next_token_advances, spec_next_token, Scanner, Token, TokenKind,
};
use crate::markup::{
    item_wf, page_style_wf, page_wf, selector_kind, selector_wf, style_spec_wf, styles_wf,
    text_tokens_wf, ItemPayload, Page, PageItem, PageStyle, StyleSpec,
};
use crate::{ErrorKind, FroggiError, ParseError, ScanError};
use vstd::prelude::*;
use vstd::string::StringSliceAdditionalSpecFns;

verus! {

/// The model of one token: its kind, line and raw lexeme.
pub open spec fn token_model(t: Token) -> (TokenKind, int, Seq<u8>) {
    (t.kind, t.line as int, t.lexeme@)
}

/// The models of a token list, in order.
pub open spec fn token_models(ts: Seq<Token>) -> Seq<(TokenKind, int, Seq<u8>)> {
    ts.map_values(|t: Token| (t.kind, t.line as int, t.lexeme@))
}

/// The text of a token model: for strings the bytes between the quotes.
pub open spec fn model_text(m: (TokenKind, int, Seq<u8>)) -> Seq<u8> {
    if m.0 == TokenKind::String && m.2.len() >= 2 {
        m.2.subrange(1, m.2.len() - 1)
    } else {
        m.2
    }
}

/// What error a parsing step yields, and where.
pub enum SpecErr {
    Scan { error: ScanError, line: int },
    Unexpected { expected: TokenKind, got: Seq<u8>, line: int },
    ExpectedStyleTok { got: Seq<u8>, line: int },
    Unbalanced { line: int },
}

/// The executable error carries exactly the modeled kind and position.
pub open spec fn spec_err_matches(k: ErrorKind, m: SpecErr) -> bool {
    match m {
        SpecErr::Scan { error, line } => k == (ErrorKind::ScanError {
            error,
            line: line as usize,
        }),
        SpecErr::Unexpected { expected, got, line } => (k matches ErrorKind::ParseError {
            error: ParseError::UnexpectedToken { expected: e2, got: g2 },
            line: l2,
        } && e2 == expected && g2@ == got && l2 == line),
        SpecErr::ExpectedStyleTok { got, line } => (k matches ErrorKind::ParseError {
            error: ParseError::ExpectedStyle { got: g2 },
            line: l2,
        } && g2@ == got && l2 == line),
        SpecErr::Unbalanced { line } => (k matches ErrorKind::ParseError {
            error: ParseError::UnbalancedParentheses,
            line: l2,
        } && l2 == line),
    }
}

/// Consume one token and demand the given kind of it.
pub fn consume(s: &mut Scanner, kind: TokenKind) -> (r: Result<Token, FroggiError>)
    requires
        old(s).wf(),
    ensures
        final(s).src == old(s).src,
        final(s).wf(),
        old(s).cursor <= final(s).cursor,
        match spec_next_token(old(s).src@, old(s).cursor as int, old(s).line as int) {
            Ok((m, mp, ml)) => {
                &&& final(s).cursor == mp
                &&& final(s).line == ml
                &&& (m.0 == kind ==> (r matches Ok(t) && t.kind == m.0 && t.line == m.1
                    && t.lexeme@ == m.2))
                &&& (m.0 != kind ==> (r matches Err(e) && spec_err_matches(
                    e.kind_spec(),
                    SpecErr::Unexpected { expected: kind, got: model_text(m), line: m.1 },
                )))
            },
            Err(e) => (r matches Err(e2) && e2.kind_spec() == crate::markup::scan::scan_err_kind(
                spec_next_token(old(s).src@, old(s).cursor as int, old(s).line as int),
            )) && *final(s) == *old(s),
        },
{
    let t = match s.next_token() {
        Ok(t) => t,
        Err(e) => {
            return Err(e);
        },
    };
    if t.kind == kind {
        Ok(t)
    } else {
        Err(
            FroggiError::parse(
                ParseError::UnexpectedToken { expected: kind, got: t.clone_lexeme() },
                t.line,
            ),
        )
    }
}

/// Consume the selector token that opens a page-style rule.
pub fn consume_selector(s: &mut Scanner) -> (r: Result<Token, FroggiError>)
    requires
        old(s).wf(),
    ensures
        final(s).src == old(s).src,
        final(s).wf(),
        old(s).cursor <= final(s).cursor,
        r matches Ok(t) ==> selector_wf(t) && final(s).cursor > old(s).cursor,
        match spec_next_token(old(s).src@, old(s).cursor as int, old(s).line as int) {
            Ok((m, mp, ml)) => {
                &&& final(s).cursor == mp
                &&& final(s).line == ml
                &&& (selector_kind(m.0) ==> (r matches Ok(t) && t.kind == m.0 && t.line == m.1
                    && t.lexeme@ == m.2))
                &&& (!selector_kind(m.0) ==> (r matches Err(e) && spec_err_matches(
                    e.kind_spec(),
                    SpecErr::Unexpected {
                        expected: TokenKind::Identifier,
                        got: model_text(m),
                        line: m.1,
                    },
                )))
            },
            Err(e) => (r matches Err(e2) && e2.kind_spec() == crate::markup::scan::scan_err_kind(
                spec_next_token(old(s).src@, old(s).cursor as int, old(s).line as int),
            )) && *final(s) == *old(s),
        },
{
    proof {
        if spec_next_token(old(s).src@, old(s).cursor as int, old(s).line as int) is Ok {
            lemma_next_token_advances(old(s).src@, old(s).cursor as int, old(s).line as int);
        }
    }
    let t = match s.next_token() {
        Ok(t) => t,
        Err(e) => {
            return Err(e);
        },
    };
    match t.kind {
        TokenKind::Identifier | TokenKind::Link | TokenKind::Box | TokenKind::VBox
            | TokenKind::Text => Ok(t),
        _ => Err(
            FroggiError::parse(
                ParseError::UnexpectedToken {
                    expected: TokenKind::Identifier,
                    got: t.clone_lexeme(),
                },
                t.line,
            ).msg_str(
                "selectors must be either built-in items or links, or user-defined selectors",
            ),
        ),
    }
}

/// What collecting string tokens up to a closing parenthesis yields: the
/// token models in order and the position and line just before the `)`,
/// or the first error.
pub open spec fn spec_collect_text(src: Seq<u8>, pos: int, line: int) -> Result<
    (Seq<(TokenKind, int, Seq<u8>)>, int, int),
    SpecErr,
>
    decreases src.len() - pos
        when 0 <= pos <= src.len()
        via spec_collect_text_dec
{
    match spec_next_token(src, pos, line) {
        Err((se, sl)) => Err(SpecErr::Scan { error: se, line: sl }),
        Ok((m, mp, ml)) => {
            if m.0 == TokenKind::RightParen {
                Ok((Seq::empty(), pos, line))
            } else if m.0 != TokenKind::String {
                Err(
                    SpecErr::Unexpected {
                        expected: TokenKind::String,
                        got: model_text(m),
                        line: m.1,
                    },
                )
            } else {
                match spec_collect_text(src, mp, ml) {
                    Err(e) => Err(e),
                    Ok((rest, p2, l2)) => Ok((seq![m] + rest, p2, l2)),
                }
            }
        },
    }
}

#[via_fn]
proof fn spec_collect_text_dec(src: Seq<u8>, pos: int, line: int) {
    if 0 <= pos <= src.len() {
        if spec_next_token(src, pos, line) is Ok {
            lemma_next_token_advances(src, pos, line);
        }
    }
}

/// Collect the string tokens that run until the closing parenthesis.
pub fn collect_text(s: &mut Scanner) -> (r: Result<Vec<Token>, FroggiError>)
    requires
        old(s).wf(),
    ensures
        final(s).src == old(s).src,
        final(s).wf(),
        old(s).cursor <= final(s).cursor,
        r matches Ok(text) ==> text_tokens_wf(text@),
        match spec_collect_text(old(s).src@, old(s).cursor as int, old(s).line as int) {
            Ok((ms, p2, l2)) => (r matches Ok(text) && token_models(text@) == ms
                && final(s).cursor == p2 && final(s).line == l2),
            Err(me) => (r matches Err(e) && spec_err_matches(e.kind_spec(), me)),
        },
{
    let mut text: Vec<Token> = Vec::new();
    proof {
        assert(token_models(text@) =~= Seq::<(TokenKind, int, Seq<u8>)>::empty());
        if spec_collect_text(old(s).src@, old(s).cursor as int, old(s).line as int) is Ok {
            let rest = spec_collect_text(
                old(s).src@,
                old(s).cursor as int,
                old(s).line as int,
            )->Ok_0.0;
            assert(token_models(text@) + rest =~= rest);
        }
    }
    loop
        invariant
            s.wf(),
            s.src == old(s).src,
            old(s).cursor <= s.cursor,
            text_tokens_wf(text@),
            spec_collect_text(old(s).src@, old(s).cursor as int, old(s).line as int) == (
            match spec_collect_text(s.src@, s.cursor as int, s.line as int) {
                Ok((rest, p2, l2)) => Ok::<_, SpecErr>(
                    (token_models(text@) + rest, p2, l2),
                ),
                Err(me) => Err::<(Seq<(TokenKind, int, Seq<u8>)>, int, int), SpecErr>(me),
            }),
        decreases s.src@.len() - s.cursor,
    {
        let t = match s.peek_token(0) {
            Ok(t) => t,
            Err(e) => {
                return Err(e);
            },
        };
        if t.kind == TokenKind::RightParen {
            return Ok(text);
        }
        proof {
            if spec_next_token(s.src@, s.cursor as int, s.line as int) is Ok {
                lemma_next_token_advances(s.src@, s.cursor as int, s.line as int);
            }
        }
        let ghost text0 = text@;
        let ghost cur = (s.cursor as int, s.line as int);
        match consume(s, TokenKind::String) {
            Ok(tok) => {
                text.push(tok);
                proof {
                    assert forall|i: int| 0 <= i < text@.len() implies (#[trigger] text@[i]).kind
                        == TokenKind::String by {
                        if i < text0.len() {
                            assert(text@[i] == text0[i]);
                        }
                    }
                    let m = spec_next_token(s.src@, cur.0, cur.1)->Ok_0.0;
                    assert(token_models(text@) =~= token_models(text0) + seq![m]);
                    if spec_collect_text(s.src@, s.cursor as int, s.line as int) is Ok {
                        let rest = spec_collect_text(
                            s.src@,
                            s.cursor as int,
                            s.line as int,
                        )->Ok_0.0;
                        assert((token_models(text0) + seq![m]) + rest =~= token_models(text0) + (
                        seq![m] + rest));
                    }
                }
            },
            Err(e) => {
                return Err(e);
            },
        }
    }
}

/// The model of one raw style spec: a bare name or a name with argument.
pub enum SpecStyleM {
    Plain { name: (TokenKind, int, Seq<u8>) },
    Arged { name: (TokenKind, int, Seq<u8>), arg: (TokenKind, int, Seq<u8>) },
}

/// The models of a style spec list, in order.
pub open spec fn style_models(ss: Seq<StyleSpec>) -> Seq<SpecStyleM> {
    ss.map_values(
        |sp: StyleSpec|
            match sp {
                StyleSpec::WithoutArg { name } => SpecStyleM::Plain {
                    name: (name.kind, name.line as int, name.lexeme@),
                },
                StyleSpec::WithArg { name, arg } => SpecStyleM::Arged {
                    name: (name.kind, name.line as int, name.lexeme@),
                    arg: (arg.kind, arg.line as int, arg.lexeme@),
                },
            },
    )
}

/// What reading style specs up to and including the closing brace yields:
/// the models in order and the position and line past the `}`, or the
/// first error; `open_line` is the line of the opening brace, reported
/// when the input ends before the `}`.
pub open spec fn spec_style_list(src: Seq<u8>, pos: int, line: int, open_line: int) -> Result<
    (Seq<SpecStyleM>, int, int),
    SpecErr,
>
    decreases src.len() - pos
        when 0 <= pos <= src.len()
        via spec_style_list_dec
{
    match spec_next_token(src, pos, line) {
        Err((se, sl)) => Err(SpecErr::Scan { error: se, line: sl }),
        Ok((m, mp, ml)) => {
            if m.0 == TokenKind::RightBrace {
                Ok((Seq::empty(), mp, ml))
            } else if m.0 == TokenKind::End {
                Err(SpecErr::Unbalanced { line: open_line })
            } else if m.0 == TokenKind::Identifier {
                match spec_style_list(src, mp, ml, open_line) {
                    Err(e) => Err(e),
                    Ok((rest, p2, l2)) => Ok((seq![SpecStyleM::Plain { name: m }] + rest, p2, l2)),
                }
            } else if m.0 == TokenKind::LeftParen {
                match spec_next_token(src, mp, ml) {
                    Err((se, sl)) => Err(SpecErr::Scan { error: se, line: sl }),
                    Ok((mn, pn, ln)) => {
                        if mn.0 != TokenKind::Identifier {
                            Err(
                                SpecErr::Unexpected {
                                    expected: TokenKind::Identifier,
                                    got: model_text(mn),
                                    line: mn.1,
                                },
                            )
                        } else {
                            match spec_next_token(src, pn, ln) {
                                Err((se, sl)) => Err(SpecErr::Scan { error: se, line: sl }),
                                Ok((ma, pa, la)) => {
                                    if ma.0 != TokenKind::String {
                                        Err(
                                            SpecErr::Unexpected {
                                                expected: TokenKind::String,
                                                got: model_text(ma),
                                                line: ma.1,
                                            },
                                        )
                                    } else {
                                        match spec_next_token(src, pa, la) {
                                            Err((se, sl)) => Err(
                                                SpecErr::Scan { error: se, line: sl },
                                            ),
                                            Ok((mc, pc, lc)) => {
                                                if mc.0 != TokenKind::RightParen {
                                                    Err(
                                                        SpecErr::Unexpected {
                                                            expected: TokenKind::RightParen,
                                                            got: model_text(mc),
                                                            line: mc.1,
                                                        },
                                                    )
                                                } else {
                                                    match spec_style_list(src, pc, lc, open_line) {
                                                        Err(e) => Err(e),
                                                        Ok((rest, p2, l2)) => Ok(
                                                            (
                                                                seq![
                                                                    SpecStyleM::Arged {
                                                                        name: mn,
                                                                        arg: ma,
                                                                    },
                                                                ] + rest,
                                                                p2,
                                                                l2,
                                                            ),
                                                        ),
                                                    }
                                                }
                                            },
                                        }
                                    }
                                },
                            }
                        }
                    },
                }
            } else {
                Err(SpecErr::ExpectedStyleTok { got: model_text(m), line: m.1 })
            }
        },
    }
}

#[via_fn]
proof fn spec_style_list_dec(src: Seq<u8>, pos: int, line: int, open_line: int) {
    if 0 <= pos <= src.len() {
        match spec_next_token(src, pos, line) {
            Ok((m, mp, ml)) => {
                lemma_next_token_advances(src, pos, line);
                match spec_next_token(src, mp, ml) {
                    Ok((mn, pn, ln)) => {
                        lemma_next_token_advances(src, mp, ml);
                        match spec_next_token(src, pn, ln) {
                            Ok((ma, pa, la)) => {
                                lemma_next_token_advances(src, pn, ln);
                                match spec_next_token(src, pa, la) {
                                    Ok((mc, pc, lc)) => {
                                        lemma_next_token_advances(src, pa, la);
                                    },
                                    Err(e) => {},
                                }
                            },
                            Err(e) => {},
                        }
                    },
                    Err(e) => {},
                }
            },
            Err(e) => {},
        }
    }
}

/// What a brace-enclosed inline style list yields: nothing when no brace
/// stands next, else the styles up to the matching `}`.
pub open spec fn spec_inline_styles(src: Seq<u8>, pos: int, line: int) -> Result<
    (Seq<SpecStyleM>, int, int),
    SpecErr,
> {
    match spec_next_token(src, pos, line) {
        Err((se, sl)) => Err(SpecErr::Scan { error: se, line: sl }),
        Ok((m, mp, ml)) => {
            if m.0 != TokenKind::LeftBrace {
                Ok((Seq::empty(), pos, line))
            } else {
                spec_style_list(src, mp, ml, m.1)
            }
        },
    }
}

/// Parse a brace-enclosed list of inline styles, if one stands next.
pub fn parse_inline_styles(s: &mut Scanner) -> (r: Result<Vec<StyleSpec>, FroggiError>)
    requires
        old(s).wf(),
    ensures
        final(s).src == old(s).src,
        final(s).wf(),
        old(s).cursor <= final(s).cursor,
        r matches Ok(styles) ==> styles_wf(styles@),
        match spec_next_token(old(s).src@, old(s).cursor as int, old(s).line as int) {
            Ok((m, mp, ml)) => (m.0 != TokenKind::LeftBrace ==> (r matches Ok(styles)
                && styles@.len() == 0 && *final(s) == *old(s))),
            Err(e1) => (r matches Err(e) && e.kind_spec() == crate::markup::scan::scan_err_kind(
                spec_next_token(old(s).src@, old(s).cursor as int, old(s).line as int),
            )) && *final(s) == *old(s),
        },
        match spec_inline_styles(old(s).src@, old(s).cursor as int, old(s).line as int) {
            Ok((ms, p2, l2)) => (r matches Ok(styles) && style_models(styles@) == ms
                && final(s).cursor == p2 && final(s).line == l2),
            Err(me) => (r matches Err(e) && spec_err_matches(e.kind_spec(), me)),
        },
{
    let first = match s.peek_token(0) {
        Ok(t) => t,
        Err(e) => {
            return Err(e);
        },
    };
    if first.kind != TokenKind::LeftBrace {
        let empty: Vec<StyleSpec> = Vec::new();
        proof {
            assert(style_models(empty@) =~= Seq::<SpecStyleM>::empty());
        }
        return Ok(empty);
    }
    proof {
        if spec_next_token(s.src@, s.cursor as int, s.line as int) is Ok {
            lemma_next_token_advances(s.src@, s.cursor as int, s.line as int);
        }
    }
    let left_brace = match consume(s, TokenKind::LeftBrace) {
        Ok(t) => t,
        Err(e) => {
            return Err(e);
        },
    };
    let ghost pb = s.cursor as int;
    let ghost lb = s.line as int;
    let ghost oline = left_brace.line as int;
    let mut styles: Vec<StyleSpec> = Vec::new();
    proof {
        assert(style_models(styles@) =~= Seq::<SpecStyleM>::empty());
        if spec_style_list(old(s).src@, pb, lb, oline) is Ok {
            let rest = spec_style_list(old(s).src@, pb, lb, oline)->Ok_0.0;
            assert(style_models(styles@) + rest =~= rest);
        }
    }
    loop
        invariant
            s.wf(),
            s.src == old(s).src,
            old(s).cursor <= s.cursor,
            styles_wf(styles@),
            spec_next_token(old(s).src@, old(s).cursor as int, old(s).line as int) matches Ok(
                (m0, mp0, ml0),
            ) && m0.0 == TokenKind::LeftBrace && mp0 == pb && ml0 == lb && m0.1 == oline,
            left_brace.line == oline,
            spec_style_list(old(s).src@, pb, lb, oline) == (
            match spec_style_list(old(s).src@, s.cursor as int, s.line as int, oline) {
                Ok((rest, p2, l2)) => Ok::<_, SpecErr>((style_models(styles@) + rest, p2, l2)),
                Err(me) => Err::<(Seq<SpecStyleM>, int, int), SpecErr>(me),
            }),
        decreases s.src@.len() - s.cursor,
    {
        let ghost cur = (s.cursor as int, s.line as int);
        let t = match s.peek_token(0) {
            Ok(t) => t,
            Err(e) => {
                return Err(e);
            },
        };
        if t.kind == TokenKind::RightBrace {
            match consume(s, TokenKind::RightBrace) {
                Ok(_) => {},
                Err(e) => {
                    return Err(e.msg_str("expected the end of the inline style"));
                },
            }
            proof {
                if spec_style_list(s.src@, cur.0, cur.1, oline) is Ok {
                    let rest = spec_style_list(s.src@, cur.0, cur.1, oline)->Ok_0.0;
                    assert(style_models(styles@) + rest =~= style_models(styles@));
                }
            }
            return Ok(styles);
        }
        if t.kind == TokenKind::End {
            return Err(
                FroggiError::parse(ParseError::UnbalancedParentheses, left_brace.line()).msg_str(
                    "inline style list is never closed",
                ),
            );
        }
        proof {
            if spec_next_token(s.src@, s.cursor as int, s.line as int) is Ok {
                lemma_next_token_advances(s.src@, s.cursor as int, s.line as int);
            }
        }
        let token = match s.next_token() {
            Ok(t) => t,
            Err(e) => {
                return Err(e);
            },
        };
        let ghost styles0 = styles@;
        if token.kind == TokenKind::Identifier {
            styles.push(StyleSpec::WithoutArg { name: token });
            proof {
                let m = spec_next_token(s.src@, cur.0, cur.1)->Ok_0.0;
                assert(style_models(styles@) =~= style_models(styles0) + seq![
                    SpecStyleM::Plain { name: m },
                ]);
                if spec_style_list(s.src@, s.cursor as int, s.line as int, oline) is Ok {
                    let rest = spec_style_list(
                        s.src@,
                        s.cursor as int,
                        s.line as int,
                        oline,
                    )->Ok_0.0;
                    assert((style_models(styles0) + seq![SpecStyleM::Plain { name: m }]) + rest
                        =~= style_models(styles0) + (seq![SpecStyleM::Plain { name: m }] + rest));
                }
            }
        } else if token.kind == TokenKind::LeftParen {
            let ghost c_name = (s.cursor as int, s.line as int);
            let name = match consume(s, TokenKind::Identifier) {
                Ok(t) => t,
                Err(e) => {
                    return Err(e.msg_str("expected some built-in style name"));
                },
            };
            let ghost c_arg = (s.cursor as int, s.line as int);
            let arg = match consume(s, TokenKind::String) {
                Ok(t) => t,
                Err(e) => {
                    return Err(e.msg_str("expected an argument to the built-in style"));
                },
            };
            match consume(s, TokenKind::RightParen) {
                Ok(_) => {},
                Err(e) => {
                    return Err(e.msg_str("styles only take one argument"));
                },
            }
            styles.push(StyleSpec::WithArg { name, arg });
            proof {
                let mn = spec_next_token(s.src@, c_name.0, c_name.1)->Ok_0.0;
                let ma = spec_next_token(s.src@, c_arg.0, c_arg.1)->Ok_0.0;
                assert(style_models(styles@) =~= style_models(styles0) + seq![
                    SpecStyleM::Arged { name: mn, arg: ma },
                ]);
                if spec_style_list(s.src@, s.cursor as int, s.line as int, oline) is Ok {
                    let rest = spec_style_list(
                        s.src@,
                        s.cursor as int,
                        s.line as int,
                        oline,
                    )->Ok_0.0;
                    assert((style_models(styles0) + seq![SpecStyleM::Arged { name: mn, arg: ma }])
                        + rest =~= style_models(styles0) + (seq![
                        SpecStyleM::Arged { name: mn, arg: ma },
                    ] + rest));
                }
            }
        } else {
            return Err(
                FroggiError::parse(
                    ParseError::ExpectedStyle { got: token.clone_lexeme() },
                    token.line,
                ).msg_str("expected a style rule in the list of inline style rules"),
            );
        }
        proof {
            assert forall|i: int| 0 <= i < styles@.len() implies style_spec_wf(
                #[trigger] styles@[i],
            ) by {
                if i < styles0.len() {
                    assert(styles@[i] == styles0[i]);
                }
            }
        }
    }
}

/// What reading one rule's styles up to and including its closing
/// parenthesis yields; `open_line` is the page-style block's opening line,
/// reported when the input ends first.
pub open spec fn spec_rule_styles(src: Seq<u8>, pos: int, line: int, open_line: int) -> Result<
    (Seq<SpecStyleM>, int, int),
    SpecErr,
>
    decreases src.len() - pos
        when 0 <= pos <= src.len()
        via spec_rule_styles_dec
{
    match spec_next_token(src, pos, line) {
        Err((se, sl)) => Err(SpecErr::Scan { error: se, line: sl }),
        Ok((m, mp, ml)) => {
            if m.0 == TokenKind::RightParen {
                Ok((Seq::empty(), mp, ml))
            } else if m.0 == TokenKind::End {
                Err(SpecErr::Unbalanced { line: open_line })
            } else if m.0 == TokenKind::Identifier {
                match spec_rule_styles(src, mp, ml, open_line) {
                    Err(e) => Err(e),
                    Ok((rest, p2, l2)) => Ok((seq![SpecStyleM::Plain { name: m }] + rest, p2, l2)),
                }
            } else if m.0 == TokenKind::LeftParen {
                match spec_next_token(src, mp, ml) {
                    Err((se, sl)) => Err(SpecErr::Scan { error: se, line: sl }),
                    Ok((mn, pn, ln)) => {
                        if mn.0 != TokenKind::Identifier {
                            Err(
                                SpecErr::Unexpected {
                                    expected: TokenKind::Identifier,
                                    got: model_text(mn),
                                    line: mn.1,
                                },
                            )
                        } else {
                            match spec_next_token(src, pn, ln) {
                                Err((se, sl)) => Err(SpecErr::Scan { error: se, line: sl }),
                                Ok((ma, pa, la)) => {
                                    if ma.0 != TokenKind::String {
                                        Err(
                                            SpecErr::Unexpected {
                                                expected: TokenKind::String,
                                                got: model_text(ma),
                                                line: ma.1,
                                            },
                                        )
                                    } else {
                                        match spec_next_token(src, pa, la) {
                                            Err((se, sl)) => Err(
                                                SpecErr::Scan { error: se, line: sl },
                                            ),
                                            Ok((mc, pc, lc)) => {
                                                if mc.0 != TokenKind::RightParen {
                                                    Err(
                                                        SpecErr::Unexpected {
                                                            expected: TokenKind::RightParen,
                                                            got: model_text(mc),
                                                            line: mc.1,
                                                        },
                                                    )
                                                } else {
                                                    match spec_rule_styles(
                                                        src,
                                                        pc,
                                                        lc,
                                                        open_line,
                                                    ) {
                                                        Err(e) => Err(e),
                                                        Ok((rest, p2, l2)) => Ok(
                                                            (
                                                                seq![
                                                                    SpecStyleM::Arged {
                                                                        name: mn,
                                                                        arg: ma,
                                                                    },
                                                                ] + rest,
                                                                p2,
                                                                l2,
                                                            ),
                                                        ),
                                                    }
                                                }
                                            },
                                        }
                                    }
                                },
                            }
                        }
                    },
                }
            } else {
                Err(SpecErr::ExpectedStyleTok { got: model_text(m), line: m.1 })
            }
        },
    }
}

#[via_fn]
proof fn spec_rule_styles_dec(src: Seq<u8>, pos: int, line: int, open_line: int) {
    if 0 <= pos <= src.len() {
        match spec_next_token(src, pos, line) {
            Ok((m, mp, ml)) => {
                lemma_next_token_advances(src, pos, line);
                match spec_next_token(src, mp, ml) {
                    Ok((mn, pn, ln)) => {
                        lemma_next_token_advances(src, mp, ml);
                        match spec_next_token(src, pn, ln) {
                            Ok((ma, pa, la)) => {
                                lemma_next_token_advances(src, pn, ln);
                                match spec_next_token(src, pa, la) {
                                    Ok((mc, pc, lc)) => {
                                        lemma_next_token_advances(src, pa, la);
                                    },
                                    Err(e) => {},
                                }
                            },
                            Err(e) => {},
                        }
                    },
                    Err(e) => {},
                }
            },
            Err(e) => {},
        }
    }
}

/// Reading a rule's styles moves the position forward, and no further than
/// the end of the source.
proof fn lemma_rule_styles_advances(src: Seq<u8>, pos: int, line: int, open_line: int)
    requires
        0 <= pos <= src.len(),
        spec_rule_styles(src, pos, line, open_line) is Ok,
    ensures
        pos < spec_rule_styles(src, pos, line, open_line)->Ok_0.1 <= src.len(),
    decreases src.len() - pos,
{
    match spec_next_token(src, pos, line) {
        Ok((m, mp, ml)) => {
            lemma_next_token_advances(src, pos, line);
            if m.0 == TokenKind::RightParen {
            } else if m.0 == TokenKind::Identifier {
                lemma_rule_styles_advances(src, mp, ml, open_line);
            } else if m.0 == TokenKind::LeftParen {
                match spec_next_token(src, mp, ml) {
                    Ok((mn, pn, ln)) => {
                        lemma_next_token_advances(src, mp, ml);
                        match spec_next_token(src, pn, ln) {
                            Ok((ma, pa, la)) => {
                                lemma_next_token_advances(src, pn, ln);
                                match spec_next_token(src, pa, la) {
                                    Ok((mc, pc, lc)) => {
                                        lemma_next_token_advances(src, pa, la);
                                        if mc.0 == TokenKind::RightParen {
                                            lemma_rule_styles_advances(src, pc, lc, open_line);
                                        }
                                    },
                                    Err(e) => {},
                                }
                            },
                            Err(e) => {},
                        }
                    },
                    Err(e) => {},
                }
            }
        },
        Err(e) => {},
    }
}

/// The model of the page-style rules: each selector with its styles.
pub open spec fn rule_models(ps: Seq<PageStyle>) -> Seq<
    ((TokenKind, int, Seq<u8>), Seq<SpecStyleM>),
> {
    ps.map_values(
        |r: PageStyle|
            ((r.selector.kind, r.selector.line as int, r.selector.lexeme@), style_models(
                r.styles@,
            )),
    )
}

/// What reading page-style rules up to and including the closing brace
/// yields: the rules in order and the position past the `}`.
pub open spec fn spec_page_rules(src: Seq<u8>, pos: int, line: int, open_line: int) -> Result<
    (Seq<((TokenKind, int, Seq<u8>), Seq<SpecStyleM>)>, int, int),
    SpecErr,
>
    decreases src.len() - pos
        when 0 <= pos <= src.len()
        via spec_page_rules_dec
{
    match spec_next_token(src, pos, line) {
        Err((se, sl)) => Err(SpecErr::Scan { error: se, line: sl }),
        Ok((m, mp, ml)) => {
            if m.0 == TokenKind::RightBrace {
                Ok((Seq::empty(), mp, ml))
            } else if m.0 == TokenKind::End {
                Err(SpecErr::Unbalanced { line: open_line })
            } else if m.0 != TokenKind::LeftParen {
                Err(
                    SpecErr::Unexpected {
                        expected: TokenKind::LeftParen,
                        got: model_text(m),
                        line: m.1,
                    },
                )
            } else {
                match spec_next_token(src, mp, ml) {
                    Err((se, sl)) => Err(SpecErr::Scan { error: se, line: sl }),
                    Ok((msel, ps2, ls2)) => {
                        if !selector_kind(msel.0) {
                            Err(
                                SpecErr::Unexpected {
                                    expected: TokenKind::Identifier,
                                    got: model_text(msel),
                                    line: msel.1,
                                },
                            )
                        } else {
                            match spec_rule_styles(src, ps2, ls2, open_line) {
                                Err(e) => Err(e),
                                Ok((ss, pr, lr)) => match spec_page_rules(
                                    src,
                                    pr,
                                    lr,
                                    open_line,
                                ) {
                                    Err(e) => Err(e),
                                    Ok((rest, p2, l2)) => Ok(
                                        (seq![(msel, ss)] + rest, p2, l2),
                                    ),
                                },
                            }
                        }
                    },
                }
            }
        },
    }
}

#[via_fn]
proof fn spec_page_rules_dec(src: Seq<u8>, pos: int, line: int, open_line: int) {
    if 0 <= pos <= src.len() {
        match spec_next_token(src, pos, line) {
            Ok((m, mp, ml)) => {
                lemma_next_token_advances(src, pos, line);
                match spec_next_token(src, mp, ml) {
                    Ok((msel, ps2, ls2)) => {
                        lemma_next_token_advances(src, mp, ml);
                        if spec_rule_styles(src, ps2, ls2, open_line) is Ok {
                            lemma_rule_styles_advances(src, ps2, ls2, open_line);
                        }
                    },
                    Err(e) => {},
                }
            },
            Err(e) => {},
        }
    }
}

/// What the top-level page-style block yields: the rules up to the
/// matching brace.
pub open spec fn spec_page_styles(src: Seq<u8>, pos: int, line: int) -> Result<
    (Seq<((TokenKind, int, Seq<u8>), Seq<SpecStyleM>)>, int, int),
    SpecErr,
> {
    match spec_next_token(src, pos, line) {
        Err((se, sl)) => Err(SpecErr::Scan { error: se, line: sl }),
        Ok((m, mp, ml)) => {
            if m.0 != TokenKind::LeftBrace {
                Err(
                    SpecErr::Unexpected {
                        expected: TokenKind::LeftBrace,
                        got: model_text(m),
                        line: m.1,
                    },
                )
            } else {
                spec_page_rules(src, mp, ml, m.1)
            }
        },
    }
}

/// Parse one rule's styles, consuming the rule's closing parenthesis;
/// `open_line` is the enclosing block's opening line, reported when the
/// input ends first.
fn parse_rule_styles(s: &mut Scanner, open_line: usize) -> (r: Result<Vec<StyleSpec>, FroggiError>)
    requires
        old(s).wf(),
    ensures
        final(s).src == old(s).src,
        final(s).wf(),
        old(s).cursor <= final(s).cursor,
        r matches Ok(styles) ==> styles_wf(styles@),
        match spec_rule_styles(
            old(s).src@,
            old(s).cursor as int,
            old(s).line as int,
            open_line as int,
        ) {
            Ok((ms, p2, l2)) => (r matches Ok(styles) && style_models(styles@) == ms
                && final(s).cursor == p2 && final(s).line == l2),
            Err(me) => (r matches Err(e) && spec_err_matches(e.kind_spec(), me)),
        },
{
    let ghost src0 = old(s).src@;
    let ghost pb = old(s).cursor as int;
    let ghost lb = old(s).line as int;
    let ghost oline = open_line as int;
    let mut styles: Vec<StyleSpec> = Vec::new();
    proof {
        assert(style_models(styles@) =~= Seq::<SpecStyleM>::empty());
        if spec_rule_styles(src0, pb, lb, oline) is Ok {
            let rest = spec_rule_styles(src0, pb, lb, oline)->Ok_0.0;
            assert(style_models(styles@) + rest =~= rest);
        }
    }
    loop
        invariant
            s.wf(),
            s.src == old(s).src,
            s.src@ == src0,
            src0 == old(s).src@,
            pb == old(s).cursor as int,
            lb == old(s).line as int,
            oline == open_line as int,
            old(s).cursor <= s.cursor,
            styles_wf(styles@),
            spec_rule_styles(src0, pb, lb, oline) == (
            match spec_rule_styles(src0, s.cursor as int, s.line as int, oline) {
                Ok((rest, p2, l2)) => Ok::<_, SpecErr>((style_models(styles@) + rest, p2, l2)),
                Err(me) => Err::<(Seq<SpecStyleM>, int, int), SpecErr>(me),
            }),
        decreases s.src@.len() - s.cursor,
    {
        let ghost cur = (s.cursor as int, s.line as int);
        let t = match s.peek_token(0) {
            Ok(t) => t,
            Err(e) => {
                return Err(e);
            },
        };
        if t.kind == TokenKind::RightParen {
            match consume(s, TokenKind::RightParen) {
                Ok(_) => {},
                Err(e) => {
                    return Err(e.msg_str("end of the style rule"));
                },
            }
            proof {
                if spec_rule_styles(s.src@, cur.0, cur.1, oline) is Ok {
                    let rest = spec_rule_styles(s.src@, cur.0, cur.1, oline)->Ok_0.0;
                    assert(style_models(styles@) + rest =~= style_models(styles@));
                }
            }
            return Ok(styles);
        }
        if t.kind == TokenKind::End {
            return Err(
                FroggiError::parse(ParseError::UnbalancedParentheses, open_line).msg_str(
                    "style rule is never closed",
                ),
            );
        }
        proof {
            if spec_next_token(s.src@, s.cursor as int, s.line as int) is Ok {
                lemma_next_token_advances(s.src@, s.cursor as int, s.line as int);
            }
        }
        let token = match s.next_token() {
            Ok(t) => t,
            Err(e) => {
                return Err(e);
            },
        };
        let ghost styles0 = styles@;
        if token.kind == TokenKind::Identifier {
            styles.push(StyleSpec::WithoutArg { name: token });
            proof {
                let m = spec_next_token(s.src@, cur.0, cur.1)->Ok_0.0;
                assert(style_models(styles@) =~= style_models(styles0) + seq![
                    SpecStyleM::Plain { name: m },
                ]);
                if spec_rule_styles(s.src@, s.cursor as int, s.line as int, oline) is Ok {
                    let rest = spec_rule_styles(
                        s.src@,
                        s.cursor as int,
                        s.line as int,
                        oline,
                    )->Ok_0.0;
                    assert((style_models(styles0) + seq![SpecStyleM::Plain { name: m }]) + rest
                        =~= style_models(styles0) + (seq![SpecStyleM::Plain { name: m }] + rest));
                }
            }
        } else if token.kind == TokenKind::LeftParen {
            let ghost c_name = (s.cursor as int, s.line as int);
            let name = match consume(s, TokenKind::Identifier) {
                Ok(t) => t,
                Err(e) => {
                    return Err(e.msg_str("expected a built-in style rule"));
                },
            };
            let ghost c_arg = (s.cursor as int, s.line as int);
            let arg = match consume(s, TokenKind::String) {
                Ok(t) => t,
                Err(e) => {
                    return Err(e.msg_str("expected an argument to the built-in style rule"));
                },
            };
            match consume(s, TokenKind::RightParen) {
                Ok(_) => {},
                Err(e) => {
                    return Err(e.msg_str("style rules only take one argument"));
                },
            }
            styles.push(StyleSpec::WithArg { name, arg });
            proof {
                let mn = spec_next_token(s.src@, c_name.0, c_name.1)->Ok_0.0;
                let ma = spec_next_token(s.src@, c_arg.0, c_arg.1)->Ok_0.0;
                assert(style_models(styles@) =~= style_models(styles0) + seq![
                    SpecStyleM::Arged { name: mn, arg: ma },
                ]);
                if spec_rule_styles(s.src@, s.cursor as int, s.line as int, oline) is Ok {
                    let rest = spec_rule_styles(
                        s.src@,
                        s.cursor as int,
                        s.line as int,
                        oline,
                    )->Ok_0.0;
                    assert((style_models(styles0) + seq![SpecStyleM::Arged { name: mn, arg: ma }])
                        + rest =~= style_models(styles0) + (seq![
                        SpecStyleM::Arged { name: mn, arg: ma },
                    ] + rest));
                }
            }
        } else {
            return Err(
                FroggiError::parse(
                    ParseError::ExpectedStyle { got: token.clone_lexeme() },
                    token.line,
                ).msg_str("expected a style rule"),
            );
        }
        proof {
            assert forall|i: int| 0 <= i < styles@.len() implies style_spec_wf(
                #[trigger] styles@[i],
            ) by {
                if i < styles0.len() {
                    assert(styles@[i] == styles0[i]);
                }
            }
        }
    }
}

/// Parse the top-level page-style block.
pub fn parse_page_styles(s: &mut Scanner) -> (r: Result<Vec<PageStyle>, FroggiError>)
    requires
        old(s).wf(),
    ensures
        final(s).src == old(s).src,
        final(s).wf(),
        old(s).cursor <= final(s).cursor,
        (spec_next_token(old(s).src@, old(s).cursor as int, old(s).line as int) matches Ok(
            (m, mp, ml),
        ) && m.0 == TokenKind::LeftBrace) ==> final(s).cursor > old(s).cursor,
        r matches Ok(styles) ==> forall|i: int|
            0 <= i < styles@.len() ==> page_style_wf(#[trigger] styles@[i]),
        match spec_page_styles(old(s).src@, old(s).cursor as int, old(s).line as int) {
            Ok((ms, p2, l2)) => (r matches Ok(styles) && rule_models(styles@) == ms
                && final(s).cursor == p2 && final(s).line == l2),
            Err(me) => (r matches Err(e) && spec_err_matches(e.kind_spec(), me)),
        },
{
    let ghost src0 = old(s).src@;
    proof {
        if spec_next_token(old(s).src@, old(s).cursor as int, old(s).line as int) is Ok {
            lemma_next_token_advances(old(s).src@, old(s).cursor as int, old(s).line as int);
        }
    }
    let left_brace = match consume(s, TokenKind::LeftBrace) {
        Ok(t) => t,
        Err(e) => {
            return Err(e);
        },
    };
    let ghost pb = s.cursor as int;
    let ghost lb = s.line as int;
    let ghost oline = left_brace.line as int;
    let mut page_styles: Vec<PageStyle> = Vec::new();
    proof {
        assert(rule_models(page_styles@) =~= Seq::<
            ((TokenKind, int, Seq<u8>), Seq<SpecStyleM>),
        >::empty());
        if spec_page_rules(src0, pb, lb, oline) is Ok {
            let rest = spec_page_rules(src0, pb, lb, oline)->Ok_0.0;
            assert(rule_models(page_styles@) + rest =~= rest);
        }
    }
    loop
        invariant
            s.wf(),
            s.src == old(s).src,
            s.src@ == src0,
            src0 == old(s).src@,
            old(s).cursor < s.cursor,
            forall|i: int| 0 <= i < page_styles@.len() ==> page_style_wf(
                #[trigger] page_styles@[i],
            ),
            left_brace.line == oline,
            spec_next_token(old(s).src@, old(s).cursor as int, old(s).line as int) matches Ok(
                (m0, mp0, ml0),
            ) && m0.0 == TokenKind::LeftBrace && mp0 == pb && ml0 == lb && m0.1 == oline,
            spec_page_rules(src0, pb, lb, oline) == (
            match spec_page_rules(src0, s.cursor as int, s.line as int, oline) {
                Ok((rest, p2, l2)) => Ok::<_, SpecErr>((rule_models(page_styles@) + rest, p2, l2)),
                Err(me) => Err::<
                    (Seq<((TokenKind, int, Seq<u8>), Seq<SpecStyleM>)>, int, int),
                    SpecErr,
                >(me),
            }),
        decreases s.src@.len() - s.cursor,
    {
        let ghost cur = (s.cursor as int, s.line as int);
        let t = match s.peek_token(0) {
            Ok(t) => t,
            Err(e) => {
                return Err(e);
            },
        };
        if t.kind == TokenKind::RightBrace {
            match consume(s, TokenKind::RightBrace) {
                Ok(_) => {},
                Err(e) => {
                    return Err(e.msg_str("unbalanced braces"));
                },
            }
            proof {
                if spec_page_rules(s.src@, cur.0, cur.1, oline) is Ok {
                    let rest = spec_page_rules(s.src@, cur.0, cur.1, oline)->Ok_0.0;
                    assert(rule_models(page_styles@) + rest =~= rule_models(page_styles@));
                }
            }
            return Ok(page_styles);
        }
        if t.kind == TokenKind::End {
            return Err(
                FroggiError::parse(ParseError::UnbalancedParentheses, left_brace.line()).msg_str(
                    "page style block is never closed",
                ),
            );
        }
        // One style rule.
        match consume(s, TokenKind::LeftParen) {
            Ok(_) => {},
            Err(e) => {
                return Err(e.msg_str("expected style rules inside page style item"));
            },
        }
        let ghost c_sel = (s.cursor as int, s.line as int);
        let selector = match consume_selector(s) {
            Ok(t) => t,
            Err(e) => {
                return Err(e);
            },
        };
        let ghost c_rule = (s.cursor as int, s.line as int);
        let styles = match parse_rule_styles(s, left_brace.line()) {
            Ok(v) => v,
            Err(e) => {
                return Err(e);
            },
        };
        let ghost page_styles0 = page_styles@;
        page_styles.push(PageStyle { selector, styles });
        proof {
            let msel = spec_next_token(s.src@, c_sel.0, c_sel.1)->Ok_0.0;
            let ss = spec_rule_styles(s.src@, c_rule.0, c_rule.1, oline)->Ok_0.0;
            assert(rule_models(page_styles@) =~= rule_models(page_styles0) + seq![(msel, ss)]);
            if spec_page_rules(s.src@, s.cursor as int, s.line as int, oline) is Ok {
                let rest = spec_page_rules(s.src@, s.cursor as int, s.line as int, oline)->Ok_0.0;
                assert((rule_models(page_styles0) + seq![(msel, ss)]) + rest =~= rule_models(
                    page_styles0,
                ) + (seq![(msel, ss)] + rest));
            }
            assert forall|i: int| 0 <= i < page_styles@.len() implies page_style_wf(
                #[trigger] page_styles@[i],
            ) by {
                if i < page_styles0.len() {
                    assert(page_styles@[i] == page_styles0[i]);
                }
            }
        }
    }
}

/// What consuming an item's closing parenthesis yields: the position and
/// line past it; the end of input is an unbalanced-parentheses error at
/// the opening line, any other token an unexpected-token error.
pub open spec fn spec_item_close(src: Seq<u8>, pos: int, line: int, open_line: int) -> Result<
    (int, int),
    SpecErr,
> {
    match spec_next_token(src, pos, line) {
        Err((se, sl)) => Err(SpecErr::Scan { error: se, line: sl }),
        Ok((mc, pc, lc)) => {
            if mc.0 == TokenKind::End {
                Err(SpecErr::Unbalanced { line: open_line })
            } else if mc.0 != TokenKind::RightParen {
                Err(
                    SpecErr::Unexpected {
                        expected: TokenKind::RightParen,
                        got: model_text(mc),
                        line: mc.1,
                    },
                )
            } else {
                Ok((pc, lc))
            }
        },
    }
}

/// Parse one parenthesized page item.
pub fn parse_item(s: &mut Scanner) -> (r: Result<PageItem, FroggiError>)
    requires
        old(s).wf(),
    ensures
        final(s).src == old(s).src,
        final(s).wf(),
        old(s).cursor <= final(s).cursor,
        (spec_next_token(old(s).src@, old(s).cursor as int, old(s).line as int) matches Ok(
            (m, mp, ml),
        ) && m.0 == TokenKind::LeftParen) ==> final(s).cursor > old(s).cursor,
        r matches Ok(item) ==> item_wf(item) && final(s).cursor > old(s).cursor,
        match spec_next_token(old(s).src@, old(s).cursor as int, old(s).line as int) {
            Ok((m1, p1, l1)) => {
                &&& (m1.0 != TokenKind::LeftParen ==> (r matches Err(e) && e.kind_spec() matches
                    ErrorKind::ParseError {
                        error: ParseError::UnexpectedToken { expected: TokenKind::LeftParen, got },
                        line,
                    } && line == m1.1))
                &&& (r matches Ok(item) ==> m1.0 == TokenKind::LeftParen && (
                match spec_next_token(old(s).src@, p1, l1) {
                    Ok((m2, p2, l2)) => {
                        &&& (m2.0 == TokenKind::Blob ==> item.builtin.kind == TokenKind::Blob)
                        &&& (m2.0 == TokenKind::Link ==> item.builtin.kind == TokenKind::Link)
                        &&& (m2.0 == TokenKind::Anchor ==> item.builtin.kind
                            == TokenKind::Anchor)
                        &&& (m2.0 == TokenKind::Text ==> item.builtin.kind == TokenKind::Text)
                        &&& (m2.0 == TokenKind::VBox ==> item.builtin.kind == TokenKind::VBox)
                        &&& (m2.0 == TokenKind::Box ==> item.builtin.kind == TokenKind::Box)
                        &&& (!(m2.0 == TokenKind::Blob || m2.0 == TokenKind::Link || m2.0
                            == TokenKind::Anchor || m2.0 == TokenKind::Text || m2.0
                            == TokenKind::VBox || m2.0 == TokenKind::Box)
                            ==> item.builtin.kind == TokenKind::ImplicitText
                            && item.builtin.lexeme@.len() == 0 && item.builtin.line == m2.1)
                    },
                    Err(e2) => false,
                }))
                &&& (m1.0 == TokenKind::LeftParen ==> (
                match spec_next_token(old(s).src@, p1, l1) {
                    Ok((m2, p2, l2)) => {
                        &&& (m2.0 == TokenKind::Blob ==> (
                        match spec_blob_item(old(s).src@, p1, l1) {
                            Ok((mb, mn, ss, tt)) => (match spec_item_close(
                                old(s).src@,
                                spec_named_item_end(old(s).src@, p1, l1, TokenKind::Blob).0,
                                spec_named_item_end(old(s).src@, p1, l1, TokenKind::Blob).1,
                                m1.1,
                            ) {
                                Ok((pc, lc)) => (r matches Ok(item) && item.builtin.kind == mb.0
                                    && item.builtin.line == mb.1 && item.builtin.lexeme@ == mb.2
                                    && (item.payload matches ItemPayload::Blob { name, alt }
                                    && name.kind == mn.0 && name.line == mn.1 && name.lexeme@
                                    == mn.2 && token_models(alt@) == tt) && style_models(
                                    item.inline_styles@,
                                ) == ss && final(s).cursor == pc && final(s).line == lc),
                                Err(me) => (r matches Err(e) && spec_err_matches(
                                    e.kind_spec(),
                                    me,
                                )),
                            }),
                            Err(me) => (r matches Err(e) && spec_err_matches(e.kind_spec(), me)),
                        }))
                        &&& (m2.0 == TokenKind::Link ==> (
                        match spec_link_item(old(s).src@, p1, l1) {
                            Ok((mb, mn, ss, tt)) => (match spec_item_close(
                                old(s).src@,
                                spec_named_item_end(old(s).src@, p1, l1, TokenKind::Link).0,
                                spec_named_item_end(old(s).src@, p1, l1, TokenKind::Link).1,
                                m1.1,
                            ) {
                                Ok((pc, lc)) => (r matches Ok(item) && item.builtin.kind == mb.0
                                    && item.builtin.line == mb.1 && item.builtin.lexeme@ == mb.2
                                    && (item.payload matches ItemPayload::Link { link, text }
                                    && link.kind == mn.0 && link.line == mn.1 && link.lexeme@
                                    == mn.2 && token_models(text@) == tt) && style_models(
                                    item.inline_styles@,
                                ) == ss && final(s).cursor == pc && final(s).line == lc),
                                Err(me) => (r matches Err(e) && spec_err_matches(
                                    e.kind_spec(),
                                    me,
                                )),
                            }),
                            Err(me) => (r matches Err(e) && spec_err_matches(e.kind_spec(), me)),
                        }))
                        &&& (m2.0 == TokenKind::Text ==> (
                        match spec_text_item(old(s).src@, p1, l1) {
                            Ok((tm, pt, lt)) => (match spec_item_close(
                                old(s).src@,
                                pt,
                                lt,
                                m1.1,
                            ) {
                                Ok((pc, lc)) => (r matches Ok(item) && item.builtin.kind
                                    == tm.0.0 && item.builtin.line == tm.0.1
                                    && item.builtin.lexeme@ == tm.0.2 && (item.payload matches
                                    ItemPayload::Text { text } && token_models(text@) == tm.2)
                                    && style_models(item.inline_styles@) == tm.1
                                    && final(s).cursor == pc && final(s).line == lc),
                                Err(me) => (r matches Err(e) && spec_err_matches(
                                    e.kind_spec(),
                                    me,
                                )),
                            }),
                            Err(me) => (r matches Err(e) && spec_err_matches(e.kind_spec(), me)),
                        }))
                        &&& (!(m2.0 == TokenKind::Blob || m2.0 == TokenKind::Link || m2.0
                            == TokenKind::Anchor || m2.0 == TokenKind::Text || m2.0
                            == TokenKind::VBox || m2.0 == TokenKind::Box) ==> (
                        match spec_implicit_item(old(s).src@, p1, l1) {
                            Ok((tm, pt, lt)) => (match spec_item_close(
                                old(s).src@,
                                pt,
                                lt,
                                m1.1,
                            ) {
                                Ok((pc, lc)) => (r matches Ok(item) && item.builtin.kind
                                    == TokenKind::ImplicitText && item.builtin.line == tm.0
                                    && item.builtin.lexeme@.len() == 0 && (item.payload matches
                                    ItemPayload::Text { text } && token_models(text@) == tm.2)
                                    && style_models(item.inline_styles@) == tm.1
                                    && final(s).cursor == pc && final(s).line == lc),
                                Err(me) => (r matches Err(e) && spec_err_matches(
                                    e.kind_spec(),
                                    me,
                                )),
                            }),
                            Err(me) => (r matches Err(e) && spec_err_matches(e.kind_spec(), me)),
                        }))
                    },
                    Err(e2) => (r matches Err(e) && e.kind_spec()
                        == crate::markup::scan::scan_err_kind(
                        spec_next_token(old(s).src@, p1, l1),
                    )),
                }))
                &&& (m1.0 == TokenKind::LeftParen ==> (
                match spec_next_token(old(s).src@, p1, l1) {
                    Ok((m2, p2, l2)) => (m2.0 == TokenKind::Anchor ==> (
                    match spec_next_token(old(s).src@, p2, l2) {
                        Ok((m3, p3, l3)) => (m3.0 == TokenKind::String ==> (
                        match spec_next_token(old(s).src@, p3, l3) {
                            Ok((m4, p4, l4)) => {
                                &&& (m4.0 == TokenKind::RightParen ==> (r matches Ok(item)
                                    && item.builtin.kind == m2.0 && item.builtin.line == m2.1
                                    && item.builtin.lexeme@ == m2.2 && (item.payload matches
                                    ItemPayload::Anchor { anchor } && anchor.kind == m3.0
                                    && anchor.line == m3.1 && anchor.lexeme@ == m3.2)
                                    && item.inline_styles@.len() == 0 && final(s).cursor == p4
                                    && final(s).line == l4))
                                &&& (m4.0 == TokenKind::End ==> (r matches Err(e)
                                    && e.kind_spec() == (ErrorKind::ParseError {
                                        error: ParseError::UnbalancedParentheses,
                                        line: m1.1 as usize,
                                    })))
                            },
                            Err(e4) => true,
                        })),
                        Err(e3) => true,
                    })),
                    Err(e2) => true,
                }))
            },
            Err(e1) => r is Err,
        },
    decreases s.src@.len() - s.cursor, 0int,
{
    proof {
        if spec_next_token(old(s).src@, old(s).cursor as int, old(s).line as int) is Ok {
            lemma_next_token_advances(old(s).src@, old(s).cursor as int, old(s).line as int);
        }
    }
    let left_paren = match consume(s, TokenKind::LeftParen) {
        Ok(t) => t,
        Err(e) => {
            return Err(e);
        },
    };
    let next = match s.peek_token(0) {
        Ok(t) => t,
        Err(e) => {
            return Err(e);
        },
    };
    let sub = match next.kind {
        TokenKind::Blob => parse_blob(s),
        TokenKind::Link => parse_link(s),
        TokenKind::Anchor => parse_anchor(s),
        TokenKind::Text => parse_text(s),
        TokenKind::VBox => parse_vbox(s),
        TokenKind::Box => parse_box(s),
        _ => parse_implicit_text(s),
    };
    let item = match sub {
        Ok(item) => item,
        Err(e) => {
            return Err(e);
        },
    };
    let closing = match s.peek_token(0) {
        Ok(t) => t,
        Err(e) => {
            return Err(e);
        },
    };
    if closing.kind == TokenKind::End {
        return Err(FroggiError::parse(ParseError::UnbalancedParentheses, left_paren.line()));
    }
    match consume(s, TokenKind::RightParen) {
        Ok(_) => {},
        Err(e) => {
            return Err(e.msg_str("unbalanced parentheses around this item"));
        },
    }
    Ok(item)
}

/// What parsing a blob body yields, from the `&` token on: the builtin and
/// name token models, the style models, the alt-text token models, and the
/// position and line just before the closing parenthesis.
pub open spec fn spec_blob_item(src: Seq<u8>, pos: int, line: int) -> Result<
    (
        (TokenKind, int, Seq<u8>),
        (TokenKind, int, Seq<u8>),
        Seq<SpecStyleM>,
        Seq<(TokenKind, int, Seq<u8>)>,
    ),
    SpecErr,
> {
    spec_named_item(src, pos, line, TokenKind::Blob)
}

/// As `spec_blob_item`, for a link's `^` token.
pub open spec fn spec_link_item(src: Seq<u8>, pos: int, line: int) -> Result<
    (
        (TokenKind, int, Seq<u8>),
        (TokenKind, int, Seq<u8>),
        Seq<SpecStyleM>,
        Seq<(TokenKind, int, Seq<u8>)>,
    ),
    SpecErr,
> {
    spec_named_item(src, pos, line, TokenKind::Link)
}

/// The shared shape of blob and link bodies: the builtin token, one string,
/// an optional style list, then string tokens up to the `)`.
pub open spec fn spec_named_item(src: Seq<u8>, pos: int, line: int, kind: TokenKind) -> Result<
    (
        (TokenKind, int, Seq<u8>),
        (TokenKind, int, Seq<u8>),
        Seq<SpecStyleM>,
        Seq<(TokenKind, int, Seq<u8>)>,
    ),
    SpecErr,
> {
    match spec_next_token(src, pos, line) {
        Err((se, sl)) => Err(SpecErr::Scan { error: se, line: sl }),
        Ok((m1, p1, l1)) => {
            if m1.0 != kind {
                Err(SpecErr::Unexpected { expected: kind, got: model_text(m1), line: m1.1 })
            } else {
                match spec_next_token(src, p1, l1) {
                    Err((se, sl)) => Err(SpecErr::Scan { error: se, line: sl }),
                    Ok((m2, p2, l2)) => {
                        if m2.0 != TokenKind::String {
                            Err(
                                SpecErr::Unexpected {
                                    expected: TokenKind::String,
                                    got: model_text(m2),
                                    line: m2.1,
                                },
                            )
                        } else {
                            match spec_inline_styles(src, p2, l2) {
                                Err(e) => Err(e),
                                Ok((ss, p3, l3)) => match spec_collect_text(src, p3, l3) {
                                    Err(e) => Err(e),
                                    Ok((tt, p4, l4)) => Ok((m1, m2, ss, tt)),
                                },
                            }
                        }
                    },
                }
            }
        },
    }
}

/// Where a blob or link body ends: the position and line just before the
/// closing parenthesis, when the body parses.
pub open spec fn spec_named_item_end(src: Seq<u8>, pos: int, line: int, kind: TokenKind) -> (
    int,
    int,
) {
    match spec_next_token(src, pos, line) {
        Err(e) => (pos, line),
        Ok((m1, p1, l1)) => match spec_next_token(src, p1, l1) {
            Err(e) => (pos, line),
            Ok((m2, p2, l2)) => match spec_inline_styles(src, p2, l2) {
                Err(e) => (pos, line),
                Ok((ss, p3, l3)) => match spec_collect_text(src, p3, l3) {
                    Err(e) => (pos, line),
                    Ok((tt, p4, l4)) => (p4, l4),
                },
            },
        },
    }
}

/// Parse a blob reference: its name, inline styles, and alt text.
pub fn parse_blob(s: &mut Scanner) -> (r: Result<PageItem, FroggiError>)
    requires
        old(s).wf(),
    ensures
        final(s).src == old(s).src,
        final(s).wf(),
        old(s).cursor <= final(s).cursor,
        r matches Ok(item) ==> item_wf(item),
        match spec_blob_item(old(s).src@, old(s).cursor as int, old(s).line as int) {
            Ok((mb, mn, ss, tt)) => (r matches Ok(item) && item.builtin.kind == mb.0
                && item.builtin.line == mb.1 && item.builtin.lexeme@ == mb.2 && (
            item.payload matches ItemPayload::Blob { name, alt } && name.kind == mn.0
                && name.line == mn.1 && name.lexeme@ == mn.2 && token_models(alt@) == tt)
                && style_models(item.inline_styles@) == ss && (final(s).cursor as int,
            final(s).line as int) == spec_named_item_end(
                old(s).src@,
                old(s).cursor as int,
                old(s).line as int,
                TokenKind::Blob,
            )),
            Err(me) => (r matches Err(e) && spec_err_matches(e.kind_spec(), me)),
        },
{
    let builtin = match consume(s, TokenKind::Blob) {
        Ok(t) => t,
        Err(e) => {
            return Err(e);
        },
    };
    let name = match consume(s, TokenKind::String) {
        Ok(t) => t,
        Err(e) => {
            return Err(e);
        },
    };
    proof {
        let src0 = old(s).src@;
        let c0 = old(s).cursor as int;
        let l0 = old(s).line as int;
        match spec_next_token(src0, c0, l0) {
            Ok((m1, p1, l1)) => {
                lemma_next_token_advances(src0, c0, l0);
                match spec_next_token(src0, p1, l1) {
                    Ok((m2, p2, l2)) => {
                        lemma_next_token_advances(src0, p1, l1);
                        match spec_next_token(src0, p2, l2) {
                            Ok((m3, p3, l3)) => {
                                if m3.0 == TokenKind::RightParen {
                                    assert(spec_collect_text(src0, p2, l2) == Ok::<_, SpecErr>(
                                        (Seq::<(TokenKind, int, Seq<u8>)>::empty(), p2, l2),
                                    ));
                                }
                            },
                            Err(e3) => {},
                        }
                    },
                    Err(e2) => {},
                }
            },
            Err(e1) => {},
        }
    }
    let inline_styles = match parse_inline_styles(s) {
        Ok(v) => v,
        Err(e) => {
            return Err(e);
        },
    };
    let alt = match collect_text(s) {
        Ok(v) => v,
        Err(e) => {
            return Err(e);
        },
    };
    proof {
        assert(token_models(alt@).len() == alt@.len());
    }
    Ok(PageItem { builtin, inline_styles, payload: ItemPayload::Blob { name, alt } })
}

/// Parse a link: its target, inline styles, and display text.
pub fn parse_link(s: &mut Scanner) -> (r: Result<PageItem, FroggiError>)
    requires
        old(s).wf(),
    ensures
        final(s).src == old(s).src,
        final(s).wf(),
        old(s).cursor <= final(s).cursor,
        r matches Ok(item) ==> item_wf(item),
        match spec_link_item(old(s).src@, old(s).cursor as int, old(s).line as int) {
            Ok((mb, mn, ss, tt)) => (r matches Ok(item) && item.builtin.kind == mb.0
                && item.builtin.line == mb.1 && item.builtin.lexeme@ == mb.2 && (
            item.payload matches ItemPayload::Link { link, text } && link.kind == mn.0
                && link.line == mn.1 && link.lexeme@ == mn.2 && token_models(text@) == tt)
                && style_models(item.inline_styles@) == ss && (final(s).cursor as int,
            final(s).line as int) == spec_named_item_end(
                old(s).src@,
                old(s).cursor as int,
                old(s).line as int,
                TokenKind::Link,
            )),
            Err(me) => (r matches Err(e) && spec_err_matches(e.kind_spec(), me)),
        },
{
    let builtin = match consume(s, TokenKind::Link) {
        Ok(t) => t,
        Err(e) => {
            return Err(e);
        },
    };
    let link = match consume(s, TokenKind::String) {
        Ok(t) => t,
        Err(e) => {
            return Err(e);
        },
    };
    proof {
        let src0 = old(s).src@;
        let c0 = old(s).cursor as int;
        let l0 = old(s).line as int;
        match spec_next_token(src0, c0, l0) {
            Ok((m1, p1, l1)) => {
                lemma_next_token_advances(src0, c0, l0);
                match spec_next_token(src0, p1, l1) {
                    Ok((m2, p2, l2)) => {
                        lemma_next_token_advances(src0, p1, l1);
                        match spec_next_token(src0, p2, l2) {
                            Ok((m3, p3, l3)) => {
                                if m3.0 == TokenKind::RightParen {
                                    assert(spec_collect_text(src0, p2, l2) == Ok::<_, SpecErr>(
                                        (Seq::<(TokenKind, int, Seq<u8>)>::empty(), p2, l2),
                                    ));
                                }
                            },
                            Err(e3) => {},
                        }
                    },
                    Err(e2) => {},
                }
            },
            Err(e1) => {},
        }
    }
    let inline_styles = match parse_inline_styles(s) {
        Ok(v) => v,
        Err(e) => {
            return Err(e);
        },
    };
    let text = match collect_text(s) {
        Ok(v) => v,
        Err(e) => {
            return Err(e);
        },
    };
    proof {
        assert(token_models(text@).len() == text@.len());
    }
    Ok(PageItem { builtin, inline_styles, payload: ItemPayload::Link { link, text } })
}

/// Parse an anchor: its name alone; anchors take no styles.
pub fn parse_anchor(s: &mut Scanner) -> (r: Result<PageItem, FroggiError>)
    requires
        old(s).wf(),
    ensures
        final(s).src == old(s).src,
        final(s).wf(),
        old(s).cursor <= final(s).cursor,
        r matches Ok(item) ==> item_wf(item),
        match spec_next_token(old(s).src@, old(s).cursor as int, old(s).line as int) {
            Ok((m1, p1, l1)) => if m1.0 != TokenKind::Anchor {
                r matches Err(e) && e.kind_spec() matches ErrorKind::ParseError {
                    error: ParseError::UnexpectedToken { expected: TokenKind::Anchor, got },
                    line,
                } && line == m1.1
            } else {
                match spec_next_token(old(s).src@, p1, l1) {
                    Ok((m2, p2, l2)) => if m2.0 == TokenKind::String {
                        &&& r matches Ok(item)
                        &&& item.builtin.kind == m1.0 && item.builtin.line == m1.1
                            && item.builtin.lexeme@ == m1.2
                        &&& item.payload matches ItemPayload::Anchor { anchor } && anchor.kind
                            == m2.0 && anchor.line == m2.1 && anchor.lexeme@ == m2.2
                        &&& item.inline_styles@.len() == 0
                        &&& final(s).cursor == p2 && final(s).line == l2
                    } else {
                        r matches Err(e) && e.kind_spec() matches ErrorKind::ParseError {
                            error: ParseError::UnexpectedToken { expected: TokenKind::String, got },
                            line,
                        } && line == m2.1
                    },
                    Err(se) => r matches Err(e) && e.kind_spec()
                        == crate::markup::scan::scan_err_kind(
                        spec_next_token(old(s).src@, p1, l1),
                    ),
                }
            },
            Err(se) => r matches Err(e) && e.kind_spec() == crate::markup::scan::scan_err_kind(
                spec_next_token(old(s).src@, old(s).cursor as int, old(s).line as int),
            ),
        },
{
    let builtin = match consume(s, TokenKind::Anchor) {
        Ok(t) => t,
        Err(e) => {
            return Err(e);
        },
    };
    let anchor = match consume(s, TokenKind::String) {
        Ok(t) => t,
        Err(e) => {
            return Err(e);
        },
    };
    Ok(
        PageItem {
            builtin,
            inline_styles: Vec::new(),
            payload: ItemPayload::Anchor { anchor },
        },
    )
}

/// What parsing a text body yields, from the `*` token on: the builtin
/// token model, the style models, the string token models, and the
/// position and line just before the closing parenthesis.
pub open spec fn spec_text_item(src: Seq<u8>, pos: int, line: int) -> Result<
    (((TokenKind, int, Seq<u8>), Seq<SpecStyleM>, Seq<(TokenKind, int, Seq<u8>)>), int, int),
    SpecErr,
> {
    match spec_next_token(src, pos, line) {
        Err((se, sl)) => Err(SpecErr::Scan { error: se, line: sl }),
        Ok((m1, p1, l1)) => {
            if m1.0 != TokenKind::Text {
                Err(
                    SpecErr::Unexpected {
                        expected: TokenKind::Text,
                        got: model_text(m1),
                        line: m1.1,
                    },
                )
            } else {
                match spec_inline_styles(src, p1, l1) {
                    Err(e) => Err(e),
                    Ok((ss, p3, l3)) => match spec_collect_text(src, p3, l3) {
                        Err(e) => Err(e),
                        Ok((tt, p4, l4)) => Ok(((m1, ss, tt), p4, l4)),
                    },
                }
            }
        },
    }
}

/// What parsing an implicit text body yields: the line of the first token
/// (which the synthesized builtin carries), the style models, the string
/// token models, and the position and line just before the `)`.
pub open spec fn spec_implicit_item(src: Seq<u8>, pos: int, line: int) -> Result<
    ((int, Seq<SpecStyleM>, Seq<(TokenKind, int, Seq<u8>)>), int, int),
    SpecErr,
> {
    match spec_next_token(src, pos, line) {
        Err((se, sl)) => Err(SpecErr::Scan { error: se, line: sl }),
        Ok((m1, mp1, ml1)) => match spec_inline_styles(src, pos, line) {
            Err(e) => Err(e),
            Ok((ss, p3, l3)) => match spec_collect_text(src, p3, l3) {
                Err(e) => Err(e),
                Ok((tt, p4, l4)) => Ok(((m1.1, ss, tt), p4, l4)),
            },
        },
    }
}

/// Parse a text item: inline styles, then its string tokens.
pub fn parse_text(s: &mut Scanner) -> (r: Result<PageItem, FroggiError>)
    requires
        old(s).wf(),
    ensures
        final(s).src == old(s).src,
        final(s).wf(),
        old(s).cursor <= final(s).cursor,
        r matches Ok(item) ==> item_wf(item),
        match spec_text_item(old(s).src@, old(s).cursor as int, old(s).line as int) {
            Ok((tm, p2, l2)) => (r matches Ok(item) && item.builtin.kind == tm.0.0
                && item.builtin.line == tm.0.1 && item.builtin.lexeme@ == tm.0.2 && (
            item.payload matches ItemPayload::Text { text } && token_models(text@) == tm.2)
                && style_models(item.inline_styles@) == tm.1 && final(s).cursor == p2
                && final(s).line == l2),
            Err(me) => (r matches Err(e) && spec_err_matches(e.kind_spec(), me)),
        },
{
    let builtin = match consume(s, TokenKind::Text) {
        Ok(t) => t,
        Err(e) => {
            return Err(e);
        },
    };
    proof {
        let src0 = old(s).src@;
        let c0 = old(s).cursor as int;
        let l0 = old(s).line as int;
        match spec_next_token(src0, c0, l0) {
            Ok((m1, p1, l1)) => {
                lemma_next_token_advances(src0, c0, l0);
                match spec_next_token(src0, p1, l1) {
                    Ok((m2, p2, l2)) => {
                        if m2.0 == TokenKind::RightParen {
                            assert(spec_collect_text(src0, p1, l1) == Ok::<_, SpecErr>(
                                (Seq::<(TokenKind, int, Seq<u8>)>::empty(), p1, l1),
                            ));
                        }
                    },
                    Err(e2) => {},
                }
            },
            Err(e1) => {},
        }
    }
    let inline_styles = match parse_inline_styles(s) {
        Ok(v) => v,
        Err(e) => {
            return Err(e);
        },
    };
    let text = match collect_text(s) {
        Ok(v) => v,
        Err(e) => {
            return Err(e);
        },
    };
    proof {
        assert(token_models(text@).len() == text@.len());
    }
    Ok(PageItem { builtin, inline_styles, payload: ItemPayload::Text { text } })
}

/// Parse a vertical box: inline styles, then nested items.
pub fn parse_vbox(s: &mut Scanner) -> (r: Result<PageItem, FroggiError>)
    requires
        old(s).wf(),
    ensures
        final(s).src == old(s).src,
        final(s).wf(),
        old(s).cursor <= final(s).cursor,
        r matches Ok(item) ==> item_wf(item),
        match spec_next_token(old(s).src@, old(s).cursor as int, old(s).line as int) {
            Ok((m1, p1, l1)) => {
                &&& (m1.0 != TokenKind::VBox ==> (r matches Err(e) && e.kind_spec() matches
                    ErrorKind::ParseError {
                        error: ParseError::UnexpectedToken { expected: TokenKind::VBox, got },
                        line,
                    } && line == m1.1))
                &&& (r matches Ok(item) ==> m1.0 == TokenKind::VBox && item.builtin.kind == m1.0
                    && item.builtin.line == m1.1 && item.builtin.lexeme@ == m1.2
                    && (item.payload matches ItemPayload::Children { children, line: ln }
                    && ln == m1.1))
                &&& ((m1.0 == TokenKind::VBox && (spec_next_token(old(s).src@, p1, l1) matches
                    Ok((m2, p2, l2)) && m2.0 == TokenKind::RightParen)) ==> (r matches Ok(item)
                    && item.inline_styles@.len() == 0 && (item.payload matches
                    ItemPayload::Children { children, line: ln } && children@.len() == 0)
                    && final(s).cursor == p1 && final(s).line == l1))
            },
            Err(e1) => r is Err,
        },
    decreases s.src@.len() - s.cursor, 2int,
{
    proof {
        if spec_next_token(old(s).src@, old(s).cursor as int, old(s).line as int) is Ok {
            lemma_next_token_advances(old(s).src@, old(s).cursor as int, old(s).line as int);
        }
    }
    let builtin = match consume(s, TokenKind::VBox) {
        Ok(t) => t,
        Err(e) => {
            return Err(e);
        },
    };
    parse_children(s, builtin)
}

/// Parse a horizontal box: inline styles, then nested items.
pub fn parse_box(s: &mut Scanner) -> (r: Result<PageItem, FroggiError>)
    requires
        old(s).wf(),
    ensures
        final(s).src == old(s).src,
        final(s).wf(),
        old(s).cursor <= final(s).cursor,
        r matches Ok(item) ==> item_wf(item),
        match spec_next_token(old(s).src@, old(s).cursor as int, old(s).line as int) {
            Ok((m1, p1, l1)) => {
                &&& (m1.0 != TokenKind::Box ==> (r matches Err(e) && e.kind_spec() matches
                    ErrorKind::ParseError {
                        error: ParseError::UnexpectedToken { expected: TokenKind::Box, got },
                        line,
                    } && line == m1.1))
                &&& (r matches Ok(item) ==> m1.0 == TokenKind::Box && item.builtin.kind == m1.0
                    && item.builtin.line == m1.1 && item.builtin.lexeme@ == m1.2
                    && (item.payload matches ItemPayload::Children { children, line: ln }
                    && ln == m1.1))
                &&& ((m1.0 == TokenKind::Box && (spec_next_token(old(s).src@, p1, l1) matches
                    Ok((m2, p2, l2)) && m2.0 == TokenKind::RightParen)) ==> (r matches Ok(item)
                    && item.inline_styles@.len() == 0 && (item.payload matches
                    ItemPayload::Children { children, line: ln } && children@.len() == 0)
                    && final(s).cursor == p1 && final(s).line == l1))
            },
            Err(e1) => r is Err,
        },
    decreases s.src@.len() - s.cursor, 2int,
{
    proof {
        if spec_next_token(old(s).src@, old(s).cursor as int, old(s).line as int) is Ok {
            lemma_next_token_advances(old(s).src@, old(s).cursor as int, old(s).line as int);
        }
    }
    let builtin = match consume(s, TokenKind::Box) {
        Ok(t) => t,
        Err(e) => {
            return Err(e);
        },
    };
    parse_children(s, builtin)
}

/// The shared body of the two box forms: inline styles, then nested items
/// until the closing parenthesis.
fn parse_children(s: &mut Scanner, builtin: Token) -> (r: Result<PageItem, FroggiError>)
    requires
        old(s).wf(),
        builtin.kind == TokenKind::VBox || builtin.kind == TokenKind::Box,
    ensures
        final(s).src == old(s).src,
        final(s).wf(),
        old(s).cursor <= final(s).cursor,
        r matches Ok(item) ==> item_wf(item) && item.builtin == builtin && (item.payload matches
            ItemPayload::Children { children, line } && line == builtin.line),
        (spec_next_token(old(s).src@, old(s).cursor as int, old(s).line as int) matches Ok(
            (m0, mp0, ml0),
        ) && m0.0 == TokenKind::RightParen) ==> (r matches Ok(item) && item.inline_styles@.len()
            == 0 && (item.payload matches ItemPayload::Children { children, line }
            && children@.len() == 0) && *final(s) == *old(s)),
    decreases s.src@.len() - s.cursor, 1int,
{
    let inline_styles = match parse_inline_styles(s) {
        Ok(v) => v,
        Err(e) => {
            return Err(e);
        },
    };
    let mut children: Vec<PageItem> = Vec::new();
    loop
        invariant
            s.wf(),
            s.src == old(s).src,
            old(s).cursor <= s.cursor,
            forall|i: int| 0 <= i < children@.len() ==> item_wf(#[trigger] children@[i]),
            (spec_next_token(old(s).src@, old(s).cursor as int, old(s).line as int) matches Ok(
                (m0, mp0, ml0),
            ) && m0.0 == TokenKind::RightParen) ==> (*s == *old(s) && children@.len() == 0
                && inline_styles@.len() == 0),
        decreases s.src@.len() - s.cursor,
    {
        let t = match s.peek_token(0) {
            Ok(t) => t,
            Err(e) => {
                return Err(e);
            },
        };
        if t.kind == TokenKind::RightParen {
            break;
        }
        if t.kind == TokenKind::End {
            return Err(
                FroggiError::parse(ParseError::UnbalancedParentheses, builtin.line()).msg_str(
                    "box is never closed",
                ),
            );
        }
        let ghost children0 = children@;
        match parse_item(s) {
            Ok(child) => {
                children.push(child);
                proof {
                    assert forall|i: int| 0 <= i < children@.len() implies item_wf(
                        #[trigger] children@[i],
                    ) by {
                        if i < children0.len() {
                            assert(children@[i] == children0[i]);
                        }
                    }
                }
            },
            Err(e) => {
                return Err(e);
            },
        }
    }
    let line = builtin.line();
    Ok(PageItem { builtin, inline_styles, payload: ItemPayload::Children { children, line } })
}

/// Parse an item whose first token is no recognized built-in: it is read as
/// text under a synthetic implicit-text token.
pub fn parse_implicit_text(s: &mut Scanner) -> (r: Result<PageItem, FroggiError>)
    requires
        old(s).wf(),
    ensures
        final(s).src == old(s).src,
        final(s).wf(),
        old(s).cursor <= final(s).cursor,
        r matches Ok(item) ==> item_wf(item) && item.builtin.kind == TokenKind::ImplicitText
            && item.builtin.lexeme@.len() == 0,
        match spec_implicit_item(old(s).src@, old(s).cursor as int, old(s).line as int) {
            Ok((tm, p2, l2)) => (r matches Ok(item) && item.builtin.line == tm.0 && (
            item.payload matches ItemPayload::Text { text } && token_models(text@) == tm.2)
                && style_models(item.inline_styles@) == tm.1 && final(s).cursor == p2
                && final(s).line == l2),
            Err(me) => (r matches Err(e) && spec_err_matches(e.kind_spec(), me)),
        },
{
    let next = match s.peek_token(0) {
        Ok(t) => t,
        Err(e) => {
            return Err(e);
        },
    };
    let implicit = Token::new(TokenKind::ImplicitText, next.line(), "");
    proof {
        let src0 = old(s).src@;
        let c0 = old(s).cursor as int;
        let l0 = old(s).line as int;
        match spec_next_token(src0, c0, l0) {
            Ok((m1, p1, l1)) => {
                if m1.0 == TokenKind::RightParen {
                    assert(spec_collect_text(src0, c0, l0) == Ok::<_, SpecErr>(
                        (Seq::<(TokenKind, int, Seq<u8>)>::empty(), c0, l0),
                    ));
                }
            },
            Err(e1) => {},
        }
    }
    proof {
        reveal_strlit("");
        assert(""@ =~= Seq::<char>::empty());
        assert(implicit.lexeme@ =~= Seq::<u8>::empty());
    }
    let inline_styles = match parse_inline_styles(s) {
        Ok(v) => v,
        Err(e) => {
            return Err(e);
        },
    };
    let text = match collect_text(s) {
        Ok(v) => v,
        Err(e) => {
            return Err(e);
        },
    };
    proof {
        assert(token_models(text@).len() == text@.len());
    }
    Ok(PageItem { builtin: implicit, inline_styles, payload: ItemPayload::Text { text } })
}

/// When the source holds exactly one anchor item — '(', '#', a string, ')'
/// and then the end of input — the built-in and anchor token models and the
/// position and line after the closing parenthesis; None otherwise.
pub open spec fn spec_single_anchor(src: Seq<u8>) -> Option<
    ((TokenKind, int, Seq<u8>), (TokenKind, int, Seq<u8>), int, int),
> {
    match spec_next_token(src, 0, 1) {
        Ok((m1, p1, l1)) => if m1.0 == TokenKind::LeftParen {
            match spec_next_token(src, p1, l1) {
                Ok((m2, p2, l2)) => if m2.0 == TokenKind::Anchor {
                    match spec_next_token(src, p2, l2) {
                        Ok((m3, p3, l3)) => if m3.0 == TokenKind::String {
                            match spec_next_token(src, p3, l3) {
                                Ok((m4, p4, l4)) => if m4.0 == TokenKind::RightParen {
                                    match spec_next_token(src, p4, l4) {
                                        Ok((m5, p5, l5)) => if m5.0 == TokenKind::End {
                                            Some((m2, m3, p4, l4))
                                        } else {
                                            None
                                        },
                                        Err(e) => None,
                                    }
                                } else {
                                    None
                                },
                                Err(e) => None,
                            }
                        } else {
                            None
                        },
                        Err(e) => None,
                    }
                } else {
                    None
                },
                Err(e) => None,
            }
        } else {
            None
        },
        Err(e) => None,
    }
}

/// The error is an expected-item diagnostic at the given line.
pub open spec fn errs_kind_expected_item(e: FroggiError, line: int) -> bool {
    e.kind_spec() matches ErrorKind::ParseError {
        error: ParseError::ExpectedItem { got },
        line: l,
    } && l == line
}

/// When the whole source is one blob or link item — `(`, the kind's
/// sigil, its pieces, `)` and then the end of input — the item's models
/// and the position past the closing parenthesis; None otherwise.
pub open spec fn spec_single_named(src: Seq<u8>, kind: TokenKind) -> Option<
    (
        (
            (TokenKind, int, Seq<u8>),
            (TokenKind, int, Seq<u8>),
            Seq<SpecStyleM>,
            Seq<(TokenKind, int, Seq<u8>)>,
        ),
        int,
        int,
    ),
> {
    match spec_next_token(src, 0, 1) {
        Err(e) => None,
        Ok((m1, p1, l1)) => {
            if m1.0 != TokenKind::LeftParen {
                None
            } else {
                match spec_next_token(src, p1, l1) {
                    Err(e) => None,
                    Ok((m2, p2, l2)) => {
                        if m2.0 != kind {
                            None
                        } else {
                            match spec_named_item(src, p1, l1, kind) {
                                Err(e) => None,
                                Ok(bm) => {
                                    match spec_item_close(
                                        src,
                                        spec_named_item_end(src, p1, l1, kind).0,
                                        spec_named_item_end(src, p1, l1, kind).1,
                                        m1.1,
                                    ) {
                                        Err(e) => None,
                                        Ok((pc, lc)) => match spec_next_token(src, pc, lc) {
                                            Err(e) => None,
                                            Ok((m5, p5, l5)) => if m5.0 == TokenKind::End {
                                                Some((bm, pc, lc))
                                            } else {
                                                None
                                            },
                                        },
                                    }
                                },
                            }
                        }
                    },
                }
            }
        },
    }
}

/// When the whole source is one page-style block — `{`, its rules, `}`
/// and then the end of input — the rule models and the position past the
/// closing brace; None otherwise.
pub open spec fn spec_single_styles(src: Seq<u8>) -> Option<
    (Seq<((TokenKind, int, Seq<u8>), Seq<SpecStyleM>)>, int, int),
> {
    match spec_next_token(src, 0, 1) {
        Err(e) => None,
        Ok((m1, p1, l1)) => {
            if m1.0 != TokenKind::LeftBrace {
                None
            } else {
                match spec_page_styles(src, 0, 1) {
                    Err(e) => None,
                    Ok((ms, pc, lc)) => match spec_next_token(src, pc, lc) {
                        Err(e) => None,
                        Ok((m5, p5, l5)) => if m5.0 == TokenKind::End {
                            Some((ms, pc, lc))
                        } else {
                            None
                        },
                    },
                }
            }
        },
    }
}

/// When the source is one page-style block, a second opening brace, and
/// then the end of input: the second brace's token model and the position
/// past it; None otherwise. The second block is the diagnosed duplicate.
pub open spec fn spec_dup_block(src: Seq<u8>) -> Option<((TokenKind, int, Seq<u8>), int, int)> {
    match spec_next_token(src, 0, 1) {
        Err(e) => None,
        Ok((m1, p1, l1)) => {
            if m1.0 != TokenKind::LeftBrace {
                None
            } else {
                match spec_page_styles(src, 0, 1) {
                    Err(e) => None,
                    Ok((ms, pc, lc)) => match spec_next_token(src, pc, lc) {
                        Err(e) => None,
                        Ok((m2, q, ql)) => {
                            if m2.0 != TokenKind::LeftBrace {
                                None
                            } else {
                                match spec_next_token(src, q, ql) {
                                    Err(e) => None,
                                    Ok((m3, p3, l3)) => if m3.0 == TokenKind::End {
                                        Some((m2, q, ql))
                                    } else {
                                        None
                                    },
                                }
                            }
                        },
                    },
                }
            }
        },
    }
}

/// Token kinds that open nothing at the top level: not an item, not a
/// page-style block, and not the end of input.
pub open spec fn stray_kind(k: TokenKind) -> bool {
    k != TokenKind::End && k != TokenKind::LeftBrace && k != TokenKind::LeftParen
}

/// When the source holds exactly two stray tokens and then the end of
/// input: the two token steps; None otherwise.
pub open spec fn spec_two_stray(src: Seq<u8>) -> Option<
    (((TokenKind, int, Seq<u8>), int, int), ((TokenKind, int, Seq<u8>), int, int)),
> {
    match spec_next_token(src, 0, 1) {
        Ok((m1, p1, l1)) => if stray_kind(m1.0) {
            match spec_next_token(src, p1, l1) {
                Ok((m2, p2, l2)) => if stray_kind(m2.0) {
                    match spec_next_token(src, p2, l2) {
                        Ok((m3, p3, l3)) => if m3.0 == TokenKind::End {
                            Some(((m1, p1, l1), (m2, p2, l2)))
                        } else {
                            None
                        },
                        Err(e) => None,
                    }
                } else {
                    None
                },
                Err(e) => None,
            }
        } else {
            None
        },
        Err(e) => None,
    }
}

/// Parse FML source into a Page, collecting top-level diagnostics.
pub fn parse(data: &str) -> (r: Result<Page, Vec<FroggiError>>)
    requires
        data.spec_bytes().len() < usize::MAX,
    ensures
        r matches Ok(page) ==> page_wf(page),
        r matches Err(errs) ==> errs@.len() >= 1,
        spec_next_token(data.spec_bytes(), 0, 1) is Err ==> (r matches Err(errs) && errs@.len()
            == 1 && errs@[0].kind_spec() == crate::markup::scan::scan_err_kind(
            spec_next_token(data.spec_bytes(), 0, 1),
        )),
        (spec_next_token(data.spec_bytes(), 0, 1) matches Ok((m, mp, ml)) && m.0
            == TokenKind::End) ==> (r matches Ok(page) && page.styles@.len() == 0
            && page.items@.len() == 0),
        spec_single_anchor(data.spec_bytes()) matches Some((mb, ma, pe, le)) ==> (r matches Ok(
            page,
        ) && page.styles@.len() == 0 && page.items@.len() == 1 && page.items@[0].builtin.kind
            == mb.0 && page.items@[0].builtin.line == mb.1 && page.items@[0].builtin.lexeme@
            == mb.2 && (page.items@[0].payload matches ItemPayload::Anchor { anchor }
            && anchor.kind == ma.0 && anchor.line == ma.1 && anchor.lexeme@ == ma.2)
            && page.items@[0].inline_styles@.len() == 0),
        spec_single_named(data.spec_bytes(), TokenKind::Blob) matches Some((bm, pc, lc)) ==> (
        r matches Ok(page) && page.styles@.len() == 0 && page.items@.len() == 1
            && page.items@[0].builtin.kind == bm.0.0 && page.items@[0].builtin.line == bm.0.1
            && page.items@[0].builtin.lexeme@ == bm.0.2 && (page.items@[0].payload matches
            ItemPayload::Blob { name, alt } && name.kind == bm.1.0 && name.line == bm.1.1
            && name.lexeme@ == bm.1.2 && token_models(alt@) == bm.3) && style_models(
            page.items@[0].inline_styles@,
        ) == bm.2),
        spec_single_named(data.spec_bytes(), TokenKind::Link) matches Some((bm, pc, lc)) ==> (
        r matches Ok(page) && page.styles@.len() == 0 && page.items@.len() == 1
            && page.items@[0].builtin.kind == bm.0.0 && page.items@[0].builtin.line == bm.0.1
            && page.items@[0].builtin.lexeme@ == bm.0.2 && (page.items@[0].payload matches
            ItemPayload::Link { link, text } && link.kind == bm.1.0 && link.line == bm.1.1
            && link.lexeme@ == bm.1.2 && token_models(text@) == bm.3) && style_models(
            page.items@[0].inline_styles@,
        ) == bm.2),
        spec_single_styles(data.spec_bytes()) matches Some((ms, pc, lc)) ==> (r matches Ok(
            page,
        ) && page.items@.len() == 0 && rule_models(page.styles@) == ms),
        spec_dup_block(data.spec_bytes()) matches Some((m2, q, ql)) ==> (r matches Err(errs)
            && errs@.len() == 1 && (errs@[0].kind_spec() matches ErrorKind::ParseError {
            error: ParseError::ExpectedItem { got },
            line,
        } && got@ == model_text(m2) && line == m2.1)),
        spec_two_stray(data.spec_bytes()) matches Some((t1, t2)) ==> (r matches Err(errs)
            && errs@.len() == 2 && (errs@[0].kind_spec() matches ErrorKind::ParseError {
            error: ParseError::ExpectedItem { got },
            line,
        } && line == t1.0.1) && (errs@[1].kind_spec() matches ErrorKind::ParseError {
            error: ParseError::ExpectedItem { got },
            line,
        } && line == t2.0.1)),
{
    let mut errors: Vec<FroggiError> = Vec::new();
    let mut items: Vec<PageItem> = Vec::new();
    let mut page_styles: Vec<PageStyle> = Vec::new();
    let mut styles_seen = false;
    let mut scanner = Scanner::new(data);
    loop
        invariant
            scanner.wf(),
            scanner.src@ == data.spec_bytes(),
            forall|i: int| 0 <= i < items@.len() ==> item_wf(#[trigger] items@[i]),
            forall|i: int| 0 <= i < page_styles@.len() ==> page_style_wf(
                #[trigger] page_styles@[i],
            ),
            spec_next_token(data.spec_bytes(), 0, 1) is Err ==> (scanner.cursor == 0
                && scanner.line == 1),
            (spec_next_token(data.spec_bytes(), 0, 1) matches Ok((m, mp, ml)) && m.0
                == TokenKind::End) ==> (scanner.cursor == 0 && scanner.line == 1 && items@.len()
                == 0 && page_styles@.len() == 0 && errors@.len() == 0),
            spec_two_stray(data.spec_bytes()) matches Some((t1, t2)) ==> ((scanner.cursor == 0
                && scanner.line == 1 && errors@.len() == 0) || (scanner.cursor == t1.1
                && scanner.line == t1.2 && errors@.len() == 1 && (errs_kind_expected_item(
                errors@[0],
                t1.0.1,
            ))) || (scanner.cursor == t2.1 && scanner.line == t2.2 && errors@.len() == 2
                && errs_kind_expected_item(errors@[0], t1.0.1) && errs_kind_expected_item(
                errors@[1],
                t2.0.1,
            ))),
            spec_dup_block(data.spec_bytes()) matches Some((m2, q, ql)) ==> ((scanner.cursor
                == 0 && scanner.line == 1 && items@.len() == 0 && page_styles@.len() == 0
                && errors@.len() == 0 && !styles_seen) || (
            spec_page_styles(data.spec_bytes(), 0, 1) matches Ok((ms1, pc1, lc1))
                && scanner.cursor == pc1 && scanner.line == lc1 && items@.len() == 0
                && errors@.len() == 0 && styles_seen) || (scanner.cursor == q && scanner.line
                == ql && items@.len() == 0 && errors@.len() == 1 && (
            errors@[0].kind_spec() matches ErrorKind::ParseError {
                error: ParseError::ExpectedItem { got },
                line,
            } && got@ == model_text(m2) && line == m2.1))),
            spec_single_styles(data.spec_bytes()) matches Some((ms, pc, lc)) ==> ((
            scanner.cursor == 0 && scanner.line == 1 && items@.len() == 0 && page_styles@.len()
                == 0 && errors@.len() == 0 && !styles_seen) || (scanner.cursor == pc
                && scanner.line == lc && items@.len() == 0 && rule_models(page_styles@) == ms
                && errors@.len() == 0)),
            spec_single_named(data.spec_bytes(), TokenKind::Blob) matches Some(
                (bm, pc, lc),
            ) ==> ((scanner.cursor == 0 && scanner.line == 1 && items@.len() == 0
                && page_styles@.len() == 0 && errors@.len() == 0) || (scanner.cursor == pc
                && scanner.line == lc && items@.len() == 1 && items@[0].builtin.kind == bm.0.0
                && items@[0].builtin.line == bm.0.1 && items@[0].builtin.lexeme@ == bm.0.2 && (
            items@[0].payload matches ItemPayload::Blob { name, alt } && name.kind == bm.1.0
                && name.line == bm.1.1 && name.lexeme@ == bm.1.2 && token_models(alt@) == bm.3)
                && style_models(items@[0].inline_styles@) == bm.2 && page_styles@.len() == 0
                && errors@.len() == 0)),
            spec_single_named(data.spec_bytes(), TokenKind::Link) matches Some(
                (bm, pc, lc),
            ) ==> ((scanner.cursor == 0 && scanner.line == 1 && items@.len() == 0
                && page_styles@.len() == 0 && errors@.len() == 0) || (scanner.cursor == pc
                && scanner.line == lc && items@.len() == 1 && items@[0].builtin.kind == bm.0.0
                && items@[0].builtin.line == bm.0.1 && items@[0].builtin.lexeme@ == bm.0.2 && (
            items@[0].payload matches ItemPayload::Link { link, text } && link.kind == bm.1.0
                && link.line == bm.1.1 && link.lexeme@ == bm.1.2 && token_models(text@) == bm.3)
                && style_models(items@[0].inline_styles@) == bm.2 && page_styles@.len() == 0
                && errors@.len() == 0)),
            spec_single_anchor(data.spec_bytes()) matches Some((mb, ma, pe, le)) ==> ((
            scanner.cursor == 0 && scanner.line == 1 && items@.len() == 0 && page_styles@.len()
                == 0 && errors@.len() == 0) || (scanner.cursor == pe && scanner.line == le
                && items@.len() == 1 && items@[0].builtin.kind == mb.0 && items@[0].builtin.line
                == mb.1 && items@[0].builtin.lexeme@ == mb.2 && (items@[0].payload matches
                ItemPayload::Anchor { anchor } && anchor.kind == ma.0 && anchor.line == ma.1
                && anchor.lexeme@ == ma.2) && items@[0].inline_styles@.len() == 0
                && page_styles@.len() == 0 && errors@.len() == 0)),
        decreases scanner.src@.len() - scanner.cursor,
    {
        let t = match scanner.peek_token(0) {
            Ok(t) => t,
            Err(e) => {
                let mut fatal: Vec<FroggiError> = Vec::new();
                fatal.push(e);
                return Err(fatal);
            },
        };
        if t.kind == TokenKind::End {
            if errors.len() == 0 {
                return Ok(Page { styles: page_styles, items });
            } else {
                return Err(errors);
            }
        }
        if t.kind == TokenKind::LeftBrace && !styles_seen && items.len() == 0 {
            // A single page-level style block is allowed, before any items;
            // a duplicate block, or one after an item, is an ExpectedItem
            // diagnostic below.
            styles_seen = true;
            match parse_page_styles(&mut scanner) {
                Ok(styles) => {
                    page_styles = styles;
                },
                Err(e) => {
                    errors.push(e);
                },
            }
        } else if t.kind == TokenKind::LeftParen {
            let ghost items0 = items@;
            match parse_item(&mut scanner) {
                Ok(item) => {
                    items.push(item);
                    proof {
                        assert forall|i: int| 0 <= i < items@.len() implies item_wf(
                            #[trigger] items@[i],
                        ) by {
                            if i < items0.len() {
                                assert(items@[i] == items0[i]);
                            }
                        }
                    }
                },
                Err(e) => {
                    errors.push(e);
                },
            }
        } else {
            errors.push(
                FroggiError::parse(
                    ParseError::ExpectedItem { got: t.clone_lexeme() },
                    t.line(),
                ),
            );
            match scanner.next_token() {
                Ok(_) => {},
                Err(e) => {
                    errors.push(e);
                    return Err(errors);
                },
            }
        }
    }
}

} // verus!
