//! Resolution of raw style specs into typed inline styles.
//!
//! The known nullary styles are `mono`, `serif`, `sans`, `bold`, `italic`,
//! `underline` and `strike`; the known unary styles are `fg` and `bg` (a
//! six-hex-digit color), `fill` (a decimal in 0..=255) and `size` (a decimal
//! in 1..=65535). Any other name is a reference to a page-style selector.

use crate::markup::scan::{token_like, Token, TokenKind};
use crate::markup::{InlineStyle, PageStyle, StyleSpec};
use crate::{FroggiError, ParseError};
use vstd::pervasive::VecAdditionalExecFns;
use vstd::prelude::*;
use vstd::string::StrSliceExecFns;

verus! {

// ---------------------------------------------------------------------------
// Style keywords
// ---------------------------------------------------------------------------

pub open spec fn kw_mono() -> Seq<u8> {
    seq!['m' as u8, 'o' as u8, 'n' as u8, 'o' as u8]
}

pub open spec fn kw_serif() -> Seq<u8> {
    seq!['s' as u8, 'e' as u8, 'r' as u8, 'i' as u8, 'f' as u8]
}

pub open spec fn kw_sans() -> Seq<u8> {
    seq!['s' as u8, 'a' as u8, 'n' as u8, 's' as u8]
}

pub open spec fn kw_bold() -> Seq<u8> {
    seq!['b' as u8, 'o' as u8, 'l' as u8, 'd' as u8]
}

pub open spec fn kw_italic() -> Seq<u8> {
    seq!['i' as u8, 't' as u8, 'a' as u8, 'l' as u8, 'i' as u8, 'c' as u8]
}

pub open spec fn kw_underline() -> Seq<u8> {
    seq![
        'u' as u8,
        'n' as u8,
        'd' as u8,
        'e' as u8,
        'r' as u8,
        'l' as u8,
        'i' as u8,
        'n' as u8,
        'e' as u8,
    ]
}

pub open spec fn kw_strike() -> Seq<u8> {
    seq!['s' as u8, 't' as u8, 'r' as u8, 'i' as u8, 'k' as u8, 'e' as u8]
}

pub open spec fn kw_fg() -> Seq<u8> {
    seq!['f' as u8, 'g' as u8]
}

pub open spec fn kw_bg() -> Seq<u8> {
    seq!['b' as u8, 'g' as u8]
}

pub open spec fn kw_fill() -> Seq<u8> {
    seq!['f' as u8, 'i' as u8, 'l' as u8, 'l' as u8]
}

pub open spec fn kw_size() -> Seq<u8> {
    seq!['s' as u8, 'i' as u8, 'z' as u8, 'e' as u8]
}

/// Compare a lexeme with a keyword given as a byte slice.
fn lex_eq(a: &Vec<u8>, b: &[u8]) -> (r: bool)
    ensures
        r == (a@ == b@),
{
    if a.len() != b.len() {
        proof {
            if a@ == b@ {
                assert(a@.len() == b@.len());
            }
        }
        return false;
    }
    let mut i: usize = 0;
    while i < a.len()
        invariant
            0 <= i <= a.len(),
            a@.len() == b@.len(),
            forall|j: int| 0 <= j < i ==> a@[j] == b@[j],
        decreases a.len() - i,
    {
        if a[i] != b[i] {
            proof {
                if a@ == b@ {
                    assert(a@[i as int] == b@[i as int]);
                }
            }
            return false;
        }
        i = i + 1;
    }
    proof {
        assert(a@ =~= b@);
    }
    true
}

// ---------------------------------------------------------------------------
// Numeric arguments
// ---------------------------------------------------------------------------

pub open spec fn is_dec_digit(b: u8) -> bool {
    '0' as u8 <= b <= '9' as u8
}

pub open spec fn all_dec_digits(s: Seq<u8>) -> bool {
    forall|i: int| 0 <= i < s.len() ==> is_dec_digit(#[trigger] s[i])
}

/// The value of a decimal digit string.
pub open spec fn dec_val(s: Seq<u8>) -> int
    decreases s.len(),
{
    if s.len() == 0 {
        0
    } else {
        dec_val(s.drop_last()) * 10 + (s.last() - '0' as u8)
    }
}

proof fn lemma_dec_val_nonneg(s: Seq<u8>)
    requires
        all_dec_digits(s),
    ensures
        dec_val(s) >= 0,
    decreases s.len(),
{
    if s.len() > 0 {
        assert(all_dec_digits(s.drop_last())) by {
            assert(forall|i: int|
                0 <= i < s.len() - 1 ==> #[trigger] s.drop_last()[i] == s[i]);
        }
        lemma_dec_val_nonneg(s.drop_last());
    }
}

/// Parse a decimal integer no larger than `max`; `max` is at most 65535.
pub fn parse_dec(s: &Vec<u8>, max: u32) -> (r: Option<u32>)
    requires
        max <= 65535,
    ensures
        r is Some <==> (s@.len() > 0 && all_dec_digits(s@) && dec_val(s@) <= max),
        r matches Some(v) ==> v == dec_val(s@) && v <= max,
{
    if s.len() == 0 {
        return None;
    }
    let mut acc: u32 = 0;
    let mut i: usize = 0;
    while i < s.len()
        invariant
            0 < s@.len(),
            0 <= i <= s.len(),
            forall|j: int| 0 <= j < i ==> is_dec_digit(#[trigger] s@[j]),
            acc <= 100000,
            dec_val(s@.take(i as int)) <= 65535 ==> acc == dec_val(s@.take(i as int)),
            dec_val(s@.take(i as int)) > 65535 ==> acc == 100000,
            dec_val(s@.take(i as int)) >= 0,
        decreases s.len() - i,
    {
        let b = s[i];
        if b < '0' as u8 || b > '9' as u8 {
            proof {
                assert(!is_dec_digit(s@[i as int]));
            }
            return None;
        }
        let d = (b - '0' as u8) as u32;
        proof {
            assert(s@.take(i + 1 as int).drop_last() =~= s@.take(i as int));
            assert(s@.take(i + 1 as int).last() == s@[i as int]);
        }
        if acc > 6553 || (acc == 6553 && d > 5) {
            // The value now exceeds 65535 whatever follows.
            acc = 100000;
        } else {
            acc = acc * 10 + d;
        }
        proof {
            let pv = dec_val(s@.take(i as int));
            let nv = dec_val(s@.take(i + 1 as int));
            assert(nv == pv * 10 + d);
        }
        i = i + 1;
    }
    proof {
        assert(s@.take(s@.len() as int) =~= s@);
    }
    if acc > max {
        None
    } else {
        Some(acc)
    }
}

/// The value of a hexadecimal digit, or -1 where the byte is none.
pub open spec fn hex_digit_val(b: u8) -> int {
    if '0' as u8 <= b <= '9' as u8 {
        b - '0' as u8
    } else if 'a' as u8 <= b <= 'f' as u8 {
        b - 'a' as u8 + 10
    } else if 'A' as u8 <= b <= 'F' as u8 {
        b - 'A' as u8 + 10
    } else {
        -1
    }
}

pub open spec fn is_hex_digit(b: u8) -> bool {
    hex_digit_val(b) >= 0
}

fn hex_val(b: u8) -> (r: Option<u8>)
    ensures
        r is Some <==> is_hex_digit(b),
        r matches Some(v) ==> v == hex_digit_val(b) && v < 16,
{
    if '0' as u8 <= b && b <= '9' as u8 {
        Some(b - '0' as u8)
    } else if 'a' as u8 <= b && b <= 'f' as u8 {
        Some(b - 'a' as u8 + 10)
    } else if 'A' as u8 <= b && b <= 'F' as u8 {
        Some(b - 'A' as u8 + 10)
    } else {
        None
    }
}

/// The byte value of two hexadecimal digits.
pub open spec fn hex_pair_val(a: u8, b: u8) -> int {
    16 * hex_digit_val(a) + hex_digit_val(b)
}

/// Parse a six-hex-digit RGB color string into its three bytes.
pub fn parse_hex_color(s: &Vec<u8>) -> (r: Option<(u8, u8, u8)>)
    ensures
        r is Some <==> (s@.len() == 6 && forall|i: int|
            0 <= i < 6 ==> is_hex_digit(#[trigger] s@[i])),
        r matches Some(c) ==> {
            &&& c.0 == hex_pair_val(s@[0], s@[1])
            &&& c.1 == hex_pair_val(s@[2], s@[3])
            &&& c.2 == hex_pair_val(s@[4], s@[5])
        },
{
    if s.len() != 6 {
        return None;
    }
    let d0 = hex_val(s[0]);
    let d1 = hex_val(s[1]);
    let d2 = hex_val(s[2]);
    let d3 = hex_val(s[3]);
    let d4 = hex_val(s[4]);
    let d5 = hex_val(s[5]);
    match (d0, d1, d2, d3, d4, d5) {
        (Some(a), Some(b), Some(c), Some(d), Some(e), Some(f)) => Some(
            (16 * a + b, 16 * c + d, 16 * e + f),
        ),
        _ => {
            proof {
                assert(!(forall|i: int| 0 <= i < 6 ==> is_hex_digit(#[trigger] s@[i]))) by {
                    if forall|i: int| 0 <= i < 6 ==> is_hex_digit(#[trigger] s@[i]) {
                        assert(is_hex_digit(s@[0]) && is_hex_digit(s@[1]) && is_hex_digit(s@[2])
                            && is_hex_digit(s@[3]) && is_hex_digit(s@[4]) && is_hex_digit(s@[5]));
                    }
                }
            }
            None
        },
    }
}

// ---------------------------------------------------------------------------
// Resolution
// ---------------------------------------------------------------------------

/// Whether some page-style rule carries this selector name.
pub open spec fn selector_named(ps: Seq<PageStyle>, name: Seq<u8>) -> bool {
    exists|i: int| 0 <= i < ps.len() && (#[trigger] ps[i]).selector.text_spec() == name
}

/// What one raw style spec resolves to, against the given page styles.
pub open spec fn resolves_to(ps: Seq<PageStyle>, sp: StyleSpec, out: InlineStyle) -> bool {
    match sp {
        StyleSpec::WithoutArg { name } => {
            let n = name.text_spec();
            if n == kw_mono() {
                out matches InlineStyle::Mono { token } && token_like(token, name)
            } else if n == kw_serif() {
                out matches InlineStyle::Serif { token } && token_like(token, name)
            } else if n == kw_sans() {
                out matches InlineStyle::Sans { token } && token_like(token, name)
            } else if n == kw_bold() {
                out matches InlineStyle::Bold { token } && token_like(token, name)
            } else if n == kw_italic() {
                out matches InlineStyle::Italic { token } && token_like(token, name)
            } else if n == kw_underline() {
                out matches InlineStyle::Underline { token } && token_like(token, name)
            } else if n == kw_strike() {
                out matches InlineStyle::Strike { token } && token_like(token, name)
            } else {
                out matches InlineStyle::UserDefined { token } && token_like(token, name)
                    && selector_named(ps, n)
            }
        },
        StyleSpec::WithArg { name, arg } => {
            let n = name.text_spec();
            let a = arg.text_spec();
            if n == kw_fg() {
                &&& a.len() == 6
                &&& out matches InlineStyle::Fg { token, arg: c } && token_like(token, name) && c
                    == (
                    hex_pair_val(a[0], a[1]) as u8,
                    hex_pair_val(a[2], a[3]) as u8,
                    hex_pair_val(a[4], a[5]) as u8,
                )
            } else if n == kw_bg() {
                &&& a.len() == 6
                &&& out matches InlineStyle::Bg { token, arg: c } && token_like(token, name) && c
                    == (
                    hex_pair_val(a[0], a[1]) as u8,
                    hex_pair_val(a[2], a[3]) as u8,
                    hex_pair_val(a[4], a[5]) as u8,
                )
            } else if n == kw_fill() {
                &&& dec_val(a) <= 255
                &&& out matches InlineStyle::Fill { token, arg: v } && token_like(token, name)
                    && v == dec_val(a) as u8
            } else if n == kw_size() {
                &&& 1 <= dec_val(a) <= 65535
                &&& out matches InlineStyle::Size { token, arg: v } && token_like(token, name)
                    && v == dec_val(a) as usize
            } else {
                out matches InlineStyle::UserDefined { token } && token_like(token, name)
                    && selector_named(ps, n)
            }
        },
    }
}

/// Whether a style spec names one of the built-in styles (rather than
/// referring to a page-style selector).
pub open spec fn is_builtin_style(sp: StyleSpec) -> bool {
    match sp {
        StyleSpec::WithoutArg { name } => {
            let n = name.text_spec();
            n == kw_mono() || n == kw_serif() || n == kw_sans() || n == kw_bold() || n
                == kw_italic() || n == kw_underline() || n == kw_strike()
        },
        StyleSpec::WithArg { name, arg } => {
            let n = name.text_spec();
            n == kw_fg() || n == kw_bg() || n == kw_fill() || n == kw_size()
        },
    }
}

/// A built-in style spec whose argument, if any, is well-formed.
pub open spec fn builtin_style_ok(sp: StyleSpec) -> bool {
    is_builtin_style(sp) && match sp {
        StyleSpec::WithoutArg { name } => true,
        StyleSpec::WithArg { name, arg } => {
            let n = name.text_spec();
            let a = arg.text_spec();
            if n == kw_fg() || n == kw_bg() {
                a.len() == 6 && forall|i: int| 0 <= i < 6 ==> is_hex_digit(#[trigger] a[i])
            } else if n == kw_fill() {
                a.len() > 0 && all_dec_digits(a) && dec_val(a) <= 255
            } else {
                a.len() > 0 && all_dec_digits(a) && 1 <= dec_val(a) <= 65535
            }
        },
    }
}

/// Find the page-style rule whose selector has the given name.
fn find_selector(ps: &Vec<PageStyle>, name: &Vec<u8>) -> (r: Option<usize>)
    ensures
        r matches Some(i) ==> i < ps@.len() && ps@[i as int].selector.text_spec() == name@,
        r is None ==> !selector_named(ps@, name@),
{
    let mut i: usize = 0;
    while i < ps.len()
        invariant
            0 <= i <= ps@.len(),
            forall|j: int| 0 <= j < i ==> (#[trigger] ps@[j]).selector.text_spec() != name@,
        decreases ps@.len() - i,
    {
        let lex = ps[i].selector.lexeme();
        if lex_eq(name, lex.as_slice()) {
            return Some(i);
        }
        i = i + 1;
    }
    None
}

/// The selector names that one style spec refers to, if it is a reference.
fn spec_ref_name(sp: &StyleSpec) -> (r: Option<Vec<u8>>) {
    let name = match sp {
        StyleSpec::WithoutArg { name } => name,
        StyleSpec::WithArg { name, arg } => name,
    };
    let lex = name.lexeme();
    if lex_eq(&lex, "mono".as_bytes()) || lex_eq(&lex, "serif".as_bytes()) || lex_eq(
        &lex,
        "sans".as_bytes(),
    ) || lex_eq(&lex, "bold".as_bytes()) || lex_eq(&lex, "italic".as_bytes()) || lex_eq(
        &lex,
        "underline".as_bytes(),
    ) || lex_eq(&lex, "strike".as_bytes()) || lex_eq(&lex, "fg".as_bytes()) || lex_eq(
        &lex,
        "bg".as_bytes(),
    ) || lex_eq(&lex, "fill".as_bytes()) || lex_eq(&lex, "size".as_bytes()) {
        None
    } else {
        Some(lex)
    }
}

/// How many rules the recursion search has not visited yet.
spec fn count_unvisited(v: Seq<bool>) -> int
    decreases v.len(),
{
    if v.len() == 0 {
        0
    } else {
        count_unvisited(v.drop_last()) + if v.last() {
            0int
        } else {
            1int
        }
    }
}

proof fn lemma_count_unvisited_bounds(v: Seq<bool>)
    ensures
        0 <= count_unvisited(v) <= v.len(),
    decreases v.len(),
{
    if v.len() > 0 {
        lemma_count_unvisited_bounds(v.drop_last());
    }
}

proof fn lemma_count_unvisited_update(v: Seq<bool>, i: int)
    requires
        0 <= i < v.len(),
        !v[i],
    ensures
        count_unvisited(v.update(i, true)) == count_unvisited(v) - 1,
    decreases v.len(),
{
    let w = v.update(i, true);
    if i == v.len() - 1 {
        assert(w.drop_last() =~= v.drop_last());
        assert(w.last() == true);
        assert(v.last() == false);
    } else {
        assert(w.drop_last() =~= v.drop_last().update(i, true));
        assert(w.last() == v.last());
        lemma_count_unvisited_update(v.drop_last(), i);
    }
}

/// Whether the page-style rule at `start` refers, transitively, to its own
/// selector through user-defined style references.
fn is_recursive(ps: &Vec<PageStyle>, start: usize) -> (r: bool)
    requires
        start < ps@.len(),
{
    let start_name = ps[start].selector.lexeme();
    let mut visited: Vec<bool> = Vec::new();
    let mut k: usize = 0;
    while k < ps.len()
        invariant
            visited@.len() == k,
            0 <= k <= ps@.len(),
        decreases ps@.len() - k,
    {
        visited.push(false);
        k = k + 1;
    }
    let mut stack: Vec<usize> = Vec::new();
    stack.push(start);
    proof {
        lemma_count_unvisited_bounds(visited@);
    }
    loop
        invariant
            visited@.len() == ps@.len(),
            forall|j: int| 0 <= j < stack@.len() ==> (#[trigger] stack@[j]) < ps@.len(),
            0 <= count_unvisited(visited@) <= visited@.len(),
        decreases count_unvisited(visited@), stack@.len(),
    {
        let idx = match stack.pop() {
            Some(i) => i,
            None => {
                return false;
            },
        };
        if visited[idx] {
            continue;
        }
        proof {
            lemma_count_unvisited_update(visited@, idx as int);
        }
        visited.set(idx, true);
        // Scan the rule's style specs for user-defined references.
        let rule_styles = &ps[idx].styles;
        let mut j: usize = 0;
        while j < rule_styles.len()
            invariant
                visited@.len() == ps@.len(),
                forall|q: int| 0 <= q < stack@.len() ==> (#[trigger] stack@[q]) < ps@.len(),
                0 <= j <= rule_styles@.len(),
            decreases rule_styles@.len() - j,
        {
            match spec_ref_name(&rule_styles[j]) {
                None => {},
                Some(ref_name) => {
                    if lex_eq(&ref_name, start_name.as_slice()) {
                        return true;
                    }
                    match find_selector(ps, &ref_name) {
                        Some(target) => {
                            stack.push(target);
                        },
                        None => {},
                    }
                },
            }
            j = j + 1;
        }
        proof {
            lemma_count_unvisited_bounds(visited@);
        }
    }
}

/// Resolve a list of raw style specs against the page styles: built-in
/// styles get their typed arguments, and every other name must refer to a
/// page-style selector that does not refer back to itself.
pub fn resolve_styles(page_styles: &Vec<PageStyle>, specs: &Vec<StyleSpec>) -> (r: Result<
    Vec<InlineStyle>,
    FroggiError,
>)
    ensures
        r matches Ok(out) ==> out@.len() == specs@.len() && forall|i: int|
            0 <= i < specs@.len() ==> resolves_to(page_styles@, specs@[i], #[trigger] out@[i]),
        r matches Err(e) ==> e.kind_spec() is ParseError,
        (forall|i: int|
            0 <= i < specs@.len() ==> builtin_style_ok(#[trigger] specs@[i])) ==> r is Ok,
        r matches Err(e) ==> exists|i: int|
            0 <= i < specs@.len() && !builtin_style_ok(#[trigger] specs@[i]),
{
    let mut out: Vec<InlineStyle> = Vec::new();
    let mut i: usize = 0;
    while i < specs.len()
        invariant
            0 <= i <= specs@.len(),
            out@.len() == i,
            forall|j: int| 0 <= j < i ==> resolves_to(
                page_styles@,
                specs@[j],
                #[trigger] out@[j],
            ),
        decreases specs@.len() - i,
    {
        let ghost out0 = out@;
        let resolved = match &specs[i] {
            StyleSpec::WithoutArg { name } => {
                let lex = name.lexeme();
                let k_mono: [u8; 4] = ['m' as u8, 'o' as u8, 'n' as u8, 'o' as u8];
                let k_serif: [u8; 5] = ['s' as u8, 'e' as u8, 'r' as u8, 'i' as u8, 'f' as u8];
                let k_sans: [u8; 4] = ['s' as u8, 'a' as u8, 'n' as u8, 's' as u8];
                let k_bold: [u8; 4] = ['b' as u8, 'o' as u8, 'l' as u8, 'd' as u8];
                let k_italic: [u8; 6] = [
                    'i' as u8,
                    't' as u8,
                    'a' as u8,
                    'l' as u8,
                    'i' as u8,
                    'c' as u8,
                ];
                let k_underline: [u8; 9] = [
                    'u' as u8,
                    'n' as u8,
                    'd' as u8,
                    'e' as u8,
                    'r' as u8,
                    'l' as u8,
                    'i' as u8,
                    'n' as u8,
                    'e' as u8,
                ];
                let k_strike: [u8; 6] = [
                    's' as u8,
                    't' as u8,
                    'r' as u8,
                    'i' as u8,
                    'k' as u8,
                    'e' as u8,
                ];
                proof {
                    assert(k_mono@ =~= kw_mono());
                    assert(k_serif@ =~= kw_serif());
                    assert(k_sans@ =~= kw_sans());
                    assert(k_bold@ =~= kw_bold());
                    assert(k_italic@ =~= kw_italic());
                    assert(k_underline@ =~= kw_underline());
                    assert(k_strike@ =~= kw_strike());
                }
                if lex_eq(&lex, k_mono.as_slice()) {
                    InlineStyle::Mono { token: name.duplicate() }
                } else if lex_eq(&lex, k_serif.as_slice()) {
                    InlineStyle::Serif { token: name.duplicate() }
                } else if lex_eq(&lex, k_sans.as_slice()) {
                    InlineStyle::Sans { token: name.duplicate() }
                } else if lex_eq(&lex, k_bold.as_slice()) {
                    InlineStyle::Bold { token: name.duplicate() }
                } else if lex_eq(&lex, k_italic.as_slice()) {
                    InlineStyle::Italic { token: name.duplicate() }
                } else if lex_eq(&lex, k_underline.as_slice()) {
                    InlineStyle::Underline { token: name.duplicate() }
                } else if lex_eq(&lex, k_strike.as_slice()) {
                    InlineStyle::Strike { token: name.duplicate() }
                } else {
                    match find_selector(page_styles, &lex) {
                        None => {
                            return Err(
                                FroggiError::parse(
                                    ParseError::UnknownStyle { style: lex },
                                    name.line(),
                                ),
                            );
                        },
                        Some(target) => {
                            if is_recursive(page_styles, target) {
                                return Err(
                                    FroggiError::parse(
                                        ParseError::RecursiveStyle { style: lex },
                                        name.line(),
                                    ),
                                );
                            }
                            InlineStyle::UserDefined { token: name.duplicate() }
                        },
                    }
                }
            },
            StyleSpec::WithArg { name, arg } => {
                let lex = name.lexeme();
                let arg_text = arg.lexeme();
                let k_fg: [u8; 2] = ['f' as u8, 'g' as u8];
                let k_bg: [u8; 2] = ['b' as u8, 'g' as u8];
                let k_fill: [u8; 4] = ['f' as u8, 'i' as u8, 'l' as u8, 'l' as u8];
                let k_size: [u8; 4] = ['s' as u8, 'i' as u8, 'z' as u8, 'e' as u8];
                proof {
                    assert(k_fg@ =~= kw_fg());
                    assert(k_bg@ =~= kw_bg());
                    assert(k_fill@ =~= kw_fill());
                    assert(k_size@ =~= kw_size());
                }
                if lex_eq(&lex, k_fg.as_slice()) {
                    match parse_hex_color(&arg_text) {
                        Some(c) => InlineStyle::Fg { token: name.duplicate(), arg: c },
                        None => {
                            return Err(
                                FroggiError::parse(
                                    ParseError::IncorrectNumberFormat {
                                        num: arg_text,
                                        wanted: "six hex digits".as_bytes_vec(),
                                    },
                                    name.line(),
                                ),
                            );
                        },
                    }
                } else if lex_eq(&lex, k_bg.as_slice()) {
                    match parse_hex_color(&arg_text) {
                        Some(c) => InlineStyle::Bg { token: name.duplicate(), arg: c },
                        None => {
                            return Err(
                                FroggiError::parse(
                                    ParseError::IncorrectNumberFormat {
                                        num: arg_text,
                                        wanted: "six hex digits".as_bytes_vec(),
                                    },
                                    name.line(),
                                ),
                            );
                        },
                    }
                } else if lex_eq(&lex, k_fill.as_slice()) {
                    match parse_dec(&arg_text, 255) {
                        Some(v) => InlineStyle::Fill { token: name.duplicate(), arg: v as u8 },
                        None => {
                            return Err(
                                FroggiError::parse(
                                    ParseError::IncorrectNumberFormat {
                                        num: arg_text,
                                        wanted: "a number between 0 and 255".as_bytes_vec(),
                                    },
                                    name.line(),
                                ),
                            );
                        },
                    }
                } else if lex_eq(&lex, k_size.as_slice()) {
                    match parse_dec(&arg_text, 65535) {
                        Some(v) => {
                            if v >= 1 {
                                InlineStyle::Size { token: name.duplicate(), arg: v as usize }
                            } else {
                                return Err(
                                    FroggiError::parse(
                                        ParseError::IncorrectNumberFormat {
                                            num: arg_text,
                                            wanted: "a number between 1 and 65535".as_bytes_vec(),
                                        },
                                        name.line(),
                                    ),
                                );
                            }
                        },
                        None => {
                            return Err(
                                FroggiError::parse(
                                    ParseError::IncorrectNumberFormat {
                                        num: arg_text,
                                        wanted: "a number between 1 and 65535".as_bytes_vec(),
                                    },
                                    name.line(),
                                ),
                            );
                        },
                    }
                } else {
                    match find_selector(page_styles, &lex) {
                        None => {
                            return Err(
                                FroggiError::parse(
                                    ParseError::UnknownStyle { style: lex },
                                    name.line(),
                                ),
                            );
                        },
                        Some(target) => {
                            if is_recursive(page_styles, target) {
                                return Err(
                                    FroggiError::parse(
                                        ParseError::RecursiveStyle { style: lex },
                                        name.line(),
                                    ),
                                );
                            }
                            InlineStyle::UserDefined { token: name.duplicate() }
                        },
                    }
                }
            },
        };
        out.push(resolved);
        proof {
            assert forall|j: int| 0 <= j < i + 1 implies resolves_to(
                page_styles@,
                specs@[j],
                #[trigger] out@[j],
            ) by {
                if j < out0.len() {
                    assert(out@[j] == out0[j]);
                }
            }
        }
        i = i + 1;
    }
    Ok(out)
}

} // verus!
