//! Page parsing: the SVT HTML page (subpage GIFs and screen-reader text)
//! and texttv.nu's per-cell colored HTML.

use vstd::prelude::*;

use crate::html::{
    doc_select, el_select, element_attr, element_text, node_attr, node_text, parse_document, parse_fragment,
    parse_selector, select_in_document, select_in_element, selector_valid, Document,
};
use crate::json::{json_at, json_parse, json_pointer, json_valid, JsonNode, JsonNodeModel};
use crate::pixels::{decode_gif_rgb, gif_decoded, PageImage};
use crate::textutil::{
    dec, push_decimal, trim, trimmed_start_len, chars_of, chars_start_with, find_chars, find_from, is_control, opt_view,
    push_chars, push_str, split_whitespace, split_ws, string_of, strip_controls, trim_end,
    trim_end_spaces, trimmed_end_len, remove_controls, chars_range,
};

verus! {

/// Teletext color palette (8 saturated primaries).
#[derive(Debug, Clone, Copy, PartialEq, Eq, Structural)]
pub enum TtColor {
    Black,
    Red,
    Green,
    Yellow,
    Blue,
    Magenta,
    Cyan,
    White,
}

impl TtColor {
    pub open spec fn spec_rgb(self) -> (u8, u8, u8) {
        match self {
            TtColor::Black => (0, 0, 0),
            TtColor::Red => (255, 0, 0),
            TtColor::Green => (0, 255, 0),
            TtColor::Yellow => (255, 255, 0),
            TtColor::Blue => (0, 0, 255),
            TtColor::Magenta => (255, 0, 255),
            TtColor::Cyan => (0, 255, 255),
            TtColor::White => (255, 255, 255),
        }
    }

    /// The color's RGB value.
    pub fn rgb(self) -> (r: (u8, u8, u8))
        ensures
            r == self.spec_rgb(),
    {
        match self {
            TtColor::Black => (0, 0, 0),
            TtColor::Red => (255, 0, 0),
            TtColor::Green => (0, 255, 0),
            TtColor::Yellow => (255, 255, 0),
            TtColor::Blue => (0, 0, 255),
            TtColor::Magenta => (255, 0, 255),
            TtColor::Cyan => (0, 255, 255),
            TtColor::White => (255, 255, 255),
        }
    }
}

/// One contiguous run of cells sharing the same color attributes.
#[derive(Debug, Clone)]
pub struct Cell {
    /// Visible text (spaces preserved). A mosaic cell holds the width-equivalent run of spaces.
    pub text: String,
    pub fg: TtColor,
    pub bg: TtColor,
    /// The glyph image of a teletext mosaic cell, on texttv.nu's character CDN.
    pub mosaic_url: Option<String>,
}

impl Cell {
    /// Whether this cell is a mosaic block graphic.
    pub fn is_mosaic(&self) -> (r: bool)
        ensures
            r == self.mosaic_url.is_some(),
    {
        self.mosaic_url.is_some()
    }
}

#[derive(Debug, Clone)]
pub struct Line {
    pub cells: Vec<Cell>,
    /// Whether this line is double-height (teletext DH attribute).
    pub double_height: bool,
}

#[derive(Debug)]
pub struct ColoredPage {
    pub page_no: u16,
    pub lines: Vec<Line>,
    /// The page as plain text, used when colors are disabled.
    pub plain: String,
}

// ============================================================================
// Colored render path: texttv.nu's classed HTML into a structured page.
// ============================================================================

/// A cell as plain values: text, foreground, background, mosaic URL.
pub type CellModel = (Seq<char>, TtColor, TtColor, Option<Seq<char>>);

pub open spec fn cell_model(c: Cell) -> CellModel {
    (c.text@, c.fg, c.bg, opt_view(c.mosaic_url))
}

/// One `span` child of a line, as scraped: its `class` attribute (empty when
/// absent), its `style` attribute and its text.
#[derive(Debug)]
pub struct RawSpan {
    pub class: String,
    pub style: Option<String>,
    pub text: String,
}

/// One `span.line` element, as scraped: its `class` attribute and its `span` children.
#[derive(Debug)]
pub struct RawLine {
    pub class: String,
    pub spans: Vec<RawSpan>,
}

/// A scraped span as plain values.
pub struct SpanModel {
    pub class: Seq<char>,
    pub style: Option<Seq<char>>,
    pub text: Seq<char>,
}

/// A scraped line as plain values.
pub struct RawLineModel {
    pub class: Seq<char>,
    pub spans: Seq<SpanModel>,
}

pub open spec fn span_view(sp: RawSpan) -> SpanModel {
    SpanModel { class: sp.class@, style: opt_view(sp.style), text: sp.text@ }
}

pub open spec fn raw_view(l: RawLine) -> RawLineModel {
    RawLineModel { class: l.class@, spans: l.spans@.map_values(|sp: RawSpan| span_view(sp)) }
}

pub open spec fn raws_view(ls: Seq<RawLine>) -> Seq<RawLineModel> {
    ls.map_values(|l: RawLine| raw_view(l))
}

/// Foreground color class tokens.
pub open spec fn spec_fg_token(t: Seq<char>) -> Option<TtColor> {
    if t == seq!['W'] {
        Some(TtColor::White)
    } else if t == seq!['Y'] {
        Some(TtColor::Yellow)
    } else if t == seq!['R'] {
        Some(TtColor::Red)
    } else if t == seq!['G'] {
        Some(TtColor::Green)
    } else if t == seq!['B'] {
        Some(TtColor::Blue)
    } else if t == seq!['C'] {
        Some(TtColor::Cyan)
    } else if t == seq!['M'] {
        Some(TtColor::Magenta)
    } else if t == seq!['b', 'l'] {
        Some(TtColor::Black)
    } else {
        None
    }
}

/// Background color class tokens: `bg` followed by a color letter, or `bgBl`.
pub open spec fn spec_bg_token(t: Seq<char>) -> Option<TtColor> {
    if t.len() >= 2 && t[0] == 'b' && t[1] == 'g' {
        let suf = t.skip(2);
        if suf == seq!['B', 'l'] {
            Some(TtColor::Black)
        } else if suf == seq!['b', 'l'] {
            None
        } else {
            spec_fg_token(suf)
        }
    } else {
        None
    }
}

fn color_letter(c: char) -> (r: Option<TtColor>)
    ensures
        r == spec_fg_token(seq![c]),
{
    assert(seq![c].len() != seq!['b', 'l'].len());
    match c {
        'W' => Some(TtColor::White),
        'Y' => Some(TtColor::Yellow),
        'R' => Some(TtColor::Red),
        'G' => Some(TtColor::Green),
        'B' => Some(TtColor::Blue),
        'C' => Some(TtColor::Cyan),
        'M' => Some(TtColor::Magenta),
        _ => {
            assert(seq![c] != seq!['W'] && seq![c] != seq!['Y'] && seq![c] != seq!['R'] && seq![c]
                != seq!['G'] && seq![c] != seq!['B'] && seq![c] != seq!['C'] && seq![c]
                != seq!['M']) by {
                if seq![c] == seq!['W'] {
                    assert(seq![c][0] == 'W');
                }
                if seq![c] == seq!['Y'] {
                    assert(seq![c][0] == 'Y');
                }
                if seq![c] == seq!['R'] {
                    assert(seq![c][0] == 'R');
                }
                if seq![c] == seq!['G'] {
                    assert(seq![c][0] == 'G');
                }
                if seq![c] == seq!['B'] {
                    assert(seq![c][0] == 'B');
                }
                if seq![c] == seq!['C'] {
                    assert(seq![c][0] == 'C');
                }
                if seq![c] == seq!['M'] {
                    assert(seq![c][0] == 'M');
                }
            }
            None
        },
    }
}

/// The foreground color a class token names.
pub fn fg_from_token(tok: &[char]) -> (r: Option<TtColor>)
    ensures
        r == spec_fg_token(tok@),
{
    if tok.len() == 1 {
        assert(tok@ == seq![tok@[0]]);
        color_letter(tok[0])
    } else if tok.len() == 2 && tok[0] == 'b' && tok[1] == 'l' {
        assert(tok@ == seq!['b', 'l']);
        Some(TtColor::Black)
    } else {
        assert(tok@ != seq!['b', 'l'] && tok@.len() != 1);
        None
    }
}

/// The background color a class token names.
pub fn bg_from_token(tok: &[char]) -> (r: Option<TtColor>)
    ensures
        r == spec_bg_token(tok@),
{
    if tok.len() >= 2 && tok[0] == 'b' && tok[1] == 'g' {
        let suf = chars_range(tok, 2, tok.len());
        assert(suf@ == tok@.skip(2));
        if suf.len() == 2 && suf[0] == 'B' && suf[1] == 'l' {
            assert(suf@ == seq!['B', 'l']);
            Some(TtColor::Black)
        } else if suf.len() == 2 && suf[0] == 'b' && suf[1] == 'l' {
            assert(suf@ == seq!['b', 'l']);
            None
        } else {
            assert(suf@ != seq!['B', 'l'] && suf@ != seq!['b', 'l']);
            fg_from_token(suf.as_slice())
        }
    } else {
        None
    }
}

/// Each class letter names its own teletext color, for text (`W`, `Y`,
/// `R`, `G`, `B`, `C`, `M`, `bl`) and, behind `bg`, for the background
/// (`bgBl` for black); no other token names a text color.
pub proof fn law_class_letters_name_their_colors(t: Seq<char>)
    ensures
        spec_fg_token(seq!['W']) == Some(TtColor::White),
        spec_fg_token(seq!['Y']) == Some(TtColor::Yellow),
        spec_fg_token(seq!['R']) == Some(TtColor::Red),
        spec_fg_token(seq!['G']) == Some(TtColor::Green),
        spec_fg_token(seq!['B']) == Some(TtColor::Blue),
        spec_fg_token(seq!['C']) == Some(TtColor::Cyan),
        spec_fg_token(seq!['M']) == Some(TtColor::Magenta),
        spec_fg_token(seq!['b', 'l']) == Some(TtColor::Black),
        spec_bg_token(seq!['b', 'g', 'W']) == Some(TtColor::White),
        spec_bg_token(seq!['b', 'g', 'Y']) == Some(TtColor::Yellow),
        spec_bg_token(seq!['b', 'g', 'R']) == Some(TtColor::Red),
        spec_bg_token(seq!['b', 'g', 'G']) == Some(TtColor::Green),
        spec_bg_token(seq!['b', 'g', 'B']) == Some(TtColor::Blue),
        spec_bg_token(seq!['b', 'g', 'C']) == Some(TtColor::Cyan),
        spec_bg_token(seq!['b', 'g', 'M']) == Some(TtColor::Magenta),
        spec_bg_token(seq!['b', 'g', 'B', 'l']) == Some(TtColor::Black),
        spec_fg_token(t) is Some ==> (t == seq!['W'] || t == seq!['Y'] || t == seq!['R'] || t == seq!['G']
            || t == seq!['B'] || t == seq!['C'] || t == seq!['M'] || t == seq!['b', 'l']),
        spec_bg_token(t) is Some ==> t.len() >= 3 && t[0] == 'b' && t[1] == 'g',
{
    assert(seq!['W'][0] == 'W' && seq!['Y'][0] == 'Y' && seq!['R'][0] == 'R' && seq!['G'][0] == 'G');
    assert(seq!['B'][0] == 'B' && seq!['C'][0] == 'C' && seq!['M'][0] == 'M');
    assert(seq!['b', 'l'].len() == 2 && seq!['W'].len() == 1);
    assert(seq!['b', 'g', 'W'].skip(2) =~= seq!['W']);
    assert(seq!['b', 'g', 'Y'].skip(2) =~= seq!['Y']);
    assert(seq!['b', 'g', 'R'].skip(2) =~= seq!['R']);
    assert(seq!['b', 'g', 'G'].skip(2) =~= seq!['G']);
    assert(seq!['b', 'g', 'B'].skip(2) =~= seq!['B']);
    assert(seq!['b', 'g', 'C'].skip(2) =~= seq!['C']);
    assert(seq!['b', 'g', 'M'].skip(2) =~= seq!['M']);
    assert(seq!['b', 'g', 'B', 'l'].skip(2) =~= seq!['B', 'l']);
    assert(seq!['B'] != seq!['B', 'l']);
    if spec_bg_token(t) is Some {
        let suf = t.skip(2);
        if suf.len() == 0 {
            assert(spec_fg_token(suf) is None);
        }
    }
}

/// The palette: each teletext color is its saturated RGB primary (or black
/// or white), and no two colors share a value.
pub proof fn law_palette(a: TtColor, b: TtColor)
    ensures
        TtColor::Black.spec_rgb() == (0u8, 0u8, 0u8),
        TtColor::Red.spec_rgb() == (255u8, 0u8, 0u8),
        TtColor::Green.spec_rgb() == (0u8, 255u8, 0u8),
        TtColor::Yellow.spec_rgb() == (255u8, 255u8, 0u8),
        TtColor::Blue.spec_rgb() == (0u8, 0u8, 255u8),
        TtColor::Magenta.spec_rgb() == (255u8, 0u8, 255u8),
        TtColor::Cyan.spec_rgb() == (0u8, 255u8, 255u8),
        TtColor::White.spec_rgb() == (255u8, 255u8, 255u8),
        a != b ==> a.spec_rgb() != b.spec_rgb(),
{
}

pub open spec fn bg_img_token() -> Seq<char> {
    seq!['b', 'g', 'I', 'm', 'g']
}

/// Colors and mosaic flag named by a run of class tokens, later tokens
/// winning: `bgImg` marks a mosaic, then background, then foreground tokens.
pub open spec fn classes_of(toks: Seq<Seq<char>>) -> (TtColor, TtColor, bool)
    decreases toks.len(),
{
    if toks.len() == 0 {
        (TtColor::White, TtColor::Black, false)
    } else {
        let p = classes_of(toks.drop_last());
        let t = toks.last();
        if t == bg_img_token() {
            (p.0, p.1, true)
        } else if spec_bg_token(t) is Some {
            (p.0, spec_bg_token(t)->0, p.2)
        } else if spec_fg_token(t) is Some {
            (spec_fg_token(t)->0, p.1, p.2)
        } else {
            p
        }
    }
}

/// How a cell's class tokens combine: with none the cell is white on
/// black and no mosaic; `bgImg` marks a mosaic; a background token sets the
/// background and a text-color token the text color, a later token winning
/// over an earlier one; any other token changes nothing.
pub proof fn law_later_class_wins(toks: Seq<Seq<char>>, t: Seq<char>, col: TtColor)
    ensures
        classes_of(Seq::empty()) == (TtColor::White, TtColor::Black, false),
        t == seq!['b', 'g', 'I', 'm', 'g'] ==> classes_of(toks.push(t)) == (
            classes_of(toks).0,
            classes_of(toks).1,
            true,
        ),
        spec_bg_token(t) == Some(col) ==> classes_of(toks.push(t)) == (
            classes_of(toks).0,
            col,
            classes_of(toks).2,
        ),
        spec_fg_token(t) == Some(col) ==> classes_of(toks.push(t)) == (
            col,
            classes_of(toks).1,
            classes_of(toks).2,
        ),
        t != seq!['b', 'g', 'I', 'm', 'g'] && spec_bg_token(t) is None && spec_fg_token(t) is None
            ==> classes_of(toks.push(t)) == classes_of(toks),
{
    assert(toks.push(t).drop_last() == toks);
    law_class_letters_name_their_colors(t);
    if spec_bg_token(t) is Some {
        assert(t != bg_img_token()) by {
            if t == bg_img_token() {
                let suf = t.skip(2);
                assert(suf =~= seq!['I', 'm', 'g']);
                assert(suf.len() == 3);
                assert(suf != seq!['B', 'l'] && suf != seq!['b', 'l']);
                law_class_letters_name_their_colors(suf);
            }
        }
    }
    if spec_fg_token(t) is Some {
        assert(t != bg_img_token()) by {
            if t == bg_img_token() {
                assert(t.len() == 5);
            }
        }
        assert(spec_bg_token(t) is None) by {
            if t.len() >= 3 {
                assert(t == seq!['b', 'l'] || t.len() == 1);
            }
        }
    }
}

/// Foreground, background and mosaic flag of a cell's `class` attribute.
#[verifier::spinoff_prover]
pub fn parse_cell_classes(class_attr: &str) -> (r: (TtColor, TtColor, bool))
    ensures
        r == classes_of(split_ws(class_attr@)),
{
    let toks = split_whitespace(class_attr);
    let ghost all = split_ws(class_attr@);
    let mut fg = TtColor::White;
    let mut bg = TtColor::Black;
    let mut mosaic = false;
    let mut i: usize = 0;
    while i < toks.len()
        invariant
            i <= toks@.len(),
            toks@.len() == all.len(),
            forall|j: int| 0 <= j < toks@.len() ==> (#[trigger] toks@[j])@ == all[j],
            (fg, bg, mosaic) == classes_of(all.take(i as int)),
        decreases toks.len() - i,
    {
        let tok = &toks[i];
        assert(all.take(i as int + 1).drop_last() == all.take(i as int));
        assert(all.take(i as int + 1).last() == tok@);
        if tok.len() == 5 && tok[0] == 'b' && tok[1] == 'g' && tok[2] == 'I' && tok[3] == 'm'
            && tok[4] == 'g' {
            assert(tok@ == bg_img_token());
            mosaic = true;
        } else {
            assert(tok@ != bg_img_token()) by {
                if tok@ == bg_img_token() {
                    assert(tok@[0] == 'b' && tok@[1] == 'g' && tok@[2] == 'I' && tok@[3] == 'm'
                        && tok@[4] == 'g');
                }
            }
            match bg_from_token(tok.as_slice()) {
                Some(c) => {
                    bg = c;
                },
                None => {
                    match fg_from_token(tok.as_slice()) {
                        Some(c) => {
                            fg = c;
                        },
                        None => {},
                    }
                },
            }
        }
        i = i + 1;
    }
    assert(all.take(toks.len() as int) == all);
    (fg, bg, mosaic)
}

/// Whether a run of class tokens marks a double-height line.
pub open spec fn has_dh_token(toks: Seq<Seq<char>>) -> bool {
    exists|i: int| 0 <= i < toks.len() && toks[i] == seq!['D', 'H']
}

fn class_has_dh(class_attr: &str) -> (r: bool)
    ensures
        r == has_dh_token(split_ws(class_attr@)),
{
    let toks = split_whitespace(class_attr);
    let ghost all = split_ws(class_attr@);
    let mut i: usize = 0;
    while i < toks.len()
        invariant
            i <= toks@.len(),
            all == split_ws(class_attr@),
            toks@.len() == all.len(),
            forall|j: int| 0 <= j < toks@.len() ==> (#[trigger] toks@[j])@ == all[j],
            forall|j: int| 0 <= j < i ==> all[j] != seq!['D', 'H'],
        decreases toks.len() - i,
    {
        if toks[i].len() == 2 && toks[i][0] == 'D' && toks[i][1] == 'H' {
            assert(toks@[i as int]@ =~= seq!['D', 'H']);
            assert(all[i as int] == seq!['D', 'H']);
            assert(has_dh_token(all));
            return true;
        }
        assert(all[i as int] != seq!['D', 'H']) by {
            if all[i as int] == seq!['D', 'H'] {
                assert(toks@[i as int]@[0] == 'D' && toks@[i as int]@[1] == 'H');
            }
        }
        i = i + 1;
    }
    false
}

/// The only host glyph images may come from: texttv.nu's character CDN.
pub open spec fn mosaic_cdn_prefix() -> Seq<char> {
    "https://l.texttv.nu/storage/chars/"@
}

/// `r` without one pair of matching surrounding quotes.
pub open spec fn unquote(r: Seq<char>) -> Seq<char> {
    if r.len() >= 2 && ((r[0] == '"' && r.last() == '"') || (r[0] == '\'' && r.last() == '\'')) {
        r.subrange(1, r.len() - 1)
    } else {
        r
    }
}

/// The URL of the first `url(...)` in a `style` attribute.
pub open spec fn style_url(style: Seq<char>) -> Option<Seq<char>> {
    match find_from(style, "url("@, 0) {
        None => None,
        Some(p) => {
            let rest = style.skip(p + "url("@.len());
            match find_from(rest, ")"@, 0) {
                None => None,
                Some(e) => Some(unquote(rest.take(e))),
            }
        },
    }
}

/// A glyph URL is only ever taken from the style's `url(...)`, and only
/// when it lies on texttv.nu's character CDN.
pub proof fn law_glyph_urls_on_cdn(style: Option<Seq<char>>)
    ensures
        accepted_mosaic_url(style) matches Some(u) ==> {
            &&& style matches Some(st) && style_url(st) == Some(u)
            &&& u.len() >= 34
            &&& u.take(34) == "https://l.texttv.nu/storage/chars/"@
        },
{
    reveal_strlit("https://l.texttv.nu/storage/chars/");
}

/// A mosaic's glyph URL: the style's `url(...)`, kept only when it lies on
/// texttv.nu's character CDN.
pub open spec fn accepted_mosaic_url(style: Option<Seq<char>>) -> Option<Seq<char>> {
    match style {
        None => None,
        Some(st) => match style_url(st) {
            Some(u) => if u.len() >= mosaic_cdn_prefix().len() && u.take(
                mosaic_cdn_prefix().len() as int,
            ) == mosaic_cdn_prefix() {
                Some(u)
            } else {
                None
            },
            None => None,
        },
    }
}

/// The URL inside the first `url(...)` of `cs`, without surrounding quotes.
#[verifier::spinoff_prover]
fn url_in_style(cs: &[char]) -> (r: Option<Vec<char>>)
    ensures
        match style_url(cs@) {
            None => r is None,
            Some(u) => r matches Some(v) && v@ == u,
        },
{
    let open = chars_of("url(");
    let found = find_chars(cs, open.as_slice(), 0);
    if found.is_none() {
        return None;
    }
    let p = found.unwrap();
    assert(find_from(cs@, open@, 0) == Some(p as int));
    let total = cs.len();
    assert(p + open@.len() <= total && open@.len() == open.len());
    let rest = chars_range(cs, p + open.len(), total);
    assert(rest@ == cs@.skip(p + "url("@.len()));
    let close = chars_of(")");
    let found_close = find_chars(rest.as_slice(), close.as_slice(), 0);
    if found_close.is_none() {
        return None;
    }
    let e = found_close.unwrap();
    assert(find_from(rest@, close@, 0) == Some(e as int));
    let raw = chars_range(rest.as_slice(), 0, e);
    assert(raw@ == rest@.take(e as int));
    assert(style_url(cs@) == Some(unquote(raw@)));
    let n = raw.len();
    if n >= 2 && ((raw[0] == '"' && raw[n - 1] == '"') || (raw[0] == '\'' && raw[n - 1] == '\'')) {
        assert(raw@.last() == raw@[n - 1]);
        Some(chars_range(raw.as_slice(), 1, n - 1))
    } else {
        Some(raw)
    }
}

/// The glyph URL of a mosaic cell's `style` attribute, when it lies on
/// texttv.nu's character CDN.
pub fn mosaic_url_from_style(style: &Option<String>) -> (r: Option<String>)
    ensures
        opt_view(r) == accepted_mosaic_url(opt_view(*style)),
{
    let st = match style {
        Some(st) => st,
        None => {
            return None;
        },
    };
    let cs = chars_of(st.as_str());
    let url = match url_in_style(cs.as_slice()) {
        Some(u) => u,
        None => {
            return None;
        },
    };
    let prefix = chars_of("https://l.texttv.nu/storage/chars/");
    if chars_start_with(url.as_slice(), prefix.as_slice()) {
        Some(string_of(url.as_slice()))
    } else {
        None
    }
}

/// The cell a scraped span gives, if any: control characters are removed
/// from its text; a mosaic with no text keeps one placeholder space; a
/// mosaic keeps its glyph URL only when that lies on texttv.nu's CDN; a
/// span left with no text gives no cell.
pub open spec fn span_cell(sp: SpanModel) -> Option<CellModel> {
    let cls = classes_of(split_ws(sp.class));
    let text0 = strip_controls(sp.text);
    let text = if cls.2 && text0.len() == 0 {
        seq![' ']
    } else {
        text0
    };
    if text.len() == 0 {
        None
    } else {
        Some(
            (
                text,
                cls.0,
                cls.1,
                if cls.2 {
                    accepted_mosaic_url(sp.style)
                } else {
                    None
                },
            ),
        )
    }
}

/// Two cells merge when both are plain and share their colors.
pub open spec fn mergeable(a: CellModel, b: CellModel) -> bool {
    a.1 == b.1 && a.2 == b.2 && a.3 is None && b.3 is None
}

/// The cells of the first `n` spans, consecutive plain cells with the same
/// colors merged into one run.
pub open spec fn merged_cells(spans: Seq<SpanModel>, n: int) -> Seq<CellModel>
    decreases n,
{
    if n <= 0 {
        Seq::empty()
    } else {
        let prev = merged_cells(spans, n - 1);
        match span_cell(spans[n - 1]) {
            None => prev,
            Some(c) => if prev.len() > 0 && mergeable(prev.last(), c) {
                prev.update(prev.len() - 1, (prev.last().0 + c.0, c.1, c.2, None))
            } else {
                prev.push(c)
            },
        }
    }
}

fn cell_from_span(sp: &RawSpan) -> (r: Option<Cell>)
    ensures
        match span_cell(span_view(*sp)) {
            None => r is None,
            Some(m) => r matches Some(c) && cell_model(c) == m,
        },
{
    let (fg, bg, mosaic) = parse_cell_classes(sp.class.as_str());
    let raw = chars_of(sp.text.as_str());
    let text0 = remove_controls(raw.as_slice());
    if text0.len() == 0 && !mosaic {
        return None;
    }
    let text = if mosaic && text0.len() == 0 {
        let mut t = String::new();
        crate::textutil::push_char(&mut t, ' ');
        t
    } else {
        string_of(text0.as_slice())
    };
    let mosaic_url = if mosaic {
        mosaic_url_from_style(&sp.style)
    } else {
        None
    };
    Some(Cell { text, fg, bg, mosaic_url })
}

/// The text of a run of cells, concatenated.
pub open spec fn cells_text(cells: Seq<Cell>) -> Seq<char>
    decreases cells.len(),
{
    if cells.len() == 0 {
        Seq::empty()
    } else {
        cells_text(cells.drop_last()) + cells.last().text@
    }
}

/// Every cell has text, no cell text holds a control character, and every
/// glyph URL lies on texttv.nu's CDN.
pub open spec fn cells_sane(cells: Seq<CellModel>) -> bool {
    forall|i: int|
        0 <= i < cells.len() ==> {
            let c = #[trigger] cells[i];
            &&& c.0.len() > 0
            &&& forall|k: int| 0 <= k < c.0.len() ==> !is_control(#[trigger] c.0[k])
            &&& c.3 matches Some(u) ==> u.len() >= mosaic_cdn_prefix().len() && u.take(
                mosaic_cdn_prefix().len() as int,
            ) == mosaic_cdn_prefix()
        }
}

proof fn lemma_strip_controls_clean(s: Seq<char>)
    ensures
        forall|k: int|
            0 <= k < strip_controls(s).len() ==> !is_control(#[trigger] strip_controls(s)[k]),
{
    assert forall|k: int| 0 <= k < strip_controls(s).len() implies !is_control(
        #[trigger] strip_controls(s)[k],
    ) by {
        s.filter_lemma(|c: char| !is_control(c));
    }
}

proof fn lemma_merged_cells_sane(spans: Seq<SpanModel>, n: int)
    ensures
        cells_sane(merged_cells(spans, n)),
    decreases n,
{
    if n > 0 {
        lemma_merged_cells_sane(spans, n - 1);
        let prev = merged_cells(spans, n - 1);
        lemma_strip_controls_clean(spans[n - 1].text);
        match span_cell(spans[n - 1]) {
            None => {},
            Some(c) => {
                assert(seq![' '][0] == ' ');
                if prev.len() > 0 && mergeable(prev.last(), c) {
                    let m = (prev.last().0 + c.0, c.1, c.2, None::<Seq<char>>);
                    assert forall|k: int| 0 <= k < m.0.len() implies !is_control(
                        #[trigger] m.0[k],
                    ) by {
                        if k < prev.last().0.len() {
                            assert(m.0[k] == prev[prev.len() - 1].0[k]);
                        } else {
                            assert(m.0[k] == c.0[k - prev.last().0.len()]);
                        }
                    }
                }
            },
        }
    }
}

/// A line as plain values: its cells and the double-height flag.
pub open spec fn line_model(l: Line) -> (Seq<CellModel>, bool) {
    (l.cells@.map_values(|c: Cell| cell_model(c)), l.double_height)
}

/// The line a scraped `span.line` gives: its spans turned into cells,
/// consecutive plain cells of the same colors merged; `None` when no span
/// has text. The line is double-height when its class holds the `DH` token.
pub open spec fn raw_line_model(raw: RawLineModel) -> Option<(Seq<CellModel>, bool)> {
    let m = merged_cells(raw.spans, raw.spans.len() as int);
    if m.len() == 0 {
        None
    } else {
        Some((m, has_dh_token(split_ws(raw.class))))
    }
}

/// A line with its scraped spans turned into cells, consecutive plain cells
/// of the same colors merged; `None` when no span has text.
#[verifier::spinoff_prover]
pub fn build_line(raw: &RawLine) -> (r: Option<Line>)
    ensures
        match raw_line_model(raw_view(*raw)) {
            None => r is None,
            Some(m) => r matches Some(l) && line_model(l) == m,
        },
{
    let double_height = class_has_dh(raw.class.as_str());
    let mut cells: Vec<Cell> = Vec::new();
    let mut k: usize = 0;
    while k < raw.spans.len()
        invariant
            k <= raw.spans@.len(),
            cells@.len() == merged_cells(raw_view(*raw).spans, k as int).len(),
            forall|i: int|
                0 <= i < cells@.len() ==> cell_model(#[trigger] cells@[i]) == merged_cells(
                    raw_view(*raw).spans,
                    k as int,
                )[i],
        decreases raw.spans.len() - k,
    {
        let ghost prev = merged_cells(raw_view(*raw).spans, k as int);
        match cell_from_span(&raw.spans[k]) {
            None => {},
            Some(cell) => {
                let n = cells.len();
                let merge = if n > 0 {
                    let last = &cells[n - 1];
                    last.fg == cell.fg && last.bg == cell.bg && last.mosaic_url.is_none()
                        && cell.mosaic_url.is_none()
                } else {
                    false
                };
                if merge {
                    let ghost before = cells@;
                    let mut last = cells.pop().unwrap();
                    let extra = chars_of(cell.text.as_str());
                    push_chars(&mut last.text, extra.as_slice());
                    last.fg = cell.fg;
                    last.bg = cell.bg;
                    last.mosaic_url = None;
                    cells.push(last);
                    assert(cells@.len() == merged_cells(raw_view(*raw).spans, k + 1).len());
                    assert forall|i: int| 0 <= i < cells@.len() implies cell_model(
                        #[trigger] cells@[i],
                    ) == merged_cells(raw_view(*raw).spans, k + 1)[i] by {
                        if i < n - 1 {
                            assert(cells@[i] == before[i]);
                        }
                    }
                } else {
                    cells.push(cell);
                }
            },
        }
        k = k + 1;
    }
    if cells.len() == 0 {
        None
    } else {
        let line = Line { cells, double_height };
        assert(line_model(line).0 =~= merged_cells(raw_view(*raw).spans, raw.spans@.len() as int));
        Some(line)
    }
}


/// The lines of a run of scraped `span.line` elements, in order, those
/// without text left out.
pub open spec fn lines_model(raw: Seq<RawLineModel>) -> Seq<(Seq<CellModel>, bool)>
    decreases raw.len(),
{
    if raw.len() == 0 {
        Seq::empty()
    } else {
        match raw_line_model(raw.last()) {
            None => lines_model(raw.drop_last()),
            Some(m) => lines_model(raw.drop_last()).push(m),
        }
    }
}

/// The plain-value view of a run of lines.
pub open spec fn lines_view(lines: Seq<Line>) -> Seq<(Seq<CellModel>, bool)> {
    lines.map_values(|l: Line| line_model(l))
}

/// The lines of a colored page from its scraped `span.line` elements.
pub fn lines_from_raw(raw: &[RawLine]) -> (r: Vec<Line>)
    ensures
        lines_view(r@) == lines_model(raws_view(raw@)),
{
    let mut out: Vec<Line> = Vec::new();
    let mut k: usize = 0;
    while k < raw.len()
        invariant
            k <= raw@.len(),
            lines_view(out@) == lines_model(raws_view(raw@).take(k as int)),
        decreases raw.len() - k,
    {
        assert(raws_view(raw@).take(k as int + 1).drop_last() == raws_view(raw@).take(k as int));
        assert(raws_view(raw@).take(k as int + 1).last() == raw_view(raw@[k as int]));
        let ghost before = out@;
        match build_line(&raw[k]) {
            None => {},
            Some(line) => {
                out.push(line);
                assert(lines_view(out@) =~= lines_view(before).push(line_model(line)));
            },
        }
        k = k + 1;
    }
    assert(raws_view(raw@).take(raw.len() as int) == raws_view(raw@));
    out
}

/// The text of a line: its cells' texts, concatenated.
pub open spec fn line_text(l: Line) -> Seq<char> {
    cells_text(l.cells@)
}

/// The first `n` lines as plain text: each line's text with trailing spaces
/// removed, then a newline.
pub open spec fn plain_acc(lines: Seq<Line>, n: int) -> Seq<char>
    decreases n,
{
    if n <= 0 {
        Seq::empty()
    } else {
        trim_end_spaces(plain_acc(lines, n - 1) + line_text(lines[n - 1])).push('\n')
    }
}

/// A page's plain text, derived from its lines: one text line per line,
/// trailing spaces and trailing whitespace at the end removed.
pub open spec fn spec_plain(lines: Seq<Line>) -> Seq<char> {
    trim_end(plain_acc(lines, lines.len() as int))
}

/// Appends a line's text: each cell's text in order.
fn push_line_text(out: &mut Vec<char>, line: &Line)
    ensures
        final(out)@ == old(out)@ + line_text(*line),
{
    let mut k: usize = 0;
    while k < line.cells.len()
        invariant
            k <= line.cells@.len(),
            out@ == old(out)@ + cells_text(line.cells@.take(k as int)),
        decreases line.cells.len() - k,
    {
        assert(line.cells@.take(k as int + 1).drop_last() == line.cells@.take(k as int));
        let cs = chars_of(line.cells[k].text.as_str());
        let ghost start = out@;
        let mut j: usize = 0;
        while j < cs.len()
            invariant
                j <= cs@.len(),
                out@ == start + cs@.take(j as int),
            decreases cs.len() - j,
        {
            assert(cs@.take(j as int + 1) == cs@.take(j as int).push(cs@[j as int]));
            out.push(cs[j]);
            j = j + 1;
        }
        assert(cs@.take(cs.len() as int) == cs@);
        k = k + 1;
    }
    assert(line.cells@.take(line.cells.len() as int) == line.cells@);
}

/// The first `n` lines, each as its text with trailing spaces removed and a
/// newline after it.
pub open spec fn trimmed_lines_joined(lines: Seq<Line>, n: int) -> Seq<char>
    decreases n,
{
    if n <= 0 {
        Seq::empty()
    } else {
        trimmed_lines_joined(lines, n - 1) + trim_end_spaces(line_text(lines[n - 1])).push('\n')
    }
}

proof fn lemma_trim_spaces_after(p: Seq<char>, t: Seq<char>)
    requires
        p.len() == 0 || p.last() != ' ',
    ensures
        trim_end_spaces(p + t) == p + trim_end_spaces(t),
    decreases t.len(),
{
    if t.len() > 0 && t.last() == ' ' {
        assert((p + t).drop_last() == p + t.drop_last());
        lemma_trim_spaces_after(p, t.drop_last());
    } else if t.len() == 0 {
        assert(p + t == p);
    } else {
        assert((p + t).last() == t.last());
    }
}

proof fn lemma_plain_acc_joined(lines: Seq<Line>, n: int)
    ensures
        plain_acc(lines, n) == trimmed_lines_joined(lines, n),
    decreases n,
{
    if n > 0 {
        lemma_plain_acc_joined(lines, n - 1);
        let p = plain_acc(lines, n - 1);
        if n - 1 > 0 {
            assert(p.last() == '\n');
        }
        lemma_trim_spaces_after(p, line_text(lines[n - 1]));
        assert(trimmed_lines_joined(lines, n) =~= p + trim_end_spaces(line_text(lines[n - 1])).push('\n'));
    }
}

/// A page's plain text is its lines joined, each as its cells' texts with
/// trailing spaces removed and a newline after it, with the trailing
/// whitespace of the whole removed.
pub proof fn law_plain_is_trimmed_lines(lines: Seq<Line>)
    ensures
        spec_plain(lines) == trim_end(trimmed_lines_joined(lines, lines.len() as int)),
{
    lemma_plain_acc_joined(lines, lines.len() as int);
}

/// The plain text of a run of lines, for output without colors.
#[verifier::spinoff_prover]
pub fn derive_plain(lines: &[Line]) -> (r: String)
    ensures
        r@ == spec_plain(lines@),
{
    let mut out: Vec<char> = Vec::new();
    let mut k: usize = 0;
    while k < lines.len()
        invariant
            k <= lines@.len(),
            out@ == plain_acc(lines@, k as int),
        decreases lines.len() - k,
    {
        push_line_text(&mut out, &lines[k]);
        while out.len() > 0 && out[out.len() - 1] == ' '
            invariant
                trim_end_spaces(out@) == trim_end_spaces(plain_acc(lines@, k as int) + line_text(
                    lines@[k as int],
                )),
            decreases out.len(),
        {
            let ghost before = out@;
            out.pop();
            assert(out@ == before.drop_last());
        }
        out.push('\n');
        k = k + 1;
    }
    let n = trimmed_end_len(out.as_slice());
    string_of(chars_range(out.as_slice(), 0, n).as_slice())
}

/// Why a page could not be parsed.
#[derive(Debug, Clone, Copy, PartialEq, Eq, Structural)]
pub enum ParseError {
    /// The texttv.nu response is not JSON.
    InvalidJson,
    /// The texttv.nu response holds no page entry.
    EmptyResponse(u16),
    /// The page entry has no `content[0]` string.
    MissingContent(u16),
    /// The page's HTML holds no line with text.
    NoLines(u16),
    /// The SVT page holds no subpage image.
    NoImages(u16),
    /// An image source is not a base64 GIF data URI.
    NotGifDataUri,
    /// A data URI's payload is not valid base64.
    Base64,
    /// An image is not a decodable GIF, or decodes to no pixels.
    GifDecode,
    /// A page GIF declares a size over `MAX_PAGE_GIF_DIM` in width or height.
    GifTooLarge { width: u16, height: u16 },
    /// A CSS selector was refused by the HTML engine.
    InvalidSelector,
}


/// Page GIFs wider or higher than this many pixels are refused before
/// decoding. SVT's pages are 520 by 400.
pub const MAX_PAGE_GIF_DIM: u32 = 2048;

impl ParseError {
    /// The error's message, for the user.
    pub open spec fn spec_message(self) -> Seq<char> {
        match self {
            ParseError::InvalidJson => "texttv.nu response is not valid JSON"@,
            ParseError::EmptyResponse(p) => "page "@ + dec(p as nat)
                + " not available (empty texttv.nu response)"@,
            ParseError::MissingContent(p) => "page "@ + dec(p as nat)
                + ": missing content[0] in texttv.nu JSON"@,
            ParseError::NoLines(p) => "page "@ + dec(p as nat) + " not available (no lines parsed)"@,
            ParseError::NoImages(p) => "page "@ + dec(p as nat)
                + " not available (no subpage images in response)"@,
            ParseError::NotGifDataUri => "img src does not start with data:image/gif;base64,"@,
            ParseError::Base64 => "base64 decode failed"@,
            ParseError::GifDecode => "gif decode failed"@,
            ParseError::GifTooLarge { width, height } => "page GIF is "@ + dec(width as nat) + "x"@
                + dec(height as nat) + ", over the "@ + dec(MAX_PAGE_GIF_DIM as nat) + "x"@ + dec(
                MAX_PAGE_GIF_DIM as nat,
            ) + " size limit"@,
            ParseError::InvalidSelector => "invalid selector"@,
        }
    }

    /// The error's message, for the user.
    pub fn message(&self) -> (r: String)
        ensures
            r@ == self.spec_message(),
    {
        let mut s = String::new();
        match *self {
            ParseError::InvalidJson => push_str(&mut s, "texttv.nu response is not valid JSON"),
            ParseError::EmptyResponse(p) => {
                push_str(&mut s, "page ");
                push_decimal(&mut s, p as u32);
                push_str(&mut s, " not available (empty texttv.nu response)");
            },
            ParseError::MissingContent(p) => {
                push_str(&mut s, "page ");
                push_decimal(&mut s, p as u32);
                push_str(&mut s, ": missing content[0] in texttv.nu JSON");
            },
            ParseError::NoLines(p) => {
                push_str(&mut s, "page ");
                push_decimal(&mut s, p as u32);
                push_str(&mut s, " not available (no lines parsed)");
            },
            ParseError::NoImages(p) => {
                push_str(&mut s, "page ");
                push_decimal(&mut s, p as u32);
                push_str(&mut s, " not available (no subpage images in response)");
            },
            ParseError::NotGifDataUri => push_str(
                &mut s,
                "img src does not start with data:image/gif;base64,",
            ),
            ParseError::Base64 => push_str(&mut s, "base64 decode failed"),
            ParseError::GifDecode => push_str(&mut s, "gif decode failed"),
            ParseError::GifTooLarge { width, height } => {
                push_str(&mut s, "page GIF is ");
                push_decimal(&mut s, width as u32);
                push_str(&mut s, "x");
                push_decimal(&mut s, height as u32);
                push_str(&mut s, ", over the ");
                push_decimal(&mut s, MAX_PAGE_GIF_DIM);
                push_str(&mut s, "x");
                push_decimal(&mut s, MAX_PAGE_GIF_DIM);
                push_str(&mut s, " size limit");
            },
            ParseError::InvalidSelector => push_str(&mut s, "invalid selector"),
        }
        s
    }
}

/// Every line has at least one cell, and every cell is sane (text without
/// control characters; glyph URLs only on texttv.nu's CDN).
pub open spec fn lines_sane(lines: Seq<(Seq<CellModel>, bool)>) -> bool {
    forall|i: int|
        0 <= i < lines.len() ==> (#[trigger] lines[i]).0.len() > 0 && cells_sane(lines[i].0)
}

/// What the scraped lines of any texttv.nu page give is sane.
pub proof fn lemma_lines_model_sane(raw: Seq<RawLineModel>)
    ensures
        lines_sane(lines_model(raw)),
    decreases raw.len(),
{
    if raw.len() > 0 {
        lemma_lines_model_sane(raw.drop_last());
        let r = raw.last();
        lemma_merged_cells_sane(r.spans, r.spans.len() as int);
    }
}

/// The colored page of `page_no` from its scraped `span.line` elements:
/// `NoLines` when none of them has text, else the lines and their plain text.
pub fn colored_page_from_raw(page_no: u16, raw: &[RawLine]) -> (r: Result<ColoredPage, ParseError>)
    ensures
        lines_model(raws_view(raw@)).len() == 0 ==> r == Err::<ColoredPage, ParseError>(
            ParseError::NoLines(page_no),
        ),
        lines_model(raws_view(raw@)).len() > 0 ==> (r matches Ok(cp) && cp.page_no == page_no && lines_view(
            cp.lines@,
        ) == lines_model(raws_view(raw@)) && cp.plain@ == spec_plain(cp.lines@)),
{
    let lines = lines_from_raw(raw);
    if lines.len() == 0 {
        return Err(ParseError::NoLines(page_no));
    }
    let plain = derive_plain(lines.as_slice());
    Ok(ColoredPage { page_no, lines, plain })
}

pub open spec fn line_selector() -> Seq<char> {
    "span.line"@
}

pub open spec fn span_selector() -> Seq<char> {
    ":scope > span"@
}

/// An attribute's value, empty when the attribute is absent.
pub open spec fn attr_or_empty(o: Option<Seq<char>>) -> Seq<char> {
    match o {
        Some(v) => v,
        None => Seq::empty(),
    }
}

/// A `span` child of a line in the fragment parsed from `html`.
pub open spec fn scraped_span(html: Seq<char>, node: nat) -> SpanModel {
    SpanModel {
        class: attr_or_empty(node_attr(html, true, node, "class"@)),
        style: node_attr(html, true, node, "style"@),
        text: node_text(html, true, node),
    }
}

/// A `span.line` element of the fragment parsed from `html`, with its
/// direct `span` children.
pub open spec fn scraped_line(html: Seq<char>, node: nat) -> RawLineModel {
    RawLineModel {
        class: attr_or_empty(node_attr(html, true, node, "class"@)),
        spans: el_select(html, true, node, span_selector()).map_values(
            |n: nat| scraped_span(html, n),
        ),
    }
}

/// The `span.line` elements of texttv.nu's page HTML, in document order;
/// `None` when the HTML engine refuses one of the two selectors.
pub open spec fn spec_scrape(html: Seq<char>) -> Option<Seq<RawLineModel>> {
    if selector_valid(line_selector()) && selector_valid(span_selector()) {
        Some(doc_select(html, true, line_selector()).map_values(|n: nat| scraped_line(html, n)))
    } else {
        None
    }
}

/// The `span.line` elements of texttv.nu's page HTML, each with its `class`
/// and its `span` children's `class`, `style` and text.
#[verifier::spinoff_prover]
fn scrape_lines(html: &str) -> (r: Option<Vec<RawLine>>)
    ensures
        match spec_scrape(html@) {
            None => r is None,
            Some(m) => r matches Some(v) && raws_view(v@) == m,
        },
{
    let frag = parse_fragment(html);
    let line_sel = match parse_selector("span.line") {
        Some(s) => s,
        None => {
            return None;
        },
    };
    let span_sel = match parse_selector(":scope > span") {
        Some(s) => s,
        None => {
            return None;
        },
    };
    let line_els = select_in_document(&frag, &line_sel);
    let ghost ids = doc_select(html@, true, line_selector());
    let mut out: Vec<RawLine> = Vec::new();
    let mut k: usize = 0;
    while k < line_els.len()
        invariant
            k <= line_els@.len(),
            line_els@.len() == ids.len(),
            ids == doc_select(html@, true, line_selector()),
            forall|i: int|
                0 <= i < line_els@.len() ==> (#[trigger] line_els@[i]).doc() == (html@, true)
                    && line_els@[i].node() == ids[i],
            span_sel.text() == span_selector(),
            raws_view(out@) == ids.take(k as int).map_values(|n: nat| scraped_line(html@, n)),
        decreases line_els.len() - k,
    {
        let line_el = &line_els[k];
        let class = match element_attr(line_el, "class") {
            Some(c) => c,
            None => String::new(),
        };
        let span_els = select_in_element(line_el, &span_sel);
        let ghost sids = el_select(html@, true, ids[k as int], span_selector());
        let mut spans: Vec<RawSpan> = Vec::new();
        let mut j: usize = 0;
        while j < span_els.len()
            invariant
                j <= span_els@.len(),
                span_els@.len() == sids.len(),
                forall|i: int|
                    0 <= i < span_els@.len() ==> (#[trigger] span_els@[i]).doc() == (html@, true)
                        && span_els@[i].node() == sids[i],
                spans@.map_values(|sp: RawSpan| span_view(sp)) == sids.take(j as int).map_values(
                    |n: nat| scraped_span(html@, n),
                ),
            decreases span_els.len() - j,
        {
            let el = &span_els[j];
            let cls = match element_attr(el, "class") {
                Some(c) => c,
                None => String::new(),
            };
            let style = element_attr(el, "style");
            let text = element_text(el);
            let sp = RawSpan { class: cls, style, text };
            let ghost before = spans@;
            spans.push(sp);
            assert(span_view(sp) == scraped_span(html@, sids[j as int]));
            assert(spans@.map_values(|sp: RawSpan| span_view(sp)) =~= sids.take(j as int + 1).map_values(
                |n: nat| scraped_span(html@, n),
            )) by {
                assert(spans@ == before.push(sp));
                assert(spans@.map_values(|sp: RawSpan| span_view(sp)) =~= before.map_values(
                    |sp: RawSpan| span_view(sp),
                ).push(span_view(sp)));
                assert(sids.take(j as int + 1) =~= sids.take(j as int).push(sids[j as int]));
                assert(sids.take(j as int + 1).map_values(|n: nat| scraped_span(html@, n)) =~= sids.take(
                    j as int,
                ).map_values(|n: nat| scraped_span(html@, n)).push(scraped_span(html@, sids[j as int])));
            }
            j = j + 1;
        }
        assert(sids.take(sids.len() as int) == sids);
        let line = RawLine { class, spans };
        assert(raw_view(line) == scraped_line(html@, ids[k as int]));
        let ghost before = out@;
        out.push(line);
        assert(raws_view(out@) =~= ids.take(k as int + 1).map_values(
            |n: nat| scraped_line(html@, n),
        )) by {
            assert(out@ == before.push(line));
            assert(raws_view(out@) =~= raws_view(before).push(raw_view(line)));
            assert(ids.take(k as int + 1) =~= ids.take(k as int).push(ids[k as int]));
            assert(ids.take(k as int + 1).map_values(|n: nat| scraped_line(html@, n)) =~= ids.take(
                k as int,
            ).map_values(|n: nat| scraped_line(html@, n)).push(scraped_line(html@, ids[k as int])));
        }
        k = k + 1;
    }
    assert(ids.take(ids.len() as int) == ids);
    Some(out)
}

/// The HTML that texttv.nu's JSON answer `json` holds for `page_no`: the
/// string `content[0]` of the first entry of the top-level array.
pub open spec fn spec_texttv_nu_html(json: Seq<char>, page_no: u16) -> Result<Seq<char>, ParseError> {
    if !json_valid(json) {
        Err(ParseError::InvalidJson)
    } else if !(json_pointer(json, ""@) == Some(JsonNodeModel::Array) && json_pointer(json, "/0"@) is Some) {
        Err(ParseError::EmptyResponse(page_no))
    } else if json_pointer(json, "/0/content"@) != Some(JsonNodeModel::Array) {
        Err(ParseError::MissingContent(page_no))
    } else {
        match json_pointer(json, "/0/content/0"@) {
            Some(JsonNodeModel::Str(h)) => Ok(h),
            _ => Err(ParseError::MissingContent(page_no)),
        }
    }
}

/// The scraped `span.line` elements of the HTML that texttv.nu's answer
/// holds for `page_no`.
pub open spec fn spec_texttv_nu_raw(json: Seq<char>, page_no: u16) -> Result<Seq<RawLineModel>, ParseError> {
    match spec_texttv_nu_html(json, page_no) {
        Err(e) => Err(e),
        Ok(h) => match spec_scrape(h) {
            None => Err(ParseError::InvalidSelector),
            Some(raws) => Ok(raws),
        },
    }
}

/// The HTML string `content[0]` of the first entry of the top-level array
/// of texttv.nu's JSON answer.
fn texttv_nu_html(json: &str, page_no: u16) -> (r: Result<String, ParseError>)
    ensures
        match spec_texttv_nu_html(json@, page_no) {
            Err(e) => r == Err::<String, ParseError>(e),
            Ok(h) => r matches Ok(s) && s@ == h,
        },
{
    let doc = match json_parse(json) {
        Some(d) => d,
        None => {
            return Err(ParseError::InvalidJson);
        },
    };
    match json_at(&doc, "") {
        Some(JsonNode::Array) => {},
        _ => {
            return Err(ParseError::EmptyResponse(page_no));
        },
    }
    if json_at(&doc, "/0").is_none() {
        return Err(ParseError::EmptyResponse(page_no));
    }
    match json_at(&doc, "/0/content") {
        Some(JsonNode::Array) => {},
        _ => {
            return Err(ParseError::MissingContent(page_no));
        },
    }
    match json_at(&doc, "/0/content/0") {
        Some(JsonNode::Str(h)) => Ok(h),
        _ => Err(ParseError::MissingContent(page_no)),
    }
}

/// Parse texttv.nu's JSON answer for `page_no`: the HTML in `content[0]` of
/// its first entry becomes the colored page, with `NoLines` when none of its
/// lines has text. A page that comes back has sane lines: each has cells,
/// no cell text holds a control character, every glyph URL lies on
/// texttv.nu's CDN.
#[verifier::spinoff_prover]
pub fn parse_texttv_nu(json: &str, page_no: u16) -> (r: Result<ColoredPage, ParseError>)
    ensures
        match spec_texttv_nu_raw(json@, page_no) {
            Err(e) => r == Err::<ColoredPage, ParseError>(e),
            Ok(raws) => if lines_model(raws).len() == 0 {
                r == Err::<ColoredPage, ParseError>(ParseError::NoLines(page_no))
            } else {
                r matches Ok(cp) && cp.page_no == page_no && lines_view(cp.lines@) == lines_model(raws)
                    && cp.plain@ == spec_plain(cp.lines@)
            },
        },
        r matches Ok(cp) ==> cp.lines@.len() > 0 && lines_sane(lines_view(cp.lines@)),
{
    let html = match texttv_nu_html(json, page_no) {
        Ok(h) => h,
        Err(e) => {
            return Err(e);
        },
    };
    let raw = match scrape_lines(html.as_str()) {
        Some(raw) => raw,
        None => {
            return Err(ParseError::InvalidSelector);
        },
    };
    proof {
        lemma_lines_model_sane(raws_view(raw@));
    }
    colored_page_from_raw(page_no, raw.as_slice())
}


/// texttv.nu's answer gives a page exactly when it is JSON whose top level
/// is an array with an element 0, whose `content` is an array whose element
/// 0 is a string, and that HTML yields a line with text; a page that comes
/// back then has those lines and their plain text.
pub proof fn law_texttv_nu_page_exactly_when(json: Seq<char>, page_no: u16)
    ensures
        (spec_texttv_nu_raw(json, page_no) matches Ok(raws) && lines_model(raws).len() > 0) <==> {
            &&& json_valid(json)
            &&& json_pointer(json, ""@) == Some(JsonNodeModel::Array)
            &&& json_pointer(json, "/0"@) is Some
            &&& json_pointer(json, "/0/content"@) == Some(JsonNodeModel::Array)
            &&& json_pointer(json, "/0/content/0"@) matches Some(JsonNodeModel::Str(h))
            &&& spec_scrape(h) matches Some(raws)
            &&& lines_model(raws).len() > 0
        },
{
}

// ============================================================================
// SVT path: subpage GIFs and the screen-reader text of svt.se's page.
// ============================================================================

/// A page from svt.se: its subpage images and its text.
#[derive(Debug)]
pub struct Page {
    pub page_no: u16,
    pub images: Vec<PageImage>,
    pub text: String,
}

/// `s` cut at every newline: the lines scanned so far and the line in progress.
pub open spec fn line_scan(s: Seq<char>) -> (Seq<Seq<char>>, Seq<char>)
    decreases s.len(),
{
    if s.len() == 0 {
        (Seq::empty(), Seq::empty())
    } else {
        let p = line_scan(s.drop_last());
        if s.last() == '\n' {
            (p.0.push(p.1), Seq::empty())
        } else {
            (p.0, p.1.push(s.last()))
        }
    }
}

/// The pieces of `s` between newlines, the last one included.
pub open spec fn split_lines(s: Seq<char>) -> Seq<Seq<char>> {
    line_scan(s).0.push(line_scan(s).1)
}

/// One line of page text folded into the output so far (text, previous line
/// blank, any text seen): control characters and trailing whitespace are
/// removed; a blank line is kept only after text and never twice in a row.
pub open spec fn collect_step(acc: (Seq<char>, bool, bool), line: Seq<char>) -> (Seq<char>, bool, bool) {
    let t = trim_end(strip_controls(line));
    if t.len() == 0 {
        if acc.2 && !acc.1 {
            (acc.0.push('\n'), true, acc.2)
        } else {
            acc
        }
    } else {
        (acc.0 + t.push('\n'), false, true)
    }
}

pub open spec fn collect_acc(lines: Seq<Seq<char>>) -> (Seq<char>, bool, bool)
    decreases lines.len(),
{
    if lines.len() == 0 {
        (Seq::empty(), false, false)
    } else {
        collect_step(collect_acc(lines.drop_last()), lines.last())
    }
}

/// The page text made of an element's raw text.
pub open spec fn spec_collect_text(raw: Seq<char>) -> Seq<char> {
    trim_end(collect_acc(split_lines(raw)).0)
}

/// No control character but the newline.
pub open spec fn clean_text(s: Seq<char>) -> bool {
    forall|k: int| 0 <= k < s.len() ==> (#[trigger] s[k] == '\n' || !is_control(s[k]))
}

fn collect_line(acc: &mut (Vec<char>, bool, bool), line: &[char])
    ensures
        (final(acc).0@, final(acc).1, final(acc).2) == collect_step(
            (old(acc).0@, old(acc).1, old(acc).2),
            line@,
        ),
{
    let kept = remove_controls(line);
    let n = trimmed_end_len(kept.as_slice());
    if n == 0 {
        if acc.2 && !acc.1 {
            acc.0.push('\n');
            acc.1 = true;
        }
    } else {
        let ghost before = acc.0@;
        let mut i: usize = 0;
        while i < n
            invariant
                i <= n <= kept@.len(),
                acc.0@ == before + kept@.take(i as int),
            decreases n - i,
        {
            assert(kept@.take(i as int + 1) == kept@.take(i as int).push(kept@[i as int]));
            acc.0.push(kept[i]);
            i = i + 1;
        }
        acc.0.push('\n');
        acc.1 = false;
        acc.2 = true;
    }
}

/// The page text from an element's raw text: each line stripped of control
/// characters and trailing whitespace, runs of blank lines collapsed into
/// one, leading blank lines and trailing whitespace dropped.
#[verifier::spinoff_prover]
pub fn collect_text(raw: &str) -> (r: String)
    ensures
        r@ == spec_collect_text(raw@),
{
    let cs = chars_of(raw);
    let mut acc: (Vec<char>, bool, bool) = (Vec::new(), false, false);
    let mut cur: Vec<char> = Vec::new();
    let mut i: usize = 0;
    while i < cs.len()
        invariant
            i <= cs@.len(),
            (acc.0@, acc.1, acc.2) == collect_acc(line_scan(cs@.take(i as int)).0),
            cur@ == line_scan(cs@.take(i as int)).1,
        decreases cs.len() - i,
    {
        let c = cs[i];
        assert(cs@.take(i as int + 1).drop_last() == cs@.take(i as int));
        assert(cs@.take(i as int + 1).last() == c);
        if c == '\n' {
            collect_line(&mut acc, cur.as_slice());
            let ghost lines = line_scan(cs@.take(i as int)).0;
            assert(lines.push(cur@).drop_last() == lines);
            cur = Vec::new();
        } else {
            cur.push(c);
        }
        i = i + 1;
    }
    assert(cs@.take(cs.len() as int) == cs@);
    collect_line(&mut acc, cur.as_slice());
    proof {
        let lines = line_scan(raw@).0;
        assert(split_lines(raw@).drop_last() == lines);
    }
    let n = trimmed_end_len(acc.0.as_slice());
    string_of(chars_range(acc.0.as_slice(), 0, n).as_slice())
}

/// Removing trailing whitespace leaves a prefix.
pub proof fn lemma_trim_end_prefix(s: Seq<char>)
    ensures
        trim_end(s).len() <= s.len(),
        trim_end(s) == s.take(trim_end(s).len() as int),
    decreases s.len(),
{
    if s.len() > 0 && crate::textutil::is_space(s.last()) {
        lemma_trim_end_prefix(s.drop_last());
        assert(s.drop_last().take(trim_end(s).len() as int) == s.take(trim_end(s).len() as int));
    } else {
        assert(s.take(s.len() as int) == s);
    }
}

proof fn lemma_collect_acc_clean(lines: Seq<Seq<char>>)
    ensures
        clean_text(collect_acc(lines).0),
    decreases lines.len(),
{
    if lines.len() > 0 {
        lemma_collect_acc_clean(lines.drop_last());
        let p = collect_acc(lines.drop_last());
        let st = strip_controls(lines.last());
        let t = trim_end(st);
        lemma_strip_controls_clean(lines.last());
        lemma_trim_end_prefix(st);
        if t.len() > 0 {
            let o = p.0 + t.push('\n');
            assert forall|k: int| 0 <= k < o.len() implies (#[trigger] o[k] == '\n' || !is_control(
                o[k],
            )) by {
                if k < p.0.len() {
                    assert(o[k] == p.0[k]);
                } else if k < p.0.len() + t.len() {
                    assert(o[k] == t[k - p.0.len()]);
                    assert(t[k - p.0.len()] == st[k - p.0.len()]);
                }
            }
        }
    }
}

/// The page text never holds a control character but the newline.
pub proof fn lemma_collect_text_clean(raw: Seq<char>)
    ensures
        clean_text(spec_collect_text(raw)),
{
    let o = collect_acc(split_lines(raw)).0;
    lemma_collect_acc_clean(split_lines(raw));
    lemma_trim_end_prefix(o);
    let t = trim_end(o);
    assert forall|k: int| 0 <= k < t.len() implies (#[trigger] t[k] == '\n' || !is_control(t[k])) by {
        assert(t[k] == o[k]);
    }
}

/// What the `base64` crate's standard engine decodes from `text`; `None`
/// where it reports an error.
pub uninterp spec fn base64_decoded(text: Seq<char>) -> Option<Seq<u8>>;

/// Decodes with `base64::engine::general_purpose::STANDARD`. Claimed: the
/// outcome is a function of the text alone (`base64_decoded`).
#[verifier::external_body]
fn base64_decode(text: &str) -> (r: Option<Vec<u8>>)
    ensures
        match base64_decoded(text@) {
            None => r is None,
            Some(b) => r matches Some(v) && v@ == b,
        },
{
    match base64::Engine::decode(&base64::engine::general_purpose::STANDARD, text) {
        Ok(v) => Some(v),
        Err(_) => None,
    }
}

/// The prefix of an inline GIF image source.
pub open spec fn gif_data_uri_prefix() -> Seq<char> {
    "data:image/gif;base64,"@
}

/// The logical screen width and height a GIF header declares (little-endian
/// at bytes 6 to 9), when the data is long enough to hold them.
pub open spec fn gif_header_dims(bytes: Seq<u8>) -> Option<(u16, u16)> {
    if bytes.len() >= 10 {
        Some(((bytes[6] + 256 * bytes[7]) as u16, (bytes[8] + 256 * bytes[9]) as u16))
    } else {
        None
    }
}

/// What an image source gives: the GIF its base64 payload (surrounding
/// whitespace removed) holds, refused before decoding when its header
/// declares more than `MAX_PAGE_GIF_DIM` pixels in either direction, and
/// refused when it decodes to no pixels.
pub open spec fn spec_decode_data_uri(src: Seq<char>) -> Result<(u32, u32, Seq<u8>), ParseError> {
    let prefix = gif_data_uri_prefix();
    if !(prefix.len() <= src.len() && src.take(prefix.len() as int) == prefix) {
        Err(ParseError::NotGifDataUri)
    } else {
        match base64_decoded(trim(src.skip(prefix.len() as int))) {
            None => Err(ParseError::Base64),
            Some(bytes) => match gif_header_dims(bytes) {
                Some((w, h)) if w > MAX_PAGE_GIF_DIM || h > MAX_PAGE_GIF_DIM => Err(
                    ParseError::GifTooLarge { width: w, height: h },
                ),
                _ => match gif_decoded(bytes) {
                    None => Err(ParseError::GifDecode),
                    Some(img) => if img.0 == 0 || img.1 == 0 {
                        Err(ParseError::GifDecode)
                    } else {
                        Ok(img)
                    },
                },
            },
        }
    }
}

pub open spec fn image_model(img: PageImage) -> (u32, u32, Seq<u8>) {
    (img.width, img.height, img.data@)
}

/// Decode an inline `data:image/gif;base64,` image source.
#[verifier::spinoff_prover]
pub fn decode_data_uri(src: &str) -> (r: Result<PageImage, ParseError>)
    ensures
        match spec_decode_data_uri(src@) {
            Err(e) => r == Err::<PageImage, ParseError>(e),
            Ok(m) => r matches Ok(img) && image_model(img) == m && img.wf() && img.width > 0
                && img.height > 0,
        },
{
    let cs = chars_of(src);
    let prefix = chars_of("data:image/gif;base64,");
    if !chars_start_with(cs.as_slice(), prefix.as_slice()) {
        return Err(ParseError::NotGifDataUri);
    }
    let rest = chars_range(cs.as_slice(), prefix.len(), cs.len());
    let a = trimmed_start_len(rest.as_slice());
    let tail = chars_range(rest.as_slice(), a, rest.len());
    let b = trimmed_end_len(tail.as_slice());
    let payload = string_of(chars_range(tail.as_slice(), 0, b).as_slice());
    assert(payload@ == trim(src@.skip(gif_data_uri_prefix().len() as int)));
    let bytes = match base64_decode(payload.as_str()) {
        Some(v) => v,
        None => {
            return Err(ParseError::Base64);
        },
    };
    if bytes.len() >= 10 {
        let w: u16 = bytes[6] as u16 + 256 * bytes[7] as u16;
        let h: u16 = bytes[8] as u16 + 256 * bytes[9] as u16;
        if w as u32 > MAX_PAGE_GIF_DIM || h as u32 > MAX_PAGE_GIF_DIM {
            return Err(ParseError::GifTooLarge { width: w, height: h });
        }
    }
    match decode_gif_rgb(bytes.as_slice()) {
        Ok(img) => {
            if img.width == 0 || img.height == 0 {
                Err(ParseError::GifDecode)
            } else {
                Ok(img)
            }
        },
        Err(_) => Err(ParseError::GifDecode),
    }
}


/// The images of a run of image sources, decoded in order; the first
/// source that fails gives the error.
pub open spec fn spec_images(srcs: Seq<Seq<char>>) -> Result<Seq<(u32, u32, Seq<u8>)>, ParseError>
    decreases srcs.len(),
{
    if srcs.len() == 0 {
        Ok(Seq::empty())
    } else {
        match spec_images(srcs.drop_last()) {
            Err(e) => Err(e),
            Ok(v) => match spec_decode_data_uri(srcs.last()) {
                Err(e) => Err(e),
                Ok(m) => Ok(v.push(m)),
            },
        }
    }
}

/// A decoding error among the first `n` sources is the error of all of them.
proof fn lemma_spec_images_prefix_err(srcs: Seq<Seq<char>>, n: int)
    requires
        0 <= n <= srcs.len(),
        spec_images(srcs.take(n)) is Err,
    ensures
        spec_images(srcs) == spec_images(srcs.take(n)),
    decreases srcs.len() - n,
{
    if n < srcs.len() {
        assert(srcs.drop_last().take(n) == srcs.take(n));
        lemma_spec_images_prefix_err(srcs.drop_last(), n);
    } else {
        assert(srcs.take(n) == srcs);
    }
}

/// The page made of its image sources and the raw text of its text element:
/// page number, decoded images (at least one) and the page text.
pub open spec fn spec_page_from_sources(page_no: u16, srcs: Seq<Seq<char>>, raw_text: Seq<char>) -> Result<
    (u16, Seq<(u32, u32, Seq<u8>)>, Seq<char>),
    ParseError,
> {
    match spec_images(srcs) {
        Err(e) => Err(e),
        Ok(v) => if v.len() == 0 {
            Err(ParseError::NoImages(page_no))
        } else {
            Ok((page_no, v, spec_collect_text(raw_text)))
        },
    }
}

pub open spec fn page_model(p: Page) -> (u16, Seq<(u32, u32, Seq<u8>)>, Seq<char>) {
    (p.page_no, p.images@.map_values(|img: PageImage| image_model(img)), p.text@)
}

/// Every image has pixels, and its pixel buffer covers its size.
pub open spec fn images_wf(images: Seq<PageImage>) -> bool {
    forall|i: int|
        0 <= i < images.len() ==> (#[trigger] images[i]).wf() && images[i].width > 0 && images[i].height > 0
}

/// The texts of a run of strings.
pub open spec fn strings_view(ss: Seq<String>) -> Seq<Seq<char>> {
    ss.map_values(|s: String| s@)
}

/// The SVT page `page_no` from what its HTML holds: the `src` of each
/// inline GIF image, in document order, and the raw text of the element
/// holding the page text.
#[verifier::spinoff_prover]
pub fn page_from_sources(page_no: u16, srcs: &[String], raw_text: &str) -> (r: Result<Page, ParseError>)
    ensures
        match spec_page_from_sources(page_no, strings_view(srcs@), raw_text@) {
            Err(e) => r == Err::<Page, ParseError>(e),
            Ok(m) => r matches Ok(p) && page_model(p) == m && images_wf(p.images@),
        },
{
    let mut images: Vec<PageImage> = Vec::new();
    let mut k: usize = 0;
    while k < srcs.len()
        invariant
            k <= srcs@.len(),
            spec_images(strings_view(srcs@).take(k as int)) matches Ok(v) && images@.map_values(
                |img: PageImage| image_model(img),
            ) == v,
            images_wf(images@),
        decreases srcs.len() - k,
    {
        assert(strings_view(srcs@).take(k as int + 1).drop_last() == strings_view(srcs@).take(k as int));
        assert(strings_view(srcs@).take(k as int + 1).last() == srcs@[k as int]@);
        match decode_data_uri(srcs[k].as_str()) {
            Err(e) => {
                proof {
                    lemma_spec_images_prefix_err(strings_view(srcs@), k as int + 1);
                }
                return Err(e);
            },
            Ok(img) => {
                let ghost before = images@;
                images.push(img);
                assert(images@.map_values(|img: PageImage| image_model(img)) =~= before.map_values(
                    |img: PageImage| image_model(img),
                ).push(image_model(img)));
            },
        }
        k = k + 1;
    }
    assert(strings_view(srcs@).take(srcs.len() as int) == strings_view(srcs@));
    if images.len() == 0 {
        return Err(ParseError::NoImages(page_no));
    }
    let text = collect_text(raw_text);
    Ok(Page { page_no, images, text })
}


/// The selector of SVT's inline subpage GIFs.
pub open spec fn img_selector() -> Seq<char> {
    "img[src^='data:image/gif;base64,']"@
}

/// The selector of SVT's screen-reader container; its CSS module class
/// carries a build hash, so only the stable part of the name is matched.
pub open spec fn reader_selector() -> Seq<char> {
    "div[class*=\"screenreaderOnly\"]"@
}

/// The text of the first element `selector` matches in the document parsed
/// from `html`: `Some(None)` when nothing matches, `None` when the selector
/// is refused.
pub open spec fn first_node_text(html: Seq<char>, selector: Seq<char>) -> Option<Option<Seq<char>>> {
    if !selector_valid(selector) {
        None
    } else if doc_select(html, false, selector).len() == 0 {
        Some(None)
    } else {
        Some(Some(node_text(html, false, doc_select(html, false, selector)[0])))
    }
}

/// The raw text of SVT's page `html`: that of the screen-reader container,
/// else of `main`, else of `body`, else nothing; `None` when a selector
/// tried is refused.
pub open spec fn spec_svt_text(html: Seq<char>) -> Option<Seq<char>> {
    match first_node_text(html, reader_selector()) {
        None => None,
        Some(Some(t)) => Some(t),
        Some(None) => match first_node_text(html, "main"@) {
            None => None,
            Some(Some(t)) => Some(t),
            Some(None) => match first_node_text(html, "body"@) {
                None => None,
                Some(Some(t)) => Some(t),
                Some(None) => Some(Seq::empty()),
            },
        },
    }
}

/// The `src` attributes of `nodes` in the document parsed from `html`, in
/// order, skipping nodes without one.
pub open spec fn present_srcs(html: Seq<char>, nodes: Seq<nat>) -> Seq<Seq<char>>
    decreases nodes.len(),
{
    if nodes.len() == 0 {
        Seq::empty()
    } else {
        let prev = present_srcs(html, nodes.drop_last());
        match node_attr(html, false, nodes.last(), "src"@) {
            Some(v) => prev.push(v),
            None => prev,
        }
    }
}

/// The `src` of each inline GIF image of SVT's page `html`, in document order.
pub open spec fn spec_svt_srcs(html: Seq<char>) -> Seq<Seq<char>> {
    present_srcs(html, doc_select(html, false, img_selector()))
}

/// The page SVT's HTML `html` gives for `page_no`.
pub open spec fn spec_extract_page(html: Seq<char>, page_no: u16) -> Result<
    (u16, Seq<(u32, u32, Seq<u8>)>, Seq<char>),
    ParseError,
> {
    if !selector_valid(img_selector()) {
        Err(ParseError::InvalidSelector)
    } else {
        match spec_svt_text(html) {
            None => Err(ParseError::InvalidSelector),
            Some(t) => spec_page_from_sources(page_no, spec_svt_srcs(html), t),
        }
    }
}

/// The raw text of the first element `selector` matches in `doc`, if any.
/// `None` inside `Some` when nothing matches; `None` when the selector is refused.
fn first_text(doc: &Document, selector: &str) -> (r: Option<Option<String>>)
    requires
        doc.source().1 == false,
    ensures
        match first_node_text(doc.source().0, selector@) {
            None => r is None,
            Some(None) => r == Some(None::<String>),
            Some(Some(t)) => r matches Some(Some(s)) && s@ == t,
        },
{
    let sel = match parse_selector(selector) {
        Some(s) => s,
        None => {
            return None;
        },
    };
    let els = select_in_document(doc, &sel);
    if els.len() == 0 {
        Some(None)
    } else {
        Some(Some(element_text(&els[0])))
    }
}

/// Whether `e` is one of the errors that extracting an SVT page numbered
/// `page_no` can give.
pub open spec fn svt_error(e: ParseError, page_no: u16) -> bool {
    ||| e == ParseError::NoImages(page_no)
    ||| e == ParseError::NotGifDataUri
    ||| e == ParseError::Base64
    ||| e == ParseError::GifDecode
    ||| e is GifTooLarge
    ||| e == ParseError::InvalidSelector
}

/// Extract SVT's page `page_no` from its HTML: every inline GIF subpage
/// image, and the text of the screen-reader element (falling back to
/// `main`, then `body`). A page that comes back has at least one image,
/// every image has pixels and a pixel buffer that covers its size, and its
/// text holds no control character but the newline.
#[verifier::spinoff_prover]
pub fn extract_page(html: &str, page_no: u16) -> (r: Result<Page, ParseError>)
    ensures
        match spec_extract_page(html@, page_no) {
            Err(e) => r == Err::<Page, ParseError>(e),
            Ok(m) => r matches Ok(p) && page_model(p) == m && images_wf(p.images@),
        },
        r matches Ok(p) ==> p.page_no == page_no && p.images@.len() > 0 && clean_text(p.text@),
        r matches Err(e) ==> svt_error(e, page_no),
{
    let doc = parse_document(html);
    let img_sel = match parse_selector("img[src^='data:image/gif;base64,']") {
        Some(s) => s,
        None => {
            return Err(ParseError::InvalidSelector);
        },
    };
    let img_els = select_in_document(&doc, &img_sel);
    let ghost ids = doc_select(html@, false, img_selector());
    let mut srcs: Vec<String> = Vec::new();
    let mut k: usize = 0;
    while k < img_els.len()
        invariant
            k <= img_els@.len(),
            img_els@.len() == ids.len(),
            ids == doc_select(html@, false, img_selector()),
            forall|i: int|
                0 <= i < img_els@.len() ==> (#[trigger] img_els@[i]).doc() == (html@, false)
                    && img_els@[i].node() == ids[i],
            strings_view(srcs@) == present_srcs(html@, ids.take(k as int)),
        decreases img_els.len() - k,
    {
        assert(ids.take(k as int + 1).drop_last() == ids.take(k as int));
        assert(ids.take(k as int + 1).last() == ids[k as int]);
        let ghost before = srcs@;
        match element_attr(&img_els[k], "src") {
            Some(src) => {
                srcs.push(src);
                assert(strings_view(srcs@) =~= strings_view(before).push(src@));
            },
            None => {},
        }
        k = k + 1;
    }
    assert(ids.take(ids.len() as int) == ids);
    let raw_text = match first_text(&doc, "div[class*=\"screenreaderOnly\"]") {
        None => {
            return Err(ParseError::InvalidSelector);
        },
        Some(Some(t)) => t,
        Some(None) => match first_text(&doc, "main") {
            None => {
                return Err(ParseError::InvalidSelector);
            },
            Some(Some(t)) => t,
            Some(None) => match first_text(&doc, "body") {
                None => {
                    return Err(ParseError::InvalidSelector);
                },
                Some(Some(t)) => t,
                Some(None) => String::new(),
            },
        },
    };
    let r = page_from_sources(page_no, srcs.as_slice(), raw_text.as_str());
    proof {
        lemma_collect_text_clean(raw_text@);
        lemma_spec_images_errors(strings_view(srcs@));
        if r is Ok {
            let p = r->Ok_0;
            assert(p.images@.map_values(|img: PageImage| image_model(img)).len() > 0);
        }
    }
    r
}

/// The errors decoding image sources can give.
proof fn lemma_spec_images_errors(srcs: Seq<Seq<char>>)
    ensures
        spec_images(srcs) matches Err(e) ==> (e == ParseError::NotGifDataUri || e
            == ParseError::Base64 || e == ParseError::GifDecode || e is GifTooLarge),
    decreases srcs.len(),
{
    if srcs.len() > 0 {
        lemma_spec_images_errors(srcs.drop_last());
    }
}


/// The text a scraped span contributes to its line.
pub open spec fn span_text(sp: SpanModel) -> Seq<char> {
    match span_cell(sp) {
        Some(c) => c.0,
        None => Seq::empty(),
    }
}

/// The texts of the first `n` spans, concatenated.
pub open spec fn spans_text(spans: Seq<SpanModel>, n: int) -> Seq<char>
    decreases n,
{
    if n <= 0 {
        Seq::empty()
    } else {
        spans_text(spans, n - 1) + span_text(spans[n - 1])
    }
}

/// The texts of a run of cells, concatenated.
pub open spec fn models_text(cells: Seq<CellModel>) -> Seq<char>
    decreases cells.len(),
{
    if cells.len() == 0 {
        Seq::empty()
    } else {
        models_text(cells.drop_last()) + cells.last().0
    }
}

/// Merging runs of cells keeps the line's text: the cells of a line read
/// exactly the (control-stripped) texts of its spans, in order, so every
/// span keeps its columns.
pub proof fn law_merge_keeps_text(spans: Seq<SpanModel>, n: int)
    ensures
        models_text(merged_cells(spans, n)) == spans_text(spans, n),
    decreases n,
{
    if n > 0 {
        law_merge_keeps_text(spans, n - 1);
        let prev = merged_cells(spans, n - 1);
        match span_cell(spans[n - 1]) {
            None => {},
            Some(c) => {
                if prev.len() > 0 && mergeable(prev.last(), c) {
                    let m = prev.update(prev.len() - 1, (prev.last().0 + c.0, c.1, c.2, None));
                    assert(m.drop_last() == prev.drop_last());
                    assert(m.last().0 == prev.last().0 + c.0);
                    assert(models_text(m) == models_text(prev.drop_last()) + prev.last().0 + c.0);
                } else {
                    assert(prev.push(c).drop_last() == prev);
                }
            },
        }
    }
}

/// Merging is complete: no two neighbouring cells of a line could have
/// been merged, so each color change costs one escape sequence.
pub proof fn law_merge_is_maximal(spans: Seq<SpanModel>, n: int)
    ensures
        forall|i: int|
            0 <= i < merged_cells(spans, n).len() - 1 ==> !mergeable(
                #[trigger] merged_cells(spans, n)[i],
                merged_cells(spans, n)[i + 1],
            ),
    decreases n,
{
    if n > 0 {
        law_merge_is_maximal(spans, n - 1);
        let prev = merged_cells(spans, n - 1);
        let cur = merged_cells(spans, n);
        match span_cell(spans[n - 1]) {
            None => {},
            Some(c) => {
                if prev.len() > 0 && mergeable(prev.last(), c) {
                    assert forall|i: int| 0 <= i < cur.len() - 1 implies !mergeable(
                        #[trigger] cur[i],
                        cur[i + 1],
                    ) by {
                        assert(cur[i] == prev[i]);
                        if i + 1 < prev.len() - 1 {
                            assert(cur[i + 1] == prev[i + 1]);
                        } else {
                            assert(!mergeable(prev[i], prev[i + 1]));
                        }
                    }
                } else {
                    assert forall|i: int| 0 <= i < cur.len() - 1 implies !mergeable(
                        #[trigger] cur[i],
                        cur[i + 1],
                    ) by {
                        assert(cur[i] == prev[i]);
                        if i + 1 < prev.len() {
                            assert(cur[i + 1] == prev[i + 1]);
                        }
                    }
                }
            },
        }
    }
}


/// No three newlines in a row: at most one blank line between paragraphs.
pub open spec fn no_blank_runs(s: Seq<char>) -> bool {
    forall|k: int|
        0 <= k && k + 2 < s.len() ==> !(#[trigger] s[k] == '\n' && s[k + 1] == '\n' && s[k + 2]
            == '\n')
}

/// The shape the fold keeps while collecting page text.
pub open spec fn collect_shape(acc: (Seq<char>, bool, bool)) -> bool {
    let s = acc.0;
    &&& acc.2 == (s.len() > 0)
    &&& s.len() > 0 ==> s.last() == '\n' && s[0] != '\n'
    &&& acc.1 ==> s.len() >= 2 && s[s.len() - 2] == '\n'
    &&& (!acc.1 && s.len() > 0) ==> s.len() >= 2 && s[s.len() - 2] != '\n'
    &&& no_blank_runs(s)
}

#[verifier::spinoff_prover]
proof fn lemma_collect_acc_shape(lines: Seq<Seq<char>>)
    ensures
        collect_shape(collect_acc(lines)),
    decreases lines.len(),
{
    if lines.len() > 0 {
        lemma_collect_acc_shape(lines.drop_last());
        let p = collect_acc(lines.drop_last());
        let st = strip_controls(lines.last());
        let t = trim_end(st);
        lemma_strip_controls_clean(lines.last());
        lemma_trim_end_prefix(st);
        lemma_trim_end_no_trailing_space(st);
        if t.len() == 0 {
            if p.2 && !p.1 {
                let o = p.0.push('\n');
                assert forall|k: int| 0 <= k && k + 2 < o.len() implies !(#[trigger] o[k] == '\n'
                    && o[k + 1] == '\n' && o[k + 2] == '\n') by {
                    if k + 2 < p.0.len() {
                        assert(o[k] == p.0[k] && o[k + 1] == p.0[k + 1] && o[k + 2] == p.0[k + 2]);
                    } else {
                        assert(o[k] == p.0[p.0.len() - 2]);
                    }
                }
            }
        } else {
            let o = p.0 + t.push('\n');
            assert(t[0] == st[0]);
            assert(!is_control(t[0]));
            assert(t[t.len() - 1] == st[t.len() - 1]);
            assert(!is_control(t[t.len() - 1]));
            assert forall|k: int| 0 <= k && k + 2 < o.len() implies !(#[trigger] o[k] == '\n'
                && o[k + 1] == '\n' && o[k + 2] == '\n') by {
                if k + 2 < p.0.len() {
                    assert(o[k] == p.0[k] && o[k + 1] == p.0[k + 1] && o[k + 2] == p.0[k + 2]);
                } else if k + 1 < p.0.len() {
                    assert(o[k + 2] == t[0]);
                } else if k < p.0.len() {
                    assert(o[k + 1] == t[0]);
                } else if k - p.0.len() < t.len() {
                    assert(o[k] == t[k - p.0.len()]);
                    assert(t[k - p.0.len()] == st[k - p.0.len()]);
                }
            }
            if p.0.len() == 0 {
                assert(o[0] == t[0]);
            } else {
                assert(o[0] == p.0[0]);
            }
            assert(o[o.len() - 2] == t[t.len() - 1]);
        }
    }
}

/// Removing trailing whitespace leaves no trailing whitespace.
pub proof fn lemma_trim_end_no_trailing_space(s: Seq<char>)
    ensures
        trim_end(s).len() > 0 ==> !crate::textutil::is_space(trim_end(s).last()),
    decreases s.len(),
{
    if s.len() > 0 && crate::textutil::is_space(s.last()) {
        lemma_trim_end_no_trailing_space(s.drop_last());
    }
}

/// The SVT page text is tidy: no control character but the newline, no
/// leading blank line, never more than one blank line in a row, and no
/// trailing whitespace.
pub proof fn law_page_text_is_tidy(raw: Seq<char>)
    ensures
        clean_text(spec_collect_text(raw)),
        spec_collect_text(raw).len() > 0 ==> spec_collect_text(raw)[0] != '\n',
        no_blank_runs(spec_collect_text(raw)),
        spec_collect_text(raw).len() > 0 ==> !crate::textutil::is_space(
            spec_collect_text(raw).last(),
        ),
{
    lemma_collect_text_clean(raw);
    let o = collect_acc(split_lines(raw)).0;
    lemma_collect_acc_shape(split_lines(raw));
    lemma_trim_end_prefix(o);
    lemma_trim_end_no_trailing_space(o);
    let t = trim_end(o);
    assert forall|k: int| 0 <= k && k + 2 < t.len() implies !(#[trigger] t[k] == '\n' && t[k + 1]
        == '\n' && t[k + 2] == '\n') by {
        assert(t[k] == o[k] && t[k + 1] == o[k + 1] && t[k + 2] == o[k + 2]);
    }
    if t.len() > 0 {
        assert(t[0] == o[0]);
    }
}

} // verus!
