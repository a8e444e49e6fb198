//! Rendering: the colored teletext text stream, the plain text path, and
//! the decisions behind image output.

use vstd::prelude::*;

use crate::ansi::{paint, painted};
use crate::cli::{Mode, Size};
use crate::pixels::PageImage;
use crate::mosaic::{glyph_char, pattern_to_glyph, PatternCache};
use crate::parse::{Cell, Line, TtColor};
use crate::textutil::{chars_of, find_chars, find_from, is_space, char_is_space, push_char, push_repeat, push_str, repeat_char};

verus! {

broadcast use vstd::string::group_string_axioms;

/// What the glyph of a cell is drawn as: a mosaic shows its resolved
/// glyph, or blanks of the cell's width (at least one) when its pattern is
/// not known; any other cell shows its text.
pub open spec fn cell_display(c: Cell, cache: Map<Seq<char>, u8>) -> Seq<char> {
    match c.mosaic_url {
        Some(u) => if cache.contains_key(u@) {
            seq![glyph_char(cache[u@])]
        } else {
            repeat_char(' ', if c.text@.len() > 1 { c.text@.len() } else { 1 })
        },
        None => c.text@,
    }
}

/// A cell as written: its display text, in its colors when `color` is on.
pub open spec fn cell_out(c: Cell, color: bool, cache: Map<Seq<char>, u8>) -> Seq<char> {
    if color {
        painted(cell_display(c, cache), c.fg.spec_rgb(), c.bg.spec_rgb())
    } else {
        cell_display(c, cache)
    }
}

pub open spec fn cells_out(cells: Seq<Cell>, color: bool, cache: Map<Seq<char>, u8>) -> Seq<char>
    decreases cells.len(),
{
    if cells.len() == 0 {
        Seq::empty()
    } else {
        cells_out(cells.drop_last(), color, cache) + cell_out(cells.last(), color, cache)
    }
}

/// One cell of solid black closing a row on the right.
pub open spec fn frame_cell() -> Seq<char> {
    "\x1b[48;2;0;0;0m \x1b[0m"@
}

/// A line as written: its cells, the right-edge frame when `color` is on,
/// and a newline.
pub open spec fn line_out(l: Line, color: bool, cache: Map<Seq<char>, u8>) -> Seq<char> {
    cells_out(l.cells@, color, cache) + (if color {
        frame_cell()
    } else {
        Seq::empty()
    }) + seq!['\n']
}

/// Whether a cell's text holds a non-whitespace character.
pub open spec fn has_ink(c: Cell) -> bool {
    exists|k: int| 0 <= k < c.text@.len() && !is_space(#[trigger] c.text@[k])
}

/// The character the underline is drawn with: the upper half block.
pub open spec fn bar_char() -> char {
    '\u{2580}'
}

/// The underline under each cell: one half block per character, in the
/// cell's own colors, so a multi-colored heading keeps its colors in the
/// bar; empty cells draw nothing.
pub open spec fn bar_cells(cells: Seq<Cell>) -> Seq<char>
    decreases cells.len(),
{
    if cells.len() == 0 {
        Seq::empty()
    } else {
        let c = cells.last();
        bar_cells(cells.drop_last()) + if c.text@.len() == 0 {
            Seq::empty()
        } else {
            painted(repeat_char(bar_char(), c.text@.len()), c.fg.spec_rgb(), c.bg.spec_rgb())
        }
    }
}

/// The bar drawn under a double-height line, framed, with a newline.
pub open spec fn underline_out(l: Line) -> Seq<char> {
    bar_cells(l.cells@) + frame_cell() + seq!['\n']
}

/// A line is blank when no cell is a mosaic and every character is whitespace.
pub open spec fn blank_line(l: Line) -> bool {
    forall|i: int|
        0 <= i < l.cells@.len() ==> (#[trigger] l.cells@[i]).mosaic_url is None && !has_ink(
            l.cells@[i],
        )
}

/// The colored render of lines `i..`: each line once; with color on, the
/// blank row below a double-height line is replaced by its underline.
pub open spec fn colored_from(lines: Seq<Line>, color: bool, cache: Map<Seq<char>, u8>, i: int) -> Seq<char>
    decreases lines.len() - i,
{
    if i < 0 || i >= lines.len() {
        Seq::empty()
    } else {
        let l = lines[i];
        if color && l.double_height && i + 1 < lines.len() && blank_line(lines[i + 1]) {
            line_out(l, color, cache) + underline_out(l) + colored_from(lines, color, cache, i + 2)
        } else {
            line_out(l, color, cache) + colored_from(lines, color, cache, i + 1)
        }
    }
}

/// The colored render of a page's lines.
pub open spec fn spec_render_colored(lines: Seq<Line>, color: bool, cache: Map<Seq<char>, u8>) -> Seq<char> {
    colored_from(lines, color, cache, 0)
}

/// Write the plain page text, followed by a newline.
pub fn render_text(text: &str, out: &mut String)
    ensures
        final(out)@ == old(out)@ + text@ + seq!['\n'],
{
    push_str(out, text);
    push_char(out, '\n');
}

/// Whether a cell's text holds a non-whitespace character.
fn cell_has_ink(cell: &Cell) -> (r: bool)
    ensures
        r == has_ink(*cell),
{
    let cs = chars_of(cell.text.as_str());
    let mut k: usize = 0;
    while k < cs.len()
        invariant
            k <= cs@.len(),
            cs@ == cell.text@,
            forall|j: int| 0 <= j < k ==> is_space(#[trigger] cs@[j]),
        decreases cs.len() - k,
    {
        if !char_is_space(cs[k]) {
            return true;
        }
        k = k + 1;
    }
    false
}

/// Whether a line is blank: no mosaic, nothing but whitespace.
pub fn is_blank_line(line: &Line) -> (r: bool)
    ensures
        r == blank_line(*line),
{
    let mut i: usize = 0;
    while i < line.cells.len()
        invariant
            i <= line.cells@.len(),
            forall|j: int|
                0 <= j < i ==> (#[trigger] line.cells@[j]).mosaic_url is None && !has_ink(
                    line.cells@[j],
                ),
        decreases line.cells.len() - i,
    {
        let c = &line.cells[i];
        if c.is_mosaic() || cell_has_ink(c) {
            return false;
        }
        i = i + 1;
    }
    true
}

/// The display text of a cell.
fn display_text(cell: &Cell, cache: &PatternCache) -> (r: String)
    ensures
        r@ == cell_display(*cell, cache@),
{
    match &cell.mosaic_url {
        Some(url) => match cache.get(url.as_str()) {
            Some(p) => {
                let mut s = String::new();
                push_char(&mut s, pattern_to_glyph(p));
                s
            },
            None => {
                let n = chars_of(cell.text.as_str()).len();
                let mut s = String::new();
                push_repeat(&mut s, ' ', if n > 1 { n } else { 1 });
                s
            },
        },
        None => cell.text.clone(),
    }
}

/// Write one line: its cells, the frame when `color` is on, a newline.
pub(crate) fn write_line(line: &Line, color: bool, cache: &PatternCache, out: &mut String)
    ensures
        final(out)@ == old(out)@ + line_out(*line, color, cache@),
{
    let mut i: usize = 0;
    while i < line.cells.len()
        invariant
            i <= line.cells@.len(),
            out@ == old(out)@ + cells_out(line.cells@.take(i as int), color, cache@),
        decreases line.cells.len() - i,
    {
        assert(line.cells@.take(i as int + 1).drop_last() == line.cells@.take(i as int));
        let cell = &line.cells[i];
        let text = display_text(cell, cache);
        if color {
            let styled = paint(text.as_str(), cell.fg.rgb(), cell.bg.rgb());
            push_str(out, styled.as_str());
        } else {
            push_str(out, text.as_str());
        }
        i = i + 1;
    }
    assert(line.cells@.take(line.cells.len() as int) == line.cells@);
    if color {
        push_str(out, "\x1b[48;2;0;0;0m \x1b[0m");
    }
    push_char(out, '\n');
}

/// Write the bar that stands in for the blank row under a double-height
/// line: upper half blocks under each cell in its own colors, framed.
#[verifier::spinoff_prover]
fn write_dh_underline(line: &Line, out: &mut String)
    ensures
        final(out)@ == old(out)@ + underline_out(*line),
{
    let mut i: usize = 0;
    while i < line.cells.len()
        invariant
            i <= line.cells@.len(),
            out@ == old(out)@ + bar_cells(line.cells@.take(i as int)),
        decreases line.cells.len() - i,
    {
        assert(line.cells@.take(i as int + 1).drop_last() == line.cells@.take(i as int));
        let cell = &line.cells[i];
        let width = chars_of(cell.text.as_str()).len();
        if width > 0 {
            let mut bar = String::new();
            push_repeat(&mut bar, '\u{2580}', width);
            let styled = paint(bar.as_str(), cell.fg.rgb(), cell.bg.rgb());
            push_str(out, styled.as_str());
        }
        i = i + 1;
    }
    assert(line.cells@.take(line.cells.len() as int) == line.cells@);
    push_str(out, "\x1b[48;2;0;0;0m \x1b[0m");
    push_char(out, '\n');
}

/// Render the colored teletext line stream. Each line is written once; with
/// `color` on, every cell is drawn in its teletext colors, rows end in a
/// black frame cell, and the blank row directly below a double-height line
/// is replaced by a bar of upper half blocks in each cell's colors. A mosaic cell is drawn
/// as its glyph when `cache` knows its pattern, else as blanks.
#[verifier::spinoff_prover]
pub fn render_colored(lines: &[Line], color: bool, cache: &PatternCache, out: &mut String)
    ensures
        final(out)@ == old(out)@ + spec_render_colored(lines@, color, cache@),
{
    let mut i: usize = 0;
    while i < lines.len()
        invariant
            i <= lines@.len(),
            out@ + colored_from(lines@, color, cache@, i as int) == old(out)@
                + colored_from(lines@, color, cache@, 0),
        decreases lines.len() - i,
    {
        let ghost before = out@;
        let line = &lines[i];
        write_line(line, color, cache, out);
        if color && line.double_height && i + 1 < lines.len() && is_blank_line(&lines[i + 1]) {
            write_dh_underline(line, out);
            assert(out@ + colored_from(lines@, color, cache@, i + 2) == before + colored_from(
                lines@,
                color,
                cache@,
                i as int,
            ));
            i = i + 2;
        } else {
            assert(out@ + colored_from(lines@, color, cache@, i + 1) == before + colored_from(
                lines@,
                color,
                cache@,
                i as int,
            ));
            i = i + 1;
        }
    }
    assert(colored_from(lines@, color, cache@, i as int) == Seq::<char>::empty());
}


// ---------------------------------------------------------------------------
// Image output
// ---------------------------------------------------------------------------

/// The graphics protocol a terminal offers.
#[derive(Debug, Clone, Copy, PartialEq, Eq, Structural)]
pub enum DetectedProtocol {
    Kitty,
    Iterm,
    Halfblocks,
}

impl DetectedProtocol {
    pub open spec fn spec_name(self) -> Seq<char> {
        match self {
            DetectedProtocol::Kitty => "kitty"@,
            DetectedProtocol::Iterm => "iterm"@,
            DetectedProtocol::Halfblocks => "halfblocks"@,
        }
    }

    /// The protocol's name, as `--debug-protocol` reports it.
    pub fn name(&self) -> (r: String)
        ensures
            r@ == self.spec_name(),
    {
        let mut s = String::new();
        match self {
            DetectedProtocol::Kitty => push_str(&mut s, "kitty"),
            DetectedProtocol::Iterm => push_str(&mut s, "iterm"),
            DetectedProtocol::Halfblocks => push_str(&mut s, "halfblocks"),
        }
        s
    }
}

/// How page images are to be drawn.
#[derive(Debug, Clone, Copy)]
pub struct RenderOptions {
    pub mode: Mode,
    pub size: Size,
    pub debug_protocol: bool,
}

/// The protocol a terminal offers, from what it answers: Kitty graphics
/// when supported (locally or remotely), else iTerm2 inline images, else
/// half blocks.
pub fn protocol_from_support(kitty: bool, iterm: bool) -> (r: DetectedProtocol)
    ensures
        r == (if kitty {
            DetectedProtocol::Kitty
        } else if iterm {
            DetectedProtocol::Iterm
        } else {
            DetectedProtocol::Halfblocks
        }),
{
    if kitty {
        DetectedProtocol::Kitty
    } else if iterm {
        DetectedProtocol::Iterm
    } else {
        DetectedProtocol::Halfblocks
    }
}

/// The image printer's settings for one render: which protocols it may
/// use, how many cells wide to draw, and the protocol that results.
#[derive(Debug, Clone, Copy, PartialEq, Eq, Structural)]
pub struct ImagePlan {
    pub use_kitty: bool,
    pub use_iterm: bool,
    pub width: u32,
    pub protocol: DetectedProtocol,
}

pub open spec fn spec_image_plan(mode: Mode, detected: Option<DetectedProtocol>, width: u32) -> ImagePlan {
    match mode {
        Mode::Kitty => ImagePlan {
            use_kitty: true,
            use_iterm: false,
            width,
            protocol: DetectedProtocol::Kitty,
        },
        Mode::Iterm => ImagePlan {
            use_kitty: false,
            use_iterm: true,
            width,
            protocol: DetectedProtocol::Iterm,
        },
        Mode::Blocks => ImagePlan {
            use_kitty: false,
            use_iterm: false,
            width,
            protocol: DetectedProtocol::Halfblocks,
        },
        _ => {
            let p = detected->0;
            let native = p != DetectedProtocol::Halfblocks;
            ImagePlan { use_kitty: native, use_iterm: native, width, protocol: p }
        },
    }
}

/// How an image render is planned: the width is always the one asked for;
/// a forced mode allows exactly its own protocol (none for blocks); `Auto`
/// reports the detected protocol and allows the native protocols exactly
/// when one was detected, half blocks otherwise.
pub proof fn law_image_plan(mode: Mode, detected: Option<DetectedProtocol>, width: u32)
    requires
        mode != Mode::Teletext,
        mode == Mode::Auto ==> detected is Some,
    ensures
        ({
            let r = spec_image_plan(mode, detected, width);
            &&& r.width == width
            &&& mode == Mode::Kitty ==> r.use_kitty && !r.use_iterm && r.protocol == DetectedProtocol::Kitty
            &&& mode == Mode::Iterm ==> !r.use_kitty && r.use_iterm && r.protocol == DetectedProtocol::Iterm
            &&& mode == Mode::Blocks ==> !r.use_kitty && !r.use_iterm && r.protocol
                == DetectedProtocol::Halfblocks
            &&& mode == Mode::Auto ==> {
                let p = detected->0;
                &&& r.protocol == p
                &&& r.use_kitty == (p != DetectedProtocol::Halfblocks)
                &&& r.use_iterm == (p != DetectedProtocol::Halfblocks)
            }
            &&& (r.use_kitty || r.use_iterm) <==> r.protocol != DetectedProtocol::Halfblocks
        }),
{
}

/// Plan an image render: a forced mode uses exactly its protocol; `Auto`
/// follows the detected protocol, leaving the printer free to pick a native
/// protocol unless only half blocks are available.
pub fn image_plan(mode: Mode, detected: Option<DetectedProtocol>, width: u32) -> (r: ImagePlan)
    requires
        mode != Mode::Teletext,
        mode == Mode::Auto ==> detected is Some,
    ensures
        r == spec_image_plan(mode, detected, width),
{
    match mode {
        Mode::Kitty => ImagePlan {
            use_kitty: true,
            use_iterm: false,
            width,
            protocol: DetectedProtocol::Kitty,
        },
        Mode::Iterm => ImagePlan {
            use_kitty: false,
            use_iterm: true,
            width,
            protocol: DetectedProtocol::Iterm,
        },
        Mode::Blocks => ImagePlan {
            use_kitty: false,
            use_iterm: false,
            width,
            protocol: DetectedProtocol::Halfblocks,
        },
        _ => {
            let p = match detected {
                Some(p) => p,
                None => DetectedProtocol::Halfblocks,
            };
            let native = match p {
                DetectedProtocol::Halfblocks => false,
                _ => true,
            };
            ImagePlan { use_kitty: native, use_iterm: native, width, protocol: p }
        },
    }
}

pub open spec fn spec_default_mode(stdout_tty: bool, detected: DetectedProtocol, term_program: Option<Seq<char>>) -> Mode {
    if !stdout_tty {
        Mode::Teletext
    } else {
        match detected {
            DetectedProtocol::Kitty => Mode::Auto,
            DetectedProtocol::Iterm => match term_program {
                Some(t) => if find_from(t, "iTerm"@, 0) is Some {
                    Mode::Teletext
                } else {
                    Mode::Auto
                },
                None => Mode::Auto,
            },
            DetectedProtocol::Halfblocks => Mode::Teletext,
        }
    }
}

/// The default rendering mode for a terminal: image rendering where a
/// high-quality graphics protocol is available (iTerm.app itself excepted,
/// as its `TERM_PROGRAM` tells), teletext everywhere else and whenever the
/// output is not a terminal.
pub fn default_mode(stdout_tty: bool, detected: DetectedProtocol, term_program: Option<&str>) -> (r: Mode)
    ensures
        r == spec_default_mode(
            stdout_tty,
            detected,
            match term_program {
                Some(t) => Some(t@),
                None => None,
            },
        ),
{
    if !stdout_tty {
        return Mode::Teletext;
    }
    match detected {
        DetectedProtocol::Kitty => Mode::Auto,
        DetectedProtocol::Iterm => match term_program {
            Some(t) => {
                let cs = chars_of(t);
                let pat = chars_of("iTerm");
                if find_chars(cs.as_slice(), pat.as_slice(), 0).is_some() {
                    Mode::Teletext
                } else {
                    Mode::Auto
                }
            },
            None => Mode::Auto,
        },
        DetectedProtocol::Halfblocks => Mode::Teletext,
    }
}

pub open spec fn spec_terminal_cols(cols: u16, columns_env: Option<Seq<char>>) -> u16 {
    if cols != 0 {
        cols
    } else {
        match columns_env {
            Some(t) => match crate::cli::spec_parse_u16(t) {
                Some(n) => n,
                None => 80,
            },
            None => 80,
        }
    }
}

/// The terminal's width in cells: what the terminal reports, else the
/// `COLUMNS` variable when it holds a number, else 80.
pub fn terminal_cols(cols: u16, columns_env: Option<&str>) -> (r: u16)
    ensures
        r == spec_terminal_cols(
            cols,
            match columns_env {
                Some(t) => Some(t@),
                None => None,
            },
        ),
{
    if cols != 0 {
        return cols;
    }
    match columns_env {
        Some(t) => match crate::cli::parse_u16(t) {
            Some(n) => n,
            None => 80,
        },
        None => 80,
    }
}

/// Width in source pixels of the black frame added on the right of each
/// subpage image: about one teletext cell once the image is scaled down.
pub const RIGHT_FRAME_PX: u32 = 16;

/// Rows `0..k` of an RGB image `w` pixels wide, each followed by `pad`
/// black pixels.
pub open spec fn framed_rows(data: Seq<u8>, w: nat, pad: nat, k: nat) -> Seq<u8>
    decreases k,
{
    if k == 0 {
        Seq::empty()
    } else {
        framed_rows(data, w, pad, (k - 1) as nat) + data.subrange((k - 1) * w * 3, (k * w * 3) as int)
            + Seq::new(pad * 3, |i: int| 0u8)
    }
}

proof fn lemma_framed_rows_len(data: Seq<u8>, w: nat, pad: nat, k: nat)
    requires
        k * w * 3 <= data.len(),
    ensures
        framed_rows(data, w, pad, k).len() == k * (w + pad) * 3,
    decreases k,
{
    if k > 0 {
        assert(0 <= (k - 1) * w * 3 <= k * w * 3) by (nonlinear_arith)
            requires
                k > 0,
        ;
        lemma_framed_rows_len(data, w, pad, (k - 1) as nat);
        assert((k - 1) * (w + pad) * 3 + (k * w * 3 - (k - 1) * w * 3) + pad * 3 == k * (w + pad)
            * 3) by (nonlinear_arith)
            requires
                k > 0,
        ;
        let prev = framed_rows(data, w, pad, (k - 1) as nat);
        let row = data.subrange((k - 1) * w * 3, (k * w * 3) as int);
        assert(row.len() == k * w * 3 - (k - 1) * w * 3);
        assert(framed_rows(data, w, pad, k) == prev + row + Seq::new(pad * 3, |i: int| 0u8));
    } else {
        assert(k * (w + pad) * 3 == 0) by (nonlinear_arith)
            requires
                k == 0,
        ;
    }
}

proof fn lemma_frame_row_bounds(w: int, h: int, pad: int, y: int)
    requires
        0 <= w,
        0 <= pad,
        0 <= y < h,
    ensures
        0 <= y * w * 3,
        y * (w * 3) == y * w * 3,
        y * w * 3 + w * 3 == (y + 1) * w * 3,
        (y + 1) * w * 3 <= w * h * 3,
        w * h * 3 <= (w + pad) * h * 3,
        pad * 3 <= (w + pad) * h * 3,
        w * 3 <= (w + pad) * h * 3,
{
    assert(0 <= y * w * 3) by (nonlinear_arith)
        requires
            0 <= w,
            0 <= y,
    ;
    assert(y * (w * 3) == y * w * 3) by (nonlinear_arith);
    assert(y * w * 3 + w * 3 == (y + 1) * w * 3) by (nonlinear_arith);
    assert((y + 1) * w * 3 <= w * h * 3) by (nonlinear_arith)
        requires
            0 <= w,
            0 <= y < h,
    ;
    assert(w * h * 3 <= (w + pad) * h * 3) by (nonlinear_arith)
        requires
            0 <= w,
            0 <= pad,
            0 < h,
    ;
    assert(pad * 3 <= (w + pad) * h * 3) by (nonlinear_arith)
        requires
            0 <= w,
            0 <= pad,
            1 <= h,
    ;
    assert(w * 3 <= (w + pad) * h * 3) by (nonlinear_arith)
        requires
            0 <= w,
            0 <= pad,
            1 <= h,
    ;
}

/// Pad the right side of an image with `pad_px` columns of black pixels.
#[verifier::spinoff_prover]
pub fn add_right_frame(img: &PageImage, pad_px: u32) -> (r: PageImage)
    requires
        img.wf(),
        img.width + pad_px <= u32::MAX,
        (img.width + pad_px) * img.height * 3 <= usize::MAX,
    ensures
        r.width == img.width + pad_px,
        r.height == img.height,
        r.data@ == framed_rows(img.data@, img.width as nat, pad_px as nat, img.height as nat),
        r.wf(),
{
    let w = img.width as usize;
    let h = img.height as usize;
    let pad = pad_px as usize;
    let mut data: Vec<u8> = Vec::new();
    let mut y: usize = 0;
    while y < h
        invariant
            y <= h,
            w == img.width,
            h == img.height,
            pad == pad_px,
            img.data@.len() >= w * h * 3,
            (w + pad) * h * 3 <= usize::MAX,
            data@ == framed_rows(img.data@, w as nat, pad as nat, y as nat),
        decreases h - y,
    {
        proof {
            lemma_frame_row_bounds(w as int, h as int, pad as int, y as int);
        }
        let row_bytes: usize = w * 3;
        let start: usize = y * row_bytes;
        let end: usize = start + row_bytes;
        let ghost before = data@;
        let mut i: usize = start;
        while i < end
            invariant
                start <= i <= end,
                end <= img.data@.len(),
                data@ == before + img.data@.subrange(start as int, i as int),
            decreases end - i,
        {
            assert(img.data@.subrange(start as int, i + 1) == img.data@.subrange(
                start as int,
                i as int,
            ).push(img.data@[i as int]));
            data.push(img.data[i]);
            i = i + 1;
        }
        let ghost mid = data@;
        let fill: usize = pad * 3;
        let mut j: usize = 0;
        while j < fill
            invariant
                j <= fill,
                data@ == mid + Seq::new(j as nat, |k: int| 0u8),
            decreases fill - j,
        {
            assert(Seq::new((j + 1) as nat, |k: int| 0u8) == Seq::new(j as nat, |k: int| 0u8).push(
                0u8,
            ));
            data.push(0);
            j = j + 1;
        }
        assert(start as int == y * w * 3 && end as int == (y + 1) * w * 3);
        assert(data@ == framed_rows(img.data@, w as nat, pad as nat, (y + 1) as nat));
        y = y + 1;
    }
    proof {
        lemma_framed_rows_len(img.data@, w as nat, pad as nat, h as nat);
        assert(h * (w + pad) * 3 == (w + pad) * h * 3) by (nonlinear_arith);
    }
    PageImage { width: img.width + pad_px, height: img.height, data }
}


/// Lines `i..` written without colors: each line's cells, then a newline.
pub open spec fn flat_from(lines: Seq<Line>, cache: Map<Seq<char>, u8>, i: int) -> Seq<char>
    decreases lines.len() - i,
{
    if i < 0 || i >= lines.len() {
        Seq::empty()
    } else {
        cells_out(lines[i].cells@, false, cache) + seq!['\n'] + flat_from(lines, cache, i + 1)
    }
}

/// Without colors the render is flat text: every line exactly once, in
/// order, with no escape sequence, no frame and no double-height bar.
pub proof fn law_no_color_is_flat(lines: Seq<Line>, cache: Map<Seq<char>, u8>, i: int)
    ensures
        colored_from(lines, false, cache, i) == flat_from(lines, cache, i),
    decreases lines.len() - i,
{
    if 0 <= i < lines.len() {
        law_no_color_is_flat(lines, cache, i + 1);
        assert(line_out(lines[i], false, cache) == cells_out(lines[i].cells@, false, cache) + seq![
            '\n',
        ]);
    }
}

/// The number of newlines in `s`.
pub open spec fn newline_count(s: Seq<char>) -> nat
    decreases s.len(),
{
    if s.len() == 0 {
        0
    } else {
        newline_count(s.drop_last()) + if s.last() == '\n' {
            1nat
        } else {
            0nat
        }
    }
}

proof fn lemma_newline_count_add(a: Seq<char>, b: Seq<char>)
    ensures
        newline_count(a + b) == newline_count(a) + newline_count(b),
    decreases b.len(),
{
    if b.len() > 0 {
        assert((a + b).drop_last() == a + b.drop_last());
        lemma_newline_count_add(a, b.drop_last());
    } else {
        assert(a + b == a);
    }
}

proof fn lemma_newline_count_none(s: Seq<char>)
    requires
        forall|k: int| 0 <= k < s.len() ==> s[k] != '\n',
    ensures
        newline_count(s) == 0,
    decreases s.len(),
{
    if s.len() > 0 {
        lemma_newline_count_none(s.drop_last());
    }
}

proof fn lemma_dec_no_newline(n: nat)
    ensures
        newline_count(crate::textutil::dec(n)) == 0,
    decreases n,
{
    let d = crate::textutil::dec(n);
    if n < 10 {
        lemma_newline_count_none(d);
    } else {
        lemma_dec_no_newline(n / 10);
        assert(d.drop_last() == crate::textutil::dec(n / 10));
    }
}

proof fn lemma_painted_newlines(text: Seq<char>, fg: (u8, u8, u8), bg: (u8, u8, u8))
    ensures
        newline_count(painted(text, fg, bg)) == newline_count(text),
{
    reveal_strlit("\x1b[38;2;");
    reveal_strlit("\x1b[48;2;");
    reveal_strlit(";");
    reveal_strlit("m");
    reveal_strlit("\x1b[39m");
    reveal_strlit("\x1b[49m");
    lemma_newline_count_none("\x1b[38;2;"@);
    lemma_newline_count_none("\x1b[48;2;"@);
    lemma_newline_count_none(";"@);
    lemma_newline_count_none("m"@);
    lemma_newline_count_none("\x1b[39m"@);
    lemma_newline_count_none("\x1b[49m"@);
    lemma_dec_no_newline(fg.0 as nat);
    lemma_dec_no_newline(fg.1 as nat);
    lemma_dec_no_newline(fg.2 as nat);
    lemma_dec_no_newline(bg.0 as nat);
    lemma_dec_no_newline(bg.1 as nat);
    lemma_dec_no_newline(bg.2 as nat);
    let fo = crate::ansi::fg_open(fg);
    let bo = crate::ansi::bg_open(bg);
    lemma_newline_count_add("\x1b[38;2;"@, crate::textutil::dec(fg.0 as nat));
    lemma_newline_count_add("\x1b[38;2;"@ + crate::textutil::dec(fg.0 as nat), ";"@);
    lemma_newline_count_add("\x1b[38;2;"@ + crate::textutil::dec(fg.0 as nat) + ";"@, crate::textutil::dec(fg.1 as nat));
    lemma_newline_count_add("\x1b[38;2;"@ + crate::textutil::dec(fg.0 as nat) + ";"@ + crate::textutil::dec(fg.1 as nat), ";"@);
    lemma_newline_count_add("\x1b[38;2;"@ + crate::textutil::dec(fg.0 as nat) + ";"@ + crate::textutil::dec(fg.1 as nat) + ";"@, crate::textutil::dec(fg.2 as nat));
    lemma_newline_count_add("\x1b[38;2;"@ + crate::textutil::dec(fg.0 as nat) + ";"@ + crate::textutil::dec(fg.1 as nat) + ";"@ + crate::textutil::dec(fg.2 as nat), "m"@);
    lemma_newline_count_add("\x1b[48;2;"@, crate::textutil::dec(bg.0 as nat));
    lemma_newline_count_add("\x1b[48;2;"@ + crate::textutil::dec(bg.0 as nat), ";"@);
    lemma_newline_count_add("\x1b[48;2;"@ + crate::textutil::dec(bg.0 as nat) + ";"@, crate::textutil::dec(bg.1 as nat));
    lemma_newline_count_add("\x1b[48;2;"@ + crate::textutil::dec(bg.0 as nat) + ";"@ + crate::textutil::dec(bg.1 as nat), ";"@);
    lemma_newline_count_add("\x1b[48;2;"@ + crate::textutil::dec(bg.0 as nat) + ";"@ + crate::textutil::dec(bg.1 as nat) + ";"@, crate::textutil::dec(bg.2 as nat));
    lemma_newline_count_add("\x1b[48;2;"@ + crate::textutil::dec(bg.0 as nat) + ";"@ + crate::textutil::dec(bg.1 as nat) + ";"@ + crate::textutil::dec(bg.2 as nat), "m"@);
    lemma_newline_count_add(bo, fo);
    lemma_newline_count_add(bo + fo, text);
    lemma_newline_count_add(bo + fo + text, "\x1b[39m"@);
    lemma_newline_count_add(bo + fo + text + "\x1b[39m"@, "\x1b[49m"@);
}

/// No cell of `lines` holds a newline in its text.
pub open spec fn texts_without_newline(lines: Seq<Line>) -> bool {
    forall|r: int, c: int, k: int|
        0 <= r < lines.len() && 0 <= c < lines[r].cells@.len() && 0 <= k < lines[r].cells@[c].text@.len()
            ==> #[trigger] lines[r].cells@[c].text@[k] != '\n'
}

proof fn lemma_cells_out_newlines(cells: Seq<Cell>, color: bool, cache: Map<Seq<char>, u8>)
    requires
        forall|c: int, k: int|
            0 <= c < cells.len() && 0 <= k < cells[c].text@.len() ==> #[trigger] cells[c].text@[k] != '\n',
    ensures
        newline_count(cells_out(cells, color, cache)) == 0,
        newline_count(bar_cells(cells)) == 0,
    decreases cells.len(),
{
    if cells.len() > 0 {
        let c = cells.last();
        assert forall|a: int, k: int|
            0 <= a < cells.drop_last().len() && 0 <= k < cells.drop_last()[a].text@.len() implies #[trigger] cells.drop_last()[a].text@[k] != '\n' by {
            assert(cells.drop_last()[a] == cells[a]);
        }
        lemma_cells_out_newlines(cells.drop_last(), color, cache);
        let d = cell_display(c, cache);
        assert forall|k: int| 0 <= k < d.len() implies d[k] != '\n' by {
            if c.mosaic_url is None {
                assert(cells[cells.len() - 1].text@[k] != '\n');
            }
        }
        lemma_newline_count_none(d);
        lemma_painted_newlines(d, c.fg.spec_rgb(), c.bg.spec_rgb());
        lemma_newline_count_add(cells_out(cells.drop_last(), color, cache), cell_out(c, color, cache));
        let bar = repeat_char(bar_char(), c.text@.len());
        lemma_newline_count_none(bar);
        lemma_painted_newlines(bar, c.fg.spec_rgb(), c.bg.spec_rgb());
        let tail = if c.text@.len() == 0 {
            Seq::empty()
        } else {
            painted(bar, c.fg.spec_rgb(), c.bg.spec_rgb())
        };
        lemma_newline_count_add(bar_cells(cells.drop_last()), tail);
    }
}

proof fn lemma_colored_from_newlines(lines: Seq<Line>, color: bool, cache: Map<Seq<char>, u8>, i: int)
    requires
        0 <= i <= lines.len(),
        texts_without_newline(lines),
    ensures
        newline_count(colored_from(lines, color, cache, i)) == lines.len() - i,
    decreases lines.len() - i,
{
    if i < lines.len() {
        let l = lines[i];
        assert forall|c: int, k: int|
            0 <= c < l.cells@.len() && 0 <= k < l.cells@[c].text@.len() implies #[trigger] l.cells@[c].text@[k] != '\n' by {
            assert(lines[i].cells@[c].text@[k] != '\n');
        }
        lemma_cells_out_newlines(l.cells@, color, cache);
        reveal_strlit("\x1b[48;2;0;0;0m \x1b[0m");
        lemma_newline_count_none(frame_cell());
        let fr = if color {
            frame_cell()
        } else {
            Seq::empty()
        };
        lemma_newline_count_add(cells_out(l.cells@, color, cache), fr);
        lemma_newline_count_add(cells_out(l.cells@, color, cache) + fr, seq!['\n']);
        assert(newline_count(seq!['\n']) == 1) by {
            let one = seq!['\n'];
            assert(one.len() == 1 && one.last() == '\n');
            assert(one.drop_last() =~= Seq::<char>::empty());
            assert(newline_count(Seq::<char>::empty()) == 0);
        }
        assert(newline_count(line_out(l, color, cache)) == 1);
        lemma_newline_count_add(bar_cells(l.cells@), frame_cell());
        lemma_newline_count_add(bar_cells(l.cells@) + frame_cell(), seq!['\n']);
        assert(newline_count(underline_out(l)) == 1);
        if color && l.double_height && i + 1 < lines.len() && blank_line(lines[i + 1]) {
            lemma_colored_from_newlines(lines, color, cache, i + 2);
            lemma_newline_count_add(line_out(l, color, cache), underline_out(l));
            lemma_newline_count_add(line_out(l, color, cache) + underline_out(l), colored_from(lines, color, cache, i + 2));
        } else {
            lemma_colored_from_newlines(lines, color, cache, i + 1);
            lemma_newline_count_add(line_out(l, color, cache), colored_from(lines, color, cache, i + 1));
        }
    }
}

/// The colored render writes one row per line of the page: as many
/// newlines as lines, the double-height bar taking the place of the blank
/// line below it. (Cell texts hold no newline.)
pub proof fn law_one_row_per_line(lines: Seq<Line>, color: bool, cache: Map<Seq<char>, u8>)
    requires
        texts_without_newline(lines),
    ensures
        newline_count(spec_render_colored(lines, color, cache)) == lines.len(),
{
    lemma_colored_from_newlines(lines, color, cache, 0);
}

/// The default rendering mode: teletext whenever the output is not a
/// terminal; on a terminal, image rendering with Kitty graphics, teletext
/// with only half blocks, and with the iTerm2 protocol image rendering
/// except in iTerm.app itself (a `TERM_PROGRAM` holding "iTerm").
pub proof fn law_default_mode(tty: bool, detected: DetectedProtocol, term_program: Option<Seq<char>>)
    ensures
        !tty ==> spec_default_mode(tty, detected, term_program) == Mode::Teletext,
        tty && detected == DetectedProtocol::Kitty ==> spec_default_mode(tty, detected, term_program)
            == Mode::Auto,
        tty && detected == DetectedProtocol::Halfblocks ==> spec_default_mode(tty, detected, term_program)
            == Mode::Teletext,
        tty && detected == DetectedProtocol::Iterm ==> (spec_default_mode(tty, detected, term_program)
            == Mode::Teletext <==> (term_program matches Some(t) && exists|j: int|
            0 <= j && j + 5 <= t.len() && #[trigger] t.subrange(j, j + 5) == "iTerm"@)),
        spec_default_mode(tty, detected, term_program) == Mode::Auto || spec_default_mode(
            tty,
            detected,
            term_program,
        ) == Mode::Teletext,
{
    reveal_strlit("iTerm");
    if let Some(t) = term_program {
        crate::textutil::lemma_find_from_iff_occurs(t, "iTerm"@, 0);
    }
}

/// The terminal width: what the terminal reports when it reports one
/// (nonzero), else `COLUMNS` when it holds a number, else 80 columns.
pub proof fn law_terminal_cols(cols: u16, columns_env: Option<Seq<char>>)
    ensures
        cols != 0 ==> spec_terminal_cols(cols, columns_env) == cols,
        cols == 0 && columns_env is None ==> spec_terminal_cols(cols, columns_env) == 80,
        cols == 0 ==> (columns_env matches Some(t) ==> spec_terminal_cols(cols, columns_env) == (
        match crate::cli::spec_parse_u16(t) {
            Some(n) => n,
            None => 80u16,
        })),
{
}

/// How a cell is shown: a mosaic whose pattern is known shows its one
/// glyph, an unknown mosaic blanks as many columns as its text (at least
/// one), and any other cell shows its text.
pub proof fn law_cell_display(c: Cell, cache: Map<Seq<char>, u8>)
    ensures
        match c.mosaic_url {
            Some(u) => if cache.contains_key(u@) {
                cell_display(c, cache) == seq![glyph_char(cache[u@])]
            } else {
                &&& cell_display(c, cache).len() == (if c.text@.len() > 1 {
                    c.text@.len()
                } else {
                    1
                })
                &&& forall|k: int|
                    0 <= k < cell_display(c, cache).len() ==> #[trigger] cell_display(c, cache)[k] == ' '
            },
            None => true,
        },
        c.mosaic_url is None ==> cell_display(c, cache) == c.text@,
{
}

} // verus!
