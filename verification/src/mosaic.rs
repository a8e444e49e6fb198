//! Mosaic-glyph decoding for teletext block characters.
//!
//! texttv.nu encodes each unique 2×3 mosaic pattern as a tiny GIF hosted at
//! `https://l.texttv.nu/storage/chars/<hash>.gif`. Each unique URL is resolved
//! once: the six sub-cell centres are sampled, each classified as fg or bg by
//! squared Euclidean distance to the cell's two teletext colors, and the
//! result is packed into a 6-bit pattern, which maps to a Unicode sextant
//! ("Symbols for Legacy Computing", U+1FB00 .. U+1FB3B) or one of four
//! pre-existing block characters.

use vstd::prelude::*;

use crate::parse::{Cell, ColoredPage, Line, TtColor};
use crate::pixels::{decode_gif_rgb, gif_decoded, PageImage};
use crate::textutil::{chars_eq, chars_of, is_digit, char_is_digit, string_of};

verus! {

broadcast use vstd::string::group_string_axioms;

pub assume_specification[ core::char::from_u32 ](i: u32) -> (r: Option<char>)
    ensures
        r is Some <==> (i < 0xD800 || (0xE000 <= i && i <= 0x10FFFF)),
        r matches Some(c) ==> c as u32 == i && c == i as char,
;

// ---------------------------------------------------------------------------
// Pattern → glyph
// ---------------------------------------------------------------------------

/// Code point of the glyph for a sub-cell pattern. Bit 0 is the top-left
/// sub-cell, bit 1 top-right, then middle-left/right, bottom-left/right.
/// The sextant block counts up from U+1FB00 (pattern 1), skipping the three
/// patterns that already exist as block characters (21, 42, 63).
pub open spec fn glyph_code(p: u8) -> u32 {
    if p == 0 {
        0x20
    } else if p == 21 {
        0x258C
    } else if p == 42 {
        0x2590
    } else if p == 63 {
        0x2588
    } else {
        (0x1FB00 + (p - 1) - (if p > 21 {
            1int
        } else {
            0int
        }) - (if p > 42 {
            1int
        } else {
            0int
        })) as u32
    }
}

/// The glyph of a sub-cell pattern.
pub open spec fn glyph_char(p: u8) -> char {
    if p == 0 {
        ' '
    } else if p == 21 {
        '\u{258C}'
    } else if p == 42 {
        '\u{2590}'
    } else if p == 63 {
        '\u{2588}'
    } else {
        glyph_code(p) as char
    }
}

/// Map a sub-cell pattern to its Unicode glyph.
pub fn pattern_to_glyph(pattern: u8) -> (c: char)
    ensures
        c as u32 == glyph_code(pattern),
        c == glyph_char(pattern),
{
    match pattern {
        0 => ' ',
        21 => '\u{258C}',
        42 => '\u{2590}',
        63 => '\u{2588}',
        p => {
            let mut offset: u32 = p as u32 - 1;
            if p > 21 {
                offset = offset - 1;
            }
            if p > 42 {
                offset = offset - 1;
            }
            match core::char::from_u32(0x1FB00 + offset) {
                Some(c) => c,
                None => '?',
            }
        },
    }
}

/// The four patterns that are whole block characters: none set is a space,
/// the left column (bits 0, 2, 4) the left half block, the right column
/// (bits 1, 3, 5) the right half block, all set the full block.
pub proof fn law_block_glyphs()
    ensures
        glyph_code(0) == 0x20,
        glyph_code((1 + 4 + 16) as u8) == 0x258C,
        glyph_code((2 + 8 + 32) as u8) == 0x2590,
        glyph_code(63) == 0x2588,
{
}

/// Whether `p` is drawn with a sextant character: a 6-bit pattern other
/// than the four block characters.
pub open spec fn is_sextant(p: u8) -> bool {
    1 <= p <= 62 && p != 21 && p != 42
}

/// The sextant characters follow the patterns in order: a larger pattern
/// has a larger code point, so the sixty sextant patterns fill
/// U+1FB00 ..= U+1FB3B in pattern order, from pattern 1 at U+1FB00.
pub proof fn law_sextants_in_pattern_order(p: u8, q: u8)
    requires
        is_sextant(p),
        is_sextant(q),
    ensures
        p < q ==> glyph_code(p) < glyph_code(q),
        0x1FB00 <= glyph_code(p) <= 0x1FB3B,
        glyph_code(1) == 0x1FB00,
        glyph_code(62) == 0x1FB3B,
{
}

/// Distinct patterns map to distinct glyphs.
pub proof fn law_glyphs_distinct(p1: u8, p2: u8)
    requires
        p1 != p2,
    ensures
        glyph_code(p1) != glyph_code(p2),
{
}

/// Every 6-bit pattern other than the four block characters maps into the
/// sextant block U+1FB00 ..= U+1FB3B.
pub proof fn law_sextant_range(p: u8)
    requires
        p < 64,
        p != 0 && p != 21 && p != 42 && p != 63,
    ensures
        0x1FB00 <= glyph_code(p) <= 0x1FB3B,
{
}

// ---------------------------------------------------------------------------
// Pixel classification
// ---------------------------------------------------------------------------

/// Squared Euclidean distance between two RGB values.
pub open spec fn dist2(r: u8, g: u8, b: u8, t: (u8, u8, u8)) -> int {
    (r - t.0) * (r - t.0) + (g - t.1) * (g - t.1) + (b - t.2) * (b - t.2)
}

/// Whether `pixel` is strictly closer to `target` than to `other`.
pub open spec fn spec_closer(pixel: [u8; 3], target: (u8, u8, u8), other: (u8, u8, u8)) -> bool {
    dist2(pixel[0], pixel[1], pixel[2], target) < dist2(pixel[0], pixel[1], pixel[2], other)
}

fn d2(a: [u8; 3], b: (u8, u8, u8)) -> (r: u32)
    ensures
        r == dist2(a[0], a[1], a[2], b),
{
    let dr: i32 = a[0] as i32 - b.0 as i32;
    let dg: i32 = a[1] as i32 - b.1 as i32;
    let db: i32 = a[2] as i32 - b.2 as i32;
    assert(dr * dr <= 65025) by (nonlinear_arith)
        requires
            -255 <= dr <= 255,
    ;
    assert(dg * dg <= 65025) by (nonlinear_arith)
        requires
            -255 <= dg <= 255,
    ;
    assert(db * db <= 65025) by (nonlinear_arith)
        requires
            -255 <= db <= 255,
    ;
    assert(dr * dr >= 0 && dg * dg >= 0 && db * db >= 0) by (nonlinear_arith);
    (dr * dr + dg * dg + db * db) as u32
}

/// Whether `pixel` is strictly closer to `target` than to `other`.
pub fn is_closer_to(pixel: [u8; 3], target: (u8, u8, u8), other: (u8, u8, u8)) -> (r: bool)
    ensures
        r == spec_closer(pixel, target, other),
{
    d2(pixel, target) < d2(pixel, other)
}

/// Column sampled for sub-cell column `sx` (0 or 1) of an image `w` wide.
pub open spec fn sample_x(w: u32, sx: int) -> int {
    let c = (w * (2 * sx + 1)) / 4;
    if c < w - 1 {
        c
    } else {
        w - 1
    }
}

/// Row sampled for sub-cell row `sy` (0, 1 or 2) of an image `h` high.
pub open spec fn sample_y(h: u32, sy: int) -> int {
    let c = (h * (2 * sy + 1)) / 6;
    if c < h - 1 {
        c
    } else {
        h - 1
    }
}

/// The pixel at `(x, y)` of an RGB8 buffer `w` pixels wide.
pub open spec fn pixel_at(data: Seq<u8>, w: u32, x: int, y: int) -> [u8; 3] {
    let i = 3 * (y * w + x);
    [data[i], data[i + 1], data[i + 2]]
}

/// Whether sub-cell `k` (row `k / 2`, column `k % 2`) is foreground.
pub open spec fn sub_cell_set(w: u32, h: u32, data: Seq<u8>, k: int, fg: TtColor, bg: TtColor) -> bool {
    spec_closer(
        pixel_at(data, w, sample_x(w, k % 2), sample_y(h, k / 2)),
        fg.spec_rgb(),
        bg.spec_rgb(),
    )
}

/// 2 to the power `k`.
pub open spec fn bit_weight(k: nat) -> int
    decreases k,
{
    if k == 0 {
        1
    } else {
        2 * bit_weight((k - 1) as nat)
    }
}

/// The pattern formed by the first `n` sub-cells.
pub open spec fn pattern_prefix(w: u32, h: u32, data: Seq<u8>, fg: TtColor, bg: TtColor, n: nat) -> int
    decreases n,
{
    if n == 0 {
        0
    } else {
        pattern_prefix(w, h, data, fg, bg, (n - 1) as nat) + if sub_cell_set(
            w,
            h,
            data,
            n - 1,
            fg,
            bg,
        ) {
            bit_weight((n - 1) as nat)
        } else {
            0
        }
    }
}

/// The 6-bit pattern of an image.
pub open spec fn spec_pattern(w: u32, h: u32, data: Seq<u8>, fg: TtColor, bg: TtColor) -> u8 {
    pattern_prefix(w, h, data, fg, bg, 6) as u8
}

proof fn lemma_pattern_prefix_bound(w: u32, h: u32, data: Seq<u8>, fg: TtColor, bg: TtColor, n: nat)
    ensures
        0 <= pattern_prefix(w, h, data, fg, bg, n) < bit_weight(n),
    decreases n,
{
    if n > 0 {
        lemma_pattern_prefix_bound(w, h, data, fg, bg, (n - 1) as nat);
    }
}

proof fn lemma_pixel_index(w: u32, h: u32, x: int, y: int, len: int)
    requires
        0 <= x < w,
        0 <= y < h,
        len >= w * h * 3,
    ensures
        0 <= 3 * (y * w + x),
        3 * (y * w + x) + 2 < len,
{
    assert(y * w + x < w * h) by (nonlinear_arith)
        requires
            0 <= x < w,
            0 <= y < h,
    ;
    assert(0 <= y * w) by (nonlinear_arith)
        requires
            0 <= y,
            0 <= w,
    ;
}

/// Sample the six sub-cells of a decoded mosaic image and pack them into a pattern.
#[verifier::spinoff_prover]
pub fn pattern_from_pixels(img: &PageImage, fg: TtColor, bg: TtColor) -> (p: u8)
    requires
        img.wf(),
        img.width > 0,
        img.height > 0,
    ensures
        p == spec_pattern(img.width, img.height, img.data@, fg, bg),
        p < 64,
{
    let w = img.width;
    let h = img.height;
    let fg_rgb = fg.rgb();
    let bg_rgb = bg.rgb();
    let mut pattern: u8 = 0;
    let mut weight: u8 = 1;
    let mut k: u32 = 0;
    while k < 6
        invariant
            k <= 6,
            img.wf(),
            w == img.width,
            h == img.height,
            w > 0,
            h > 0,
            fg_rgb == fg.spec_rgb(),
            bg_rgb == bg.spec_rgb(),
            k < 6 ==> weight as int == bit_weight(k as nat),
            pattern as int == pattern_prefix(w, h, img.data@, fg, bg, k as nat),
        decreases 6 - k,
    {
        proof {
            lemma_pattern_prefix_bound(w, h, img.data@, fg, bg, k as nat);
            reveal_with_fuel(bit_weight, 7);
        }
        let sx: u64 = (k % 2) as u64;
        let sy: u64 = (k / 2) as u64;
        assert(w as u64 * (2 * sx + 1) <= 0xFFFF_FFFFu64 * 5) by (nonlinear_arith)
            requires
                sx <= 1,
                w <= 0xFFFF_FFFFu64,
        ;
        assert(h as u64 * (2 * sy + 1) <= 0xFFFF_FFFFu64 * 5) by (nonlinear_arith)
            requires
                sy <= 2,
                h <= 0xFFFF_FFFFu64,
        ;
        let cx0: u64 = (w as u64 * (2 * sx + 1)) / 4;
        let cy0: u64 = (h as u64 * (2 * sy + 1)) / 6;
        let cx: u64 = if cx0 < w as u64 - 1 {
            cx0
        } else {
            w as u64 - 1
        };
        let cy: u64 = if cy0 < h as u64 - 1 {
            cy0
        } else {
            h as u64 - 1
        };
        proof {
            lemma_pixel_index(w, h, cx as int, cy as int, img.data@.len() as int);
            assert(img.data@.len() == img.data.len());
            assert(0 <= cy * w <= cy * w + cx);
        }
        let i: usize = 3 * (cy as usize * w as usize + cx as usize);
        let px: [u8; 3] = [img.data[i], img.data[i + 1], img.data[i + 2]];
        assert(px == pixel_at(img.data@, w, cx as int, cy as int));
        if is_closer_to(px, fg_rgb, bg_rgb) {
            pattern = pattern + weight;
        }
        if k < 5 {
            weight = weight * 2;
        }
        k = k + 1;
    }
    proof {
        lemma_pattern_prefix_bound(w, h, img.data@, fg, bg, 6);
        reveal_with_fuel(bit_weight, 7);
    }
    pattern
}

proof fn lemma_bit_of_six(b0: int, b1: int, b2: int, b3: int, b4: int, b5: int, k: int)
    requires
        0 <= b0 <= 1,
        0 <= b1 <= 1,
        0 <= b2 <= 1,
        0 <= b3 <= 1,
        0 <= b4 <= 1,
        0 <= b5 <= 1,
        0 <= k < 6,
    ensures
        ((b0 + 2 * b1 + 4 * b2 + 8 * b3 + 16 * b4 + 32 * b5) / bit_weight(k as nat)) % 2 == (if k == 0 {
            b0
        } else if k == 1 {
            b1
        } else if k == 2 {
            b2
        } else if k == 3 {
            b3
        } else if k == 4 {
            b4
        } else {
            b5
        }),
{
    reveal_with_fuel(bit_weight, 7);
    let p = b0 + 2 * b1 + 4 * b2 + 8 * b3 + 16 * b4 + 32 * b5;
    if k == 0 {
        assert(p % 2 == b0);
    } else if k == 1 {
        assert((p / 2) % 2 == b1);
    } else if k == 2 {
        assert((p / 4) % 2 == b2);
    } else if k == 3 {
        assert((p / 8) % 2 == b3);
    } else if k == 4 {
        assert((p / 16) % 2 == b4);
    } else {
        assert((p / 32) % 2 == b5);
    }
}

/// How a mosaic image becomes a pattern: for sub-cell row `sy` (0 to 2) and
/// column `sx` (0 or 1), bit `2 * sy + sx` of the pattern is set exactly
/// when the pixel at column `w * (2 * sx + 1) / 4` and row
/// `h * (2 * sy + 1) / 6` is strictly closer to the foreground than to the
/// background; no other bit is set.
pub proof fn law_pattern_samples(w: u32, h: u32, data: Seq<u8>, fg: TtColor, bg: TtColor, sx: int, sy: int)
    requires
        w > 0,
        h > 0,
        0 <= sx < 2,
        0 <= sy < 3,
    ensures
        spec_pattern(w, h, data, fg, bg) < 64,
        bit_weight(0) == 1 && bit_weight(1) == 2 && bit_weight(2) == 4 && bit_weight(3) == 8 && bit_weight(4)
            == 16 && bit_weight(5) == 32,
        ({
            let x = (w * (2 * sx + 1)) / 4;
            let y = (h * (2 * sy + 1)) / 6;
            let i = 3 * (y * w + x);
            (spec_pattern(w, h, data, fg, bg) as int / bit_weight((2 * sy + sx) as nat)) % 2 == 1
                <==> spec_closer([data[i], data[i + 1], data[i + 2]], fg.spec_rgb(), bg.spec_rgb())
        }),
{
    reveal_with_fuel(bit_weight, 7);
    reveal_with_fuel(pattern_prefix, 7);
    lemma_pattern_prefix_bound(w, h, data, fg, bg, 6);
    let k = 2 * sy + sx;
    assert(k / 2 == sy && k % 2 == sx);
    assert((w * (2 * sx + 1)) / 4 <= w - 1) by (nonlinear_arith)
        requires
            w > 0,
            0 <= sx < 2,
    ;
    assert((h * (2 * sy + 1)) / 6 <= h - 1) by (nonlinear_arith)
        requires
            h > 0,
            0 <= sy < 3,
    ;
    assert(sample_x(w, sx) == (w * (2 * sx + 1)) / 4);
    assert(sample_y(h, sy) == (h * (2 * sy + 1)) / 6);
    let b0: int = if sub_cell_set(w, h, data, 0, fg, bg) { 1 } else { 0 };
    let b1: int = if sub_cell_set(w, h, data, 1, fg, bg) { 1 } else { 0 };
    let b2: int = if sub_cell_set(w, h, data, 2, fg, bg) { 1 } else { 0 };
    let b3: int = if sub_cell_set(w, h, data, 3, fg, bg) { 1 } else { 0 };
    let b4: int = if sub_cell_set(w, h, data, 4, fg, bg) { 1 } else { 0 };
    let b5: int = if sub_cell_set(w, h, data, 5, fg, bg) { 1 } else { 0 };
    assert(pattern_prefix(w, h, data, fg, bg, 6) == b0 + 2 * b1 + 4 * b2 + 8 * b3 + 16 * b4 + 32 * b5);
    assert(spec_pattern(w, h, data, fg, bg) == pattern_prefix(w, h, data, fg, bg, 6));
    lemma_bit_of_six(b0, b1, b2, b3, b4, b5, k);
}

/// A pixel is closer to one color than to another when its squared RGB
/// distance to it is strictly smaller; so a pixel of exactly one of two
/// different colors counts as that color, and no pixel counts as closer to
/// each of two colors than to the other.
pub proof fn law_closer_is_nearest(px: [u8; 3], a: (u8, u8, u8), b: (u8, u8, u8))
    ensures
        spec_closer(px, a, b) <==> (px[0] - a.0) * (px[0] - a.0) + (px[1] - a.1) * (px[1] - a.1) + (px[2]
            - a.2) * (px[2] - a.2) < (px[0] - b.0) * (px[0] - b.0) + (px[1] - b.1) * (px[1] - b.1) + (px[2]
            - b.2) * (px[2] - b.2),
        px[0] == a.0 && px[1] == a.1 && px[2] == a.2 && a != b ==> spec_closer(px, a, b),
        !(spec_closer(px, a, b) && spec_closer(px, b, a)),
        !spec_closer(px, a, a),
{
    if px[0] == a.0 && px[1] == a.1 && px[2] == a.2 && a != b {
        let d0 = px[0] - b.0;
        let d1 = px[1] - b.1;
        let d2 = px[2] - b.2;
        assert(d0 * d0 >= 0 && d1 * d1 >= 0 && d2 * d2 >= 0) by (nonlinear_arith);
        assert(d0 != 0 || d1 != 0 || d2 != 0);
        assert(d0 * d0 + d1 * d1 + d2 * d2 > 0) by (nonlinear_arith)
            requires
                d0 != 0 || d1 != 0 || d2 != 0,
        ;
    }
}

// ---------------------------------------------------------------------------
// Decoding a mosaic GIF
// ---------------------------------------------------------------------------

/// Why a mosaic could not be resolved.
#[derive(Debug, Clone, Copy, PartialEq, Eq, Structural)]
pub enum MosaicError {
    /// The glyph image could not be fetched.
    Fetch,
    /// The bytes are not a decodable GIF.
    Decode,
    /// The GIF has zero width or height.
    ZeroDimensions,
}

/// What decoding `bytes` gives, by the outcome of the GIF decoder.
pub open spec fn spec_decode_pattern(bytes: Seq<u8>, fg: TtColor, bg: TtColor) -> Result<u8, MosaicError> {
    match gif_decoded(bytes) {
        None => Err(MosaicError::Decode),
        Some((w, h, data)) => if w == 0 || h == 0 {
            Err(MosaicError::ZeroDimensions)
        } else {
            Ok(spec_pattern(w, h, data, fg, bg))
        },
    }
}

/// Decode a mosaic GIF and classify its six sub-cells against `fg` and `bg`.
pub fn decode_pattern(gif_bytes: &[u8], fg: TtColor, bg: TtColor) -> (r: Result<u8, MosaicError>)
    ensures
        r == spec_decode_pattern(gif_bytes@, fg, bg),
        r matches Ok(p) ==> p < 64,
{
    match decode_gif_rgb(gif_bytes) {
        Err(_) => Err(MosaicError::Decode),
        Ok(img) => {
            if img.width == 0 || img.height == 0 {
                Err(MosaicError::ZeroDimensions)
            } else {
                Ok(pattern_from_pixels(&img, fg, bg))
            }
        },
    }
}

// ---------------------------------------------------------------------------
// Pattern cache
// ---------------------------------------------------------------------------

/// The map that a list of (url, pattern) entries stands for: later entries
/// overwrite earlier ones.
pub open spec fn entries_map(s: Seq<(Vec<char>, u8)>) -> Map<Seq<char>, u8>
    decreases s.len(),
{
    if s.len() == 0 {
        Map::empty()
    } else {
        entries_map(s.drop_last()).insert(s.last().0@, s.last().1)
    }
}

/// Mosaic patterns resolved so far, keyed by glyph URL. The URL is
/// content-addressed by texttv.nu, so one URL always stands for one pattern.
pub struct PatternCache {
    entries: Vec<(Vec<char>, u8)>,
}

/// Every pattern in the map is a 6-bit pattern.
pub open spec fn six_bit(m: Map<Seq<char>, u8>) -> bool {
    forall|k: Seq<char>| m.contains_key(k) ==> m[k] < 64
}

proof fn lemma_entries_six_bit(s: Seq<(Vec<char>, u8)>)
    requires
        forall|j: int| 0 <= j < s.len() ==> (#[trigger] s[j]).1 < 64,
    ensures
        six_bit(entries_map(s)),
    decreases s.len(),
{
    if s.len() > 0 {
        lemma_entries_six_bit(s.drop_last());
    }
}

impl PatternCache {
    /// Only 6-bit patterns are ever recorded.
    #[verifier::type_invariant]
    closed spec fn holds_six_bit_patterns(self) -> bool {
        forall|j: int| 0 <= j < self.entries@.len() ==> (#[trigger] self.entries@[j]).1 < 64
    }
}

impl View for PatternCache {
    type V = Map<Seq<char>, u8>;

    closed spec fn view(&self) -> Map<Seq<char>, u8> {
        entries_map(self.entries@)
    }
}

proof fn lemma_entries_map_suffix_free(s: Seq<(Vec<char>, u8)>, i: int, k: Seq<char>)
    requires
        0 <= i <= s.len(),
        forall|j: int| i <= j < s.len() ==> s[j].0@ != k,
    ensures
        entries_map(s).contains_key(k) == entries_map(s.take(i)).contains_key(k),
        entries_map(s).contains_key(k) ==> entries_map(s)[k] == entries_map(s.take(i))[k],
    decreases s.len() - i,
{
    if i < s.len() {
        assert(s.drop_last().take(i) == s.take(i));
        lemma_entries_map_suffix_free(s.drop_last(), i, k);
    } else {
        assert(s.take(i) == s);
    }
}

impl PatternCache {
    /// An empty cache.
    pub fn new() -> (r: PatternCache)
        ensures
            r@ == Map::<Seq<char>, u8>::empty(),
            six_bit(r@),
    {
        PatternCache { entries: Vec::new() }
    }

    /// The pattern recorded for `url`, if any.
    pub fn get(&self, url: &str) -> (r: Option<u8>)
        ensures
            r == (if self@.contains_key(url@) {
                Some(self@[url@])
            } else {
                None
            }),
            six_bit(self@),
    {
        proof {
            use_type_invariant(self);
            lemma_entries_six_bit(self.entries@);
        }
        let key = chars_of(url);
        let mut i: usize = self.entries.len();
        while i > 0
            invariant
                i <= self.entries@.len(),
                key@ == url@,
                six_bit(self@),
                forall|j: int| i <= j < self.entries@.len() ==> self.entries@[j].0@ != url@,
            decreases i,
        {
            if chars_eq(self.entries[i - 1].0.as_slice(), key.as_slice()) {
                proof {
                    let s = self.entries@;
                    lemma_entries_map_suffix_free(s, i as int, url@);
                    assert(s.take(i as int).drop_last() == s.take(i - 1));
                    assert(s.take(i as int).last() == s[i - 1]);
                }
                return Some(self.entries[i - 1].1);
            }
            i = i - 1;
        }
        proof {
            lemma_entries_map_suffix_free(self.entries@, 0, url@);
            assert(self.entries@.take(0) =~= Seq::<(Vec<char>, u8)>::empty());
        }
        None
    }

    /// Records the 6-bit `pattern` for `url`.
    pub fn insert(&mut self, url: &str, pattern: u8)
        requires
            pattern < 64,
        ensures
            final(self)@ == old(self)@.insert(url@, pattern),
            six_bit(final(self)@),
    {
        proof {
            use_type_invariant(&*self);
        }
        let key = chars_of(url);
        let ghost before = self.entries@;
        let mut entries: Vec<(Vec<char>, u8)> = Vec::new();
        std::mem::swap(&mut entries, &mut self.entries);
        entries.push((key, pattern));
        assert(entries@.drop_last() == before);
        self.entries = entries;
        proof {
            lemma_entries_six_bit(self.entries@);
        }
    }
}

/// A read of the cache gives back what the last write for that URL wrote,
/// and a write leaves every other URL's entry as it was.
pub proof fn law_cache_read_after_write(before: Map<Seq<char>, u8>, url: Seq<char>, p: u8, other: Seq<char>)
    requires
        other != url,
    ensures
        before.insert(url, p).contains_key(url),
        before.insert(url, p)[url] == p,
        before.insert(url, p).contains_key(other) == before.contains_key(other),
        before.contains_key(other) ==> before.insert(url, p)[other] == before[other],
{
}

// ---------------------------------------------------------------------------
// Resolving a glyph URL
// ---------------------------------------------------------------------------

/// What the caller reports back while a glyph URL is being resolved.
pub enum PatternEvent {
    /// Start: consult the in-process cache.
    Lookup,
    /// The on-disk cache was read: its first byte, or `None` on a miss.
    DiskRead(Option<u8>),
    /// The glyph GIF was fetched: its bytes, or `None` when the fetch failed.
    Fetched(Option<Vec<u8>>),
}

/// What the caller should do next.
#[derive(Debug, PartialEq, Eq, Structural)]
pub enum PatternStep {
    /// The pattern is known.
    Resolved(u8),
    /// Read the on-disk cache entry and report `DiskRead`.
    ReadDisk,
    /// Fetch the glyph GIF and report `Fetched`.
    Fetch,
    /// The pattern was decoded; write it to the on-disk cache. It is known.
    Store(u8),
    /// The glyph cannot be resolved.
    Failed(MosaicError),
}

/// One step of resolving `url` against a cache holding `c`: the step the
/// caller takes next and the cache afterwards.
pub open spec fn spec_resolve(
    c: Map<Seq<char>, u8>,
    url: Seq<char>,
    fg: TtColor,
    bg: TtColor,
    event: PatternEvent,
) -> (PatternStep, Map<Seq<char>, u8>) {
    match event {
        PatternEvent::Lookup => if c.contains_key(url) {
            (PatternStep::Resolved(c[url]), c)
        } else {
            (PatternStep::ReadDisk, c)
        },
        PatternEvent::DiskRead(Some(b)) => (
            PatternStep::Resolved((b % 64) as u8),
            c.insert(url, (b % 64) as u8),
        ),
        PatternEvent::DiskRead(None) => (PatternStep::Fetch, c),
        PatternEvent::Fetched(None) => (PatternStep::Failed(MosaicError::Fetch), c),
        PatternEvent::Fetched(Some(bytes)) => match spec_decode_pattern(bytes@, fg, bg) {
            Ok(p) => (PatternStep::Store(p), c.insert(url, p)),
            Err(e) => (PatternStep::Failed(e), c),
        },
    }
}

/// Resolve a mosaic URL to its 6-bit pattern, one event at a time: the
/// in-process cache first, then the on-disk cache (whose byte is masked to
/// six bits), then a fetch and decode. Whatever is learnt goes into `cache`.
pub fn resolve_pattern(
    cache: &mut PatternCache,
    url: &str,
    fg: TtColor,
    bg: TtColor,
    event: PatternEvent,
) -> (step: PatternStep)
    ensures
        (step, final(cache)@) == spec_resolve(old(cache)@, url@, fg, bg, event),
        six_bit(final(cache)@),
        step matches PatternStep::Resolved(p) ==> p < 64,
        step matches PatternStep::Store(p) ==> p < 64,
{
    proof {
        use_type_invariant(&*cache);
        lemma_entries_six_bit(cache.entries@);
    }
    match event {
        PatternEvent::Lookup => match cache.get(url) {
            Some(p) => PatternStep::Resolved(p),
            None => PatternStep::ReadDisk,
        },
        PatternEvent::DiskRead(Some(b)) => {
            let p: u8 = b & 0x3f;
            assert(b & 0x3f == b % 64) by (bit_vector);
            cache.insert(url, p);
            PatternStep::Resolved(p)
        },
        PatternEvent::DiskRead(None) => PatternStep::Fetch,
        PatternEvent::Fetched(None) => PatternStep::Failed(MosaicError::Fetch),
        PatternEvent::Fetched(Some(bytes)) => match decode_pattern(bytes.as_slice(), fg, bg) {
            Ok(p) => {
                cache.insert(url, p);
                PatternStep::Store(p)
            },
            Err(e) => PatternStep::Failed(e),
        },
    }
}

// ---------------------------------------------------------------------------
// On-disk cache key
// ---------------------------------------------------------------------------

/// The part of `s` after its last `/` (all of `s` when it has none).
pub open spec fn last_segment(s: Seq<char>) -> Seq<char>
    decreases s.len(),
{
    if s.len() == 0 {
        s
    } else if s.last() == '/' {
        Seq::empty()
    } else {
        last_segment(s.drop_last()).push(s.last())
    }
}

pub open spec fn gif_suffix() -> Seq<char> {
    seq!['.', 'g', 'i', 'f']
}

/// The bare GIF hash of a glyph URL: its last path segment, minus `.gif`,
/// when what remains is all ASCII digits.
pub open spec fn spec_cache_key(url: Seq<char>) -> Option<Seq<char>> {
    let seg = last_segment(url);
    if seg.len() >= 4 && seg.skip(seg.len() - 4) == gif_suffix() && (forall|i: int|
        0 <= i < seg.len() - 4 ==> is_digit(#[trigger] seg[i])) {
        Some(seg.take(seg.len() - 4))
    } else {
        None
    }
}

proof fn lemma_last_segment_from(s: Seq<char>, start: int)
    requires
        0 <= start <= s.len(),
        start == 0 || s[start - 1] == '/',
        forall|j: int| start <= j < s.len() ==> s[j] != '/',
    ensures
        last_segment(s) == s.skip(start),
    decreases s.len(),
{
    if s.len() > start {
        lemma_last_segment_from(s.drop_last(), start);
        assert(s.drop_last().skip(start).push(s.last()) == s.skip(start));
    } else if start > 0 {
        assert(s.skip(start) == Seq::<char>::empty());
    } else {
        assert(s.len() == 0);
    }
}

/// The bare GIF hash of a glyph URL, or `None` for an off-spec URL.
#[verifier::spinoff_prover]
fn digit_stem(url: &str) -> (r: Option<String>)
    ensures
        match spec_cache_key(url@) {
            Some(k) => r matches Some(s) && s@ == k,
            None => r is None,
        },
{
    let cs = chars_of(url);
    let mut start: usize = cs.len();
    while start > 0 && cs[start - 1] != '/'
        invariant
            start <= cs.len(),
            forall|j: int| start <= j < cs@.len() ==> cs@[j] != '/',
        decreases start,
    {
        start = start - 1;
    }
    proof {
        lemma_last_segment_from(cs@, start as int);
    }
    let n = cs.len() - start;
    if n < 4 {
        return None;
    }
    let stem_end = cs.len() - 4;
    if !(cs[stem_end] == '.' && cs[stem_end + 1] == 'g' && cs[stem_end + 2] == 'i' && cs[stem_end
        + 3] == 'f') {
        proof {
            let seg = cs@.skip(start as int);
            if seg.skip(seg.len() - 4) == gif_suffix() {
                assert(seg.skip(seg.len() - 4)[0] == cs@[stem_end as int]);
                assert(seg.skip(seg.len() - 4)[1] == cs@[stem_end + 1]);
                assert(seg.skip(seg.len() - 4)[2] == cs@[stem_end + 2]);
                assert(seg.skip(seg.len() - 4)[3] == cs@[stem_end + 3]);
            }
        }
        return None;
    }
    let ghost seg = cs@.skip(start as int);
    assert(seg.skip(seg.len() - 4) == gif_suffix());
    let mut stem: Vec<char> = Vec::new();
    let mut i: usize = start;
    while i < stem_end
        invariant
            start <= i <= stem_end,
            stem_end == cs.len() - 4,
            seg == cs@.skip(start as int),
            last_segment(url@) == seg,
            stem@ == seg.take(i - start),
            forall|j: int| 0 <= j < i - start ==> is_digit(#[trigger] seg[j]),
        decreases stem_end - i,
    {
        if !char_is_digit(cs[i]) {
            assert(seg[i - start] == cs@[i as int]);
            assert(last_segment(url@) == seg);
            assert(!is_digit(seg[i - start]));
            assert(seg.len() - 4 == stem_end - start);
            return None;
        }
        assert(seg.take(i - start + 1) == seg.take(i - start).push(cs@[i as int]));
        stem.push(cs[i]);
        i = i + 1;
    }
    Some(string_of(stem.as_slice()))
}


/// FNV-1a's 64-bit offset basis.
pub const FNV_OFFSET: u64 = 0xcbf2_9ce4_8422_2325;

/// FNV-1a's 64-bit prime.
pub const FNV_PRIME: u64 = 0x0000_0100_0000_01b3;

/// The 64-bit FNV-1a hash of `bytes`.
pub open spec fn fnv1a(bytes: Seq<u8>) -> u64
    decreases bytes.len(),
{
    if bytes.len() == 0 {
        FNV_OFFSET
    } else {
        (fnv1a(bytes.drop_last()) ^ (bytes.last() as u64)).wrapping_mul(FNV_PRIME)
    }
}

/// The lowercase hexadecimal digit for `d` (below 16).
pub open spec fn hex_char(d: nat) -> char {
    if d < 10 {
        (d + 48) as char
    } else {
        (d + 87) as char
    }
}

/// The last `k` hexadecimal digits of `n`, most significant first.
pub open spec fn hex_of(n: nat, k: nat) -> Seq<char>
    decreases k,
{
    if k == 0 {
        Seq::empty()
    } else {
        hex_of(n / 16, (k - 1) as nat).push(hex_char(n % 16))
    }
}

/// The on-disk name of a glyph URL: its bare GIF hash, or, for an off-spec
/// URL, `u` and the 16 hex digits of the FNV-1a hash of its UTF-8 bytes,
/// which is the same in every run.
pub open spec fn spec_cache_name(url: Seq<char>) -> Seq<char> {
    match spec_cache_key(url) {
        Some(k) => k,
        None => seq!['u'] + hex_of(fnv1a(vstd::utf8::encode_utf8(url)) as nat, 16),
    }
}

proof fn lemma_hex_of(n: nat, k: nat)
    ensures
        hex_of(n, k).len() == k,
        forall|i: int|
            0 <= i < k ==> ('0' <= #[trigger] hex_of(n, k)[i] <= '9' || 'a' <= hex_of(n, k)[i] <= 'f'),
    decreases k,
{
    if k > 0 {
        lemma_hex_of(n / 16, (k - 1) as nat);
        let d = n % 16;
        assert('0' <= hex_char(d) <= '9' || 'a' <= hex_char(d) <= 'f');
        assert forall|i: int| 0 <= i < k implies ('0' <= #[trigger] hex_of(n, k)[i] <= '9' || 'a' <= hex_of(
            n,
            k,
        )[i] <= 'f') by {
            if i < k - 1 {
                assert(hex_of(n, k)[i] == hex_of(n / 16, (k - 1) as nat)[i]);
            }
        }
    }
}

/// The on-disk name of a glyph URL: a URL whose last path segment is a run
/// of ASCII digits followed by `.gif` is named by those digits; any other
/// URL gets `u` and 16 lowercase hex digits.
pub proof fn law_cache_names(url: Seq<char>, dir: Seq<char>, digits: Seq<char>)
    ensures
        (dir.len() == 0 || dir.last() == '/') && (forall|i: int|
            0 <= i < digits.len() ==> '0' <= #[trigger] digits[i] <= '9') && url == dir + digits
            + ".gif"@ ==> spec_cache_name(url) == digits,
        spec_cache_key(url) is None ==> {
            let n = spec_cache_name(url);
            &&& n.len() == 17
            &&& n[0] == 'u'
            &&& forall|i: int| 1 <= i < 17 ==> ('0' <= #[trigger] n[i] <= '9' || 'a' <= n[i] <= 'f')
        },
        spec_cache_key(url) matches Some(k) ==> spec_cache_name(url) == k,
{
    reveal_strlit(".gif");
    if (dir.len() == 0 || dir.last() == '/') && (forall|i: int|
        0 <= i < digits.len() ==> '0' <= #[trigger] digits[i] <= '9') && url == dir + digits + ".gif"@ {
        let start = dir.len() as int;
        assert forall|j: int| start <= j < url.len() implies url[j] != '/' by {
            if j < start + digits.len() {
                assert(url[j] == digits[j - start]);
            } else {
                assert(url[j] == ".gif"@[j - start - digits.len()]);
            }
        }
        lemma_last_segment_from(url, start);
        let seg = last_segment(url);
        assert(seg =~= digits + ".gif"@);
        assert(seg.skip(seg.len() - 4) =~= gif_suffix());
        assert(seg.take(seg.len() - 4) =~= digits);
        assert forall|i: int| 0 <= i < seg.len() - 4 implies is_digit(#[trigger] seg[i]) by {
            assert(seg[i] == digits[i]);
        }
    }
    lemma_hex_of(fnv1a(vstd::utf8::encode_utf8(url)) as nat, 16);
    if spec_cache_key(url) is None {
        let h = hex_of(fnv1a(vstd::utf8::encode_utf8(url)) as nat, 16);
        let n = spec_cache_name(url);
        assert(n == seq!['u'] + h);
        assert forall|i: int| 1 <= i < 17 implies ('0' <= #[trigger] n[i] <= '9' || 'a' <= n[i] <= 'f') by {
            assert(n[i] == h[i - 1]);
        }
    }
}

fn fnv1a_of(bytes: &[u8]) -> (r: u64)
    ensures
        r == fnv1a(bytes@),
{
    let mut h: u64 = FNV_OFFSET;
    let mut i: usize = 0;
    while i < bytes.len()
        invariant
            i <= bytes@.len(),
            h == fnv1a(bytes@.take(i as int)),
        decreases bytes.len() - i,
    {
        assert(bytes@.take(i as int + 1).drop_last() == bytes@.take(i as int));
        h = (h ^ (bytes[i] as u64)).wrapping_mul(FNV_PRIME);
        i = i + 1;
    }
    assert(bytes@.take(bytes.len() as int) == bytes@);
    h
}

fn push_hex(s: &mut String, n: u64, k: usize)
    ensures
        final(s)@ == old(s)@ + hex_of(n as nat, k as nat),
    decreases k,
{
    if k == 0 {
        return;
    }
    push_hex(s, n / 16, k - 1);
    let d: u64 = n % 16;
    let c: char = if d < 10 {
        ((48 + d) as u8) as char
    } else {
        ((87 + d) as u8) as char
    };
    crate::textutil::push_char(s, c);
}

/// The on-disk cache file stem for a glyph URL: the bare GIF hash, or a
/// stable hash of the whole URL for an off-spec one.
pub fn cache_key(url: &str) -> (r: String)
    ensures
        r@ == spec_cache_name(url@),
{
    match digit_stem(url) {
        Some(k) => k,
        None => {
            let h = fnv1a_of(url.as_bytes());
            let mut s = String::new();
            crate::textutil::push_char(&mut s, 'u');
            push_hex(&mut s, h, 16);
            s
        },
    }
}

// ---------------------------------------------------------------------------
// Prefetch planning
// ---------------------------------------------------------------------------

/// The cells of a run of lines, in reading order.
pub open spec fn page_cells(lines: Seq<Line>) -> Seq<Cell>
    decreases lines.len(),
{
    if lines.len() == 0 {
        Seq::empty()
    } else {
        page_cells(lines.drop_last()) + lines.last().cells@
    }
}

/// A glyph URL to resolve, with the colors of the cell it first appears in.
pub type Target = (Seq<char>, TtColor, TtColor);

/// Whether `url` is among the targets.
pub open spec fn targets_have(ts: Seq<Target>, url: Seq<char>) -> bool {
    exists|k: int| 0 <= k < ts.len() && (#[trigger] ts[k]).0 == url
}

/// The glyph URLs of a run of cells that `cache` does not know, each once,
/// in order of first appearance, with that cell's colors.
pub open spec fn prefetch_of(cells: Seq<Cell>, cache: Map<Seq<char>, u8>) -> Seq<Target>
    decreases cells.len(),
{
    if cells.len() == 0 {
        Seq::empty()
    } else {
        let prev = prefetch_of(cells.drop_last(), cache);
        let c = cells.last();
        match c.mosaic_url {
            Some(u) => if !cache.contains_key(u@) && !targets_have(prev, u@) {
                prev.push((u@, c.fg, c.bg))
            } else {
                prev
            },
            None => prev,
        }
    }
}

/// Whether cell `c` is a mosaic with glyph URL `u`.
pub open spec fn cell_has_url(c: Cell, u: Seq<char>) -> bool {
    c.mosaic_url matches Some(v) && v@ == u
}

/// Cell `i` is the first of `cells` with glyph URL `u`.
pub open spec fn first_with_url(cells: Seq<Cell>, i: int, u: Seq<char>) -> bool {
    &&& 0 <= i < cells.len()
    &&& cell_has_url(cells[i], u)
    &&& forall|j: int| 0 <= j < i ==> !cell_has_url(#[trigger] cells[j], u)
}

/// Target `t` has the colors of the first of `cells` that shows its URL.
pub open spec fn shown_first_by(cells: Seq<Cell>, t: Target) -> bool {
    exists|i: int| #[trigger] first_with_url(cells, i, t.0) && cells[i].fg == t.1 && cells[i].bg == t.2
}

/// What is prefetched for a run of cells: every glyph URL of a mosaic cell
/// that the cache does not know, exactly once, none that the cache knows,
/// each with the colors of the first cell that shows it, in the order those
/// cells come.
pub proof fn law_prefetch_targets(cells: Seq<Cell>, cache: Map<Seq<char>, u8>)
    ensures
        ({
            let ts = prefetch_of(cells, cache);
            &&& forall|a: int, b: int| 0 <= a < b < ts.len() ==> (#[trigger] ts[a]).0 != (#[trigger] ts[b]).0
            &&& forall|k: int| 0 <= k < ts.len() ==> !cache.contains_key((#[trigger] ts[k]).0)
            &&& forall|u: Seq<char>|
                (exists|k: int| 0 <= k < ts.len() && (#[trigger] ts[k]).0 == u) <==> (!cache.contains_key(u)
                    && exists|i: int| 0 <= i < cells.len() && #[trigger] cell_has_url(cells[i], u))
            &&& forall|k: int| 0 <= k < ts.len() ==> shown_first_by(cells, #[trigger] ts[k])
            &&& forall|a: int, b: int, i: int, j: int|
                0 <= a < b < ts.len() && #[trigger] first_with_url(cells, i, ts[a].0) && #[trigger] first_with_url(
                    cells,
                    j,
                    ts[b].0,
                ) ==> i < j
        }),
    decreases cells.len(),
{
    let ts = prefetch_of(cells, cache);
    if cells.len() > 0 {
        let pre = cells.drop_last();
        let n = pre.len() as int;
        law_prefetch_targets(pre, cache);
        let prev = prefetch_of(pre, cache);
        let c = cells.last();
        assert forall|j: int| 0 <= j < n implies #[trigger] cells[j] == pre[j] by {}
        // a first occurrence in `pre` is one in `cells`
        assert forall|i: int, u: Seq<char>| first_with_url(pre, i, u) implies first_with_url(cells, i, u) by {
            assert forall|j: int| 0 <= j < i implies !cell_has_url(#[trigger] cells[j], u) by {
                assert(cells[j] == pre[j]);
            }
        }
        assert forall|i: int, u: Seq<char>| first_with_url(cells, i, u) && i < n implies first_with_url(
            pre,
            i,
            u,
        ) by {
            assert forall|j: int| 0 <= j < i implies !cell_has_url(#[trigger] pre[j], u) by {
                assert(cells[j] == pre[j]);
            }
        }
        let added = match c.mosaic_url {
            Some(u) => !cache.contains_key(u@) && !targets_have(prev, u@),
            None => false,
        };
        if added {
            let u = c.mosaic_url->0@;
            assert(ts == prev.push((u, c.fg, c.bg)));
            assert(forall|k: int| 0 <= k < prev.len() ==> (#[trigger] prev[k]).0 != u);
            assert(forall|i: int| 0 <= i < n ==> !cell_has_url(#[trigger] pre[i], u));
            assert(first_with_url(cells, n, u)) by {
                assert forall|j: int| 0 <= j < n implies !cell_has_url(#[trigger] cells[j], u) by {
                    assert(cells[j] == pre[j]);
                }
            }
            assert forall|k: int| 0 <= k < ts.len() implies shown_first_by(cells, #[trigger] ts[k]) by {
                if k < prev.len() {
                    assert(ts[k] == prev[k]);
                    let i = choose|i: int|
                        #[trigger] first_with_url(pre, i, prev[k].0) && pre[i].fg == prev[k].1 && pre[i].bg
                            == prev[k].2;
                    assert(first_with_url(cells, i, ts[k].0));
                    assert(cells[i] == pre[i]);
                } else {
                    assert(ts[k] == (u, c.fg, c.bg));
                    assert(cells[n] == c);
                    assert(first_with_url(cells, n, ts[k].0));
                }
            }
            assert forall|w: Seq<char>|
                (exists|k: int| 0 <= k < ts.len() && (#[trigger] ts[k]).0 == w) <==> (!cache.contains_key(w)
                    && exists|i: int| 0 <= i < cells.len() && #[trigger] cell_has_url(cells[i], w)) by {
                if exists|i: int| 0 <= i < cells.len() && #[trigger] cell_has_url(cells[i], w) {
                    let i = choose|i: int| 0 <= i < cells.len() && #[trigger] cell_has_url(cells[i], w);
                    if i < n {
                        assert(cell_has_url(pre[i], w));
                        if !cache.contains_key(w) {
                            let k = choose|k: int| 0 <= k < prev.len() && (#[trigger] prev[k]).0 == w;
                            assert(ts[k] == prev[k]);
                        }
                    } else {
                        assert(ts[prev.len() as int].0 == w);
                    }
                }
                if exists|k: int| 0 <= k < ts.len() && (#[trigger] ts[k]).0 == w {
                    let k = choose|k: int| 0 <= k < ts.len() && (#[trigger] ts[k]).0 == w;
                    if k < prev.len() {
                        assert(ts[k] == prev[k]);
                        let i = choose|i: int| 0 <= i < pre.len() && #[trigger] cell_has_url(pre[i], w);
                        assert(cell_has_url(cells[i], w));
                    } else {
                        assert(cell_has_url(cells[n], w));
                    }
                }
            }
            assert forall|a: int, b: int, i: int, j: int|
                0 <= a < b < ts.len() && #[trigger] first_with_url(cells, i, ts[a].0) && #[trigger] first_with_url(
                    cells,
                    j,
                    ts[b].0,
                ) implies i < j by {
                if b < prev.len() {
                    assert(ts[a] == prev[a] && ts[b] == prev[b]);
                    assert(first_with_url(pre, i, prev[a].0));
                    assert(first_with_url(pre, j, prev[b].0));
                } else {
                    assert(ts[a] == prev[a]);
                    let i2 = choose|i2: int|
                        #[trigger] first_with_url(pre, i2, prev[a].0) && pre[i2].fg == prev[a].1 && pre[i2].bg
                            == prev[a].2;
                    assert(first_with_url(cells, i2, ts[a].0));
                    assert(i2 < n);
                    assert(i == i2) by {
                        if i < i2 {
                            assert(!cell_has_url(cells[i], ts[a].0));
                        } else if i2 < i {
                            assert(!cell_has_url(cells[i2], ts[a].0));
                        }
                    }
                    assert(j == n) by {
                        if j < n {
                            assert(cell_has_url(pre[j], u));
                        }
                    }
                }
            }
            assert forall|a: int, b: int| 0 <= a < b < ts.len() implies (#[trigger] ts[a]).0 != (
            #[trigger] ts[b]).0 by {
                if b < prev.len() {
                    assert(ts[a] == prev[a] && ts[b] == prev[b]);
                } else {
                    assert(ts[a] == prev[a]);
                }
            }
            assert forall|k: int| 0 <= k < ts.len() implies !cache.contains_key((#[trigger] ts[k]).0) by {
                if k < prev.len() {
                    assert(ts[k] == prev[k]);
                }
            }
        } else {
            assert(ts == prev);
            assert forall|k: int| 0 <= k < ts.len() implies shown_first_by(cells, #[trigger] ts[k]) by {
                assert(prev[k] == ts[k]);
                let i = choose|i: int|
                    #[trigger] first_with_url(pre, i, prev[k].0) && pre[i].fg == prev[k].1 && pre[i].bg
                        == prev[k].2;
                assert(first_with_url(cells, i, ts[k].0));
                assert(cells[i] == pre[i]);
            }
            assert forall|w: Seq<char>|
                (exists|k: int| 0 <= k < ts.len() && (#[trigger] ts[k]).0 == w) <==> (!cache.contains_key(w)
                    && exists|i: int| 0 <= i < cells.len() && #[trigger] cell_has_url(cells[i], w)) by {
                if !cache.contains_key(w) && exists|i: int| 0 <= i < cells.len() && #[trigger] cell_has_url(cells[i], w) {
                    let i = choose|i: int| 0 <= i < cells.len() && #[trigger] cell_has_url(cells[i], w);
                    if i < n {
                        assert(cell_has_url(pre[i], w));
                    } else {
                        assert(targets_have(prev, w));
                        let k = choose|k: int| 0 <= k < prev.len() && (#[trigger] prev[k]).0 == w;
                        assert(ts[k].0 == w);
                    }
                }
                if exists|k: int| 0 <= k < ts.len() && (#[trigger] ts[k]).0 == w {
                    let i = choose|i: int| 0 <= i < pre.len() && #[trigger] cell_has_url(pre[i], w);
                    assert(cell_has_url(cells[i], w));
                }
            }
            assert forall|a: int, b: int, i: int, j: int|
                0 <= a < b < ts.len() && #[trigger] first_with_url(cells, i, ts[a].0) && #[trigger] first_with_url(
                    cells,
                    j,
                    ts[b].0,
                ) implies i < j by {
                let i2 = choose|i2: int|
                    #[trigger] first_with_url(pre, i2, prev[a].0) && pre[i2].fg == prev[a].1 && pre[i2].bg
                        == prev[a].2;
                let j2 = choose|j2: int|
                    #[trigger] first_with_url(pre, j2, prev[b].0) && pre[j2].fg == prev[b].1 && pre[j2].bg
                        == prev[b].2;
                assert(first_with_url(cells, i2, ts[a].0));
                assert(first_with_url(cells, j2, ts[b].0));
                assert(i == i2) by {
                    if i < i2 {
                        assert(!cell_has_url(cells[i], ts[a].0));
                    } else if i2 < i {
                        assert(!cell_has_url(cells[i2], ts[a].0));
                    }
                }
                assert(j == j2) by {
                    if j < j2 {
                        assert(!cell_has_url(cells[j], ts[b].0));
                    } else if j2 < j {
                        assert(!cell_has_url(cells[j2], ts[b].0));
                    }
                }
            }
        }
    }
}

pub open spec fn targets_view(v: Seq<(String, TtColor, TtColor)>) -> Seq<Target> {
    v.map_values(|t: (String, TtColor, TtColor)| (t.0@, t.1, t.2))
}

/// Whether one of the planned targets is `url`.
fn planned(out: &Vec<(String, TtColor, TtColor)>, url: &String) -> (r: bool)
    ensures
        r == targets_have(targets_view(out@), url@),
{
    let mut k: usize = 0;
    while k < out.len()
        invariant
            k <= out@.len(),
            forall|j: int| 0 <= j < k ==> (#[trigger] out@[j]).0@ != url@,
        decreases out.len() - k,
    {
        if out[k].0 == *url {
            assert(targets_view(out@)[k as int].0 == url@);
            return true;
        }
        k = k + 1;
    }
    assert forall|j: int| 0 <= j < targets_view(out@).len() implies (#[trigger] targets_view(
        out@,
    )[j]).0 != url@ by {
        assert(targets_view(out@)[j].0 == out@[j].0@);
    }
    false
}

/// The glyphs a page needs fetched before it is drawn: every mosaic URL the
/// cache does not know, once each, in order of first appearance, with the
/// colors of the cell it first appears in (its pattern is classified
/// against them).
#[verifier::spinoff_prover]
pub fn prefetch_targets(page: &ColoredPage, cache: &PatternCache) -> (r: Vec<(String, TtColor, TtColor)>)
    ensures
        targets_view(r@) == prefetch_of(page_cells(page.lines@), cache@),
{
    let mut out: Vec<(String, TtColor, TtColor)> = Vec::new();
    let mut i: usize = 0;
    while i < page.lines.len()
        invariant
            i <= page.lines@.len(),
            targets_view(out@) == prefetch_of(page_cells(page.lines@.take(i as int)), cache@),
        decreases page.lines.len() - i,
    {
        let line = &page.lines[i];
        let ghost base = page_cells(page.lines@.take(i as int));
        let mut j: usize = 0;
        while j < line.cells.len()
            invariant
                j <= line.cells@.len(),
                base == page_cells(page.lines@.take(i as int)),
                targets_view(out@) == prefetch_of(base + line.cells@.take(j as int), cache@),
            decreases line.cells.len() - j,
        {
            let cell = &line.cells[j];
            let ghost flat = base + line.cells@.take(j as int);
            assert((base + line.cells@.take(j as int + 1)).drop_last() == flat);
            assert((base + line.cells@.take(j as int + 1)).last() == line.cells@[j as int]);
            match &cell.mosaic_url {
                Some(url) => {
                    if cache.get(url.as_str()).is_none() && !planned(&out, url) {
                        let ghost before = out@;
                        out.push((url.clone(), cell.fg, cell.bg));
                        assert(targets_view(out@) =~= targets_view(before).push(
                            (url@, cell.fg, cell.bg),
                        ));
                    }
                },
                None => {},
            }
            j = j + 1;
        }
        assert(line.cells@.take(line.cells.len() as int) == line.cells@);
        assert(page.lines@.take(i as int + 1).drop_last() == page.lines@.take(i as int));
        assert(page.lines@.take(i as int + 1).last() == page.lines@[i as int]);
        i = i + 1;
    }
    assert(page.lines@.take(page.lines.len() as int) == page.lines@);
    out
}


/// Each glyph URL is resolved once: after its pattern is learnt from the
/// disk cache or from a fetch, looking the URL up again answers with that
/// pattern, whatever the colors, and leaves the cache as it is.
pub proof fn law_resolved_once(
    c: Map<Seq<char>, u8>,
    url: Seq<char>,
    fg: TtColor,
    bg: TtColor,
    event: PatternEvent,
    fg2: TtColor,
    bg2: TtColor,
)
    ensures
        ({
            let (step, c2) = spec_resolve(c, url, fg, bg, event);
            match step {
                PatternStep::Resolved(p) => spec_resolve(c2, url, fg2, bg2, PatternEvent::Lookup) == (
                PatternStep::Resolved(p), c2),
                PatternStep::Store(p) => spec_resolve(c2, url, fg2, bg2, PatternEvent::Lookup) == (
                PatternStep::Resolved(p), c2),
                _ => c2 == c,
            }
        }),
{
}

/// A resolved pattern is always a 6-bit pattern, whichever tier supplies
/// it: the memory cache (which holds only 6-bit patterns), the disk byte
/// (masked) or a decoded glyph; and the cache keeps holding only those.
pub proof fn law_patterns_are_six_bit(c: Map<Seq<char>, u8>, url: Seq<char>, fg: TtColor, bg: TtColor, event: PatternEvent)
    requires
        six_bit(c),
    ensures
        match spec_resolve(c, url, fg, bg, event).0 {
            PatternStep::Resolved(p) => p < 64,
            PatternStep::Store(p) => p < 64,
            _ => true,
        },
        six_bit(spec_resolve(c, url, fg, bg, event).1),
{
    if let PatternEvent::Fetched(Some(bytes)) = event {
        lemma_decode_pattern_six_bit(bytes@, fg, bg);
    }
}

proof fn lemma_decode_pattern_six_bit(bytes: Seq<u8>, fg: TtColor, bg: TtColor)
    ensures
        spec_decode_pattern(bytes, fg, bg) matches Ok(p) ==> p < 64,
{
    if let Some((w, h, data)) = gif_decoded(bytes) {
        if w != 0 && h != 0 {
            lemma_pattern_prefix_bound(w, h, data, fg, bg, 6);
            reveal_with_fuel(bit_weight, 7);
        }
    }
}

} // verus!
