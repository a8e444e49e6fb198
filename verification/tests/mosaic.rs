use texttv::mosaic::{
    cache_key, decode_pattern, is_closer_to, pattern_to_glyph, prefetch_targets, resolve_pattern,
    MosaicError, PatternCache, PatternEvent, PatternStep,
};
use texttv::parse::{Cell, ColoredPage, Line, TtColor};

#[test]
fn empty_pattern_is_space() {
    assert_eq!(pattern_to_glyph(0), ' ');
}

#[test]
fn left_column_is_left_half_block() {
    assert_eq!(pattern_to_glyph(0b010101), '\u{258C}');
}

#[test]
fn right_column_is_right_half_block() {
    assert_eq!(pattern_to_glyph(0b101010), '\u{2590}');
}

#[test]
fn full_pattern_is_full_block() {
    assert_eq!(pattern_to_glyph(0b111111), '\u{2588}');
}

#[test]
fn top_left_only_is_first_sextant() {
    assert_eq!(pattern_to_glyph(1), '\u{1FB00}');
}

#[test]
fn top_right_only_is_second_sextant() {
    assert_eq!(pattern_to_glyph(2), '\u{1FB01}');
}

#[test]
fn pattern_20_codepoint_offset() {
    assert_eq!(pattern_to_glyph(20), '\u{1FB13}');
}

#[test]
fn pattern_22_skips_left_half() {
    assert_eq!(pattern_to_glyph(22), '\u{1FB14}');
}

#[test]
fn last_sextant_is_fb3b() {
    assert_eq!(pattern_to_glyph(62), '\u{1FB3B}');
}

#[test]
fn is_closer_to_picks_closer_color() {
    assert!(is_closer_to([255, 255, 255], (255, 255, 255), (0, 0, 0)));
    assert!(!is_closer_to([0, 0, 0], (255, 255, 255), (0, 0, 0)));
    assert!(is_closer_to([200, 200, 200], (255, 255, 255), (0, 0, 0)));
}

#[test]
fn equidistant_pixel_is_not_closer() {
    assert!(!is_closer_to([0, 0, 0], (10, 0, 0), (0, 10, 0)));
}

#[test]
fn all_64_patterns_map_to_distinct_glyphs() {
    let mut seen = std::collections::HashSet::new();
    for p in 0u8..64 {
        assert!(seen.insert(pattern_to_glyph(p)), "pattern {p} repeats a glyph");
    }
}

/// A GIF `w` by `h` whose top-left quarter is white and the rest black.
fn quarter_gif(w: u32, h: u32) -> Vec<u8> {
    let img = image::RgbaImage::from_fn(w, h, |x, y| {
        if x < w / 2 && y < h / 3 {
            image::Rgba([255, 255, 255, 255])
        } else {
            image::Rgba([0, 0, 0, 255])
        }
    });
    let mut gif = Vec::new();
    image::codecs::gif::GifEncoder::new(&mut gif)
        .encode(img.as_raw(), w, h, image::ExtendedColorType::Rgba8)
        .expect("encode");
    gif
}

#[test]
fn decode_pattern_classifies_sub_cells() {
    let gif = quarter_gif(12, 18);
    assert_eq!(decode_pattern(&gif, TtColor::White, TtColor::Black), Ok(1));
    // With the colors swapped the other five sub-cells are foreground.
    assert_eq!(decode_pattern(&gif, TtColor::Black, TtColor::White), Ok(62));
}

#[test]
fn decode_pattern_rejects_garbage() {
    assert_eq!(
        decode_pattern(b"not a gif", TtColor::White, TtColor::Black),
        Err(MosaicError::Decode)
    );
}

#[test]
fn cache_reads_back_last_write() {
    let mut c = PatternCache::new();
    assert_eq!(c.get("https://l.texttv.nu/storage/chars/1.gif"), None);
    c.insert("https://l.texttv.nu/storage/chars/1.gif", 5);
    c.insert("https://l.texttv.nu/storage/chars/2.gif", 9);
    c.insert("https://l.texttv.nu/storage/chars/1.gif", 7);
    assert_eq!(c.get("https://l.texttv.nu/storage/chars/1.gif"), Some(7));
    assert_eq!(c.get("https://l.texttv.nu/storage/chars/2.gif"), Some(9));
}

#[test]
fn resolve_walks_memory_disk_then_network() {
    let url = "https://l.texttv.nu/storage/chars/42.gif";
    let mut c = PatternCache::new();
    assert_eq!(
        resolve_pattern(&mut c, url, TtColor::White, TtColor::Black, PatternEvent::Lookup),
        PatternStep::ReadDisk
    );
    assert_eq!(
        resolve_pattern(&mut c, url, TtColor::White, TtColor::Black, PatternEvent::DiskRead(None)),
        PatternStep::Fetch
    );
    let gif = quarter_gif(12, 18);
    assert_eq!(
        resolve_pattern(
            &mut c,
            url,
            TtColor::White,
            TtColor::Black,
            PatternEvent::Fetched(Some(gif))
        ),
        PatternStep::Store(1)
    );
    // Resolved once: the next lookup answers from memory.
    assert_eq!(
        resolve_pattern(&mut c, url, TtColor::Red, TtColor::Blue, PatternEvent::Lookup),
        PatternStep::Resolved(1)
    );
}

#[test]
fn resolve_masks_disk_byte_and_reports_failures() {
    let url = "https://l.texttv.nu/storage/chars/7.gif";
    let mut c = PatternCache::new();
    assert_eq!(
        resolve_pattern(
            &mut c,
            url,
            TtColor::White,
            TtColor::Black,
            PatternEvent::DiskRead(Some(0b1100_0011))
        ),
        PatternStep::Resolved(3)
    );
    assert_eq!(c.get(url), Some(3));
    let mut c2 = PatternCache::new();
    assert_eq!(
        resolve_pattern(&mut c2, url, TtColor::White, TtColor::Black, PatternEvent::Fetched(None)),
        PatternStep::Failed(MosaicError::Fetch)
    );
    assert_eq!(
        resolve_pattern(
            &mut c2,
            url,
            TtColor::White,
            TtColor::Black,
            PatternEvent::Fetched(Some(vec![1, 2, 3]))
        ),
        PatternStep::Failed(MosaicError::Decode)
    );
    assert_eq!(c2.get(url), None);
}

#[test]
fn cache_key_is_the_bare_hash() {
    assert_eq!(cache_key("https://l.texttv.nu/storage/chars/123456.gif"), "123456");
    assert_eq!(cache_key("99.gif"), "99");
}

#[test]
fn off_spec_urls_get_a_stable_hashed_name() {
    assert_eq!(cache_key("abc"), "ue71fa2190541574b");
    assert_eq!(cache_key("https://l.texttv.nu/storage/chars/12a.gif"), "u99b38fd48205ce31");
    assert_eq!(cache_key("https://l.texttv.nu/storage/chars/123.png"), cache_key("https://l.texttv.nu/storage/chars/123.png"));
    assert_eq!(cache_key("https://l.texttv.nu/storage/chars/123.png").len(), 17);
}

fn mosaic(url: &str, fg: TtColor) -> Cell {
    Cell {
        text: " ".to_string(),
        fg,
        bg: TtColor::Black,
        mosaic_url: Some(url.to_string()),
    }
}

#[test]
fn prefetch_lists_each_unknown_url_once_in_order() {
    let a = "https://l.texttv.nu/storage/chars/1.gif";
    let b = "https://l.texttv.nu/storage/chars/2.gif";
    let k = "https://l.texttv.nu/storage/chars/3.gif";
    let page = ColoredPage {
        page_no: 100,
        lines: vec![
            Line { cells: vec![mosaic(b, TtColor::Red), mosaic(k, TtColor::Red)], double_height: false },
            Line { cells: vec![mosaic(a, TtColor::Green), mosaic(b, TtColor::Blue)], double_height: false },
        ],
        plain: String::new(),
    };
    let mut cache = PatternCache::new();
    cache.insert(k, 4);
    let targets = prefetch_targets(&page, &cache);
    assert_eq!(
        targets,
        vec![
            (b.to_string(), TtColor::Red, TtColor::Black),
            (a.to_string(), TtColor::Green, TtColor::Black),
        ]
    );
}

#[test]
fn cache_keeps_six_bit_patterns() {
    let mut c = PatternCache::new();
    c.insert("https://l.texttv.nu/storage/chars/63.gif", 63);
    c.insert("https://l.texttv.nu/storage/chars/0.gif", 0);
    assert_eq!(c.get("https://l.texttv.nu/storage/chars/63.gif"), Some(63));
    assert_eq!(c.get("https://l.texttv.nu/storage/chars/0.gif"), Some(0));
}
