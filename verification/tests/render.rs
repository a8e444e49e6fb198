use texttv::cli::Mode;
use texttv::mosaic::PatternCache;
use texttv::parse::{Cell, Line, TtColor};
use texttv::pixels::PageImage;
use texttv::render::{
    add_right_frame, default_mode, image_plan, is_blank_line, protocol_from_support,
    render_colored, render_text, terminal_cols, DetectedProtocol, ImagePlan, RIGHT_FRAME_PX,
};

fn cell(text: &str, fg: TtColor, bg: TtColor) -> Cell {
    Cell { text: text.to_string(), fg, bg, mosaic_url: None }
}

fn colored(lines: &[Line], color: bool, cache: &PatternCache) -> String {
    let mut out = String::new();
    render_colored(lines, color, cache, &mut out);
    out
}

#[test]
fn render_text_appends_a_newline() {
    let mut out = String::from(">");
    render_text("hej\nda", &mut out);
    assert_eq!(out, ">hej\nda\n");
}

#[test]
fn colored_cell_is_painted_and_framed() {
    let lines = vec![Line { cells: vec![cell("Hi", TtColor::Yellow, TtColor::Blue)], double_height: false }];
    let out = colored(&lines, true, &PatternCache::new());
    assert_eq!(
        out,
        "\x1b[48;2;0;0;255m\x1b[38;2;255;255;0mHi\x1b[39m\x1b[49m\x1b[48;2;0;0;0m \x1b[0m\n"
    );
}

#[test]
fn no_color_is_flat_text() {
    let lines = vec![
        Line { cells: vec![cell("Head", TtColor::Yellow, TtColor::Blue)], double_height: true },
        Line { cells: vec![cell("   ", TtColor::White, TtColor::Black)], double_height: false },
        Line { cells: vec![cell("a", TtColor::Red, TtColor::Black), cell("b", TtColor::Green, TtColor::Black)], double_height: false },
    ];
    assert_eq!(colored(&lines, false, &PatternCache::new()), "Head\n   \nab\n");
}

#[test]
fn double_height_line_gets_an_underline_in_place_of_the_blank_row() {
    let lines = vec![
        Line {
            cells: vec![cell(" ", TtColor::White, TtColor::Red), cell("AB", TtColor::Yellow, TtColor::Blue)],
            double_height: true,
        },
        Line { cells: vec![cell("  ", TtColor::White, TtColor::Black)], double_height: false },
        Line { cells: vec![cell("x", TtColor::White, TtColor::Black)], double_height: false },
    ];
    let out = colored(&lines, true, &PatternCache::new());
    let bar = "\u{2580}";
    let expected = format!(
        "{}{}\x1b[48;2;0;0;0m \x1b[0m\n{}{}\x1b[48;2;0;0;0m \x1b[0m\n{}\x1b[48;2;0;0;0m \x1b[0m\n",
        "\x1b[48;2;255;0;0m\x1b[38;2;255;255;255m \x1b[39m\x1b[49m",
        "\x1b[48;2;0;0;255m\x1b[38;2;255;255;0mAB\x1b[39m\x1b[49m",
        format!("\x1b[48;2;255;0;0m\x1b[38;2;255;255;255m{bar}\x1b[39m\x1b[49m"),
        format!("\x1b[48;2;0;0;255m\x1b[38;2;255;255;0m{bar}{bar}\x1b[39m\x1b[49m"),
        "\x1b[48;2;0;0;0m\x1b[38;2;255;255;255mx\x1b[39m\x1b[49m",
    );
    assert_eq!(out, expected);
    assert_eq!(out.matches('\n').count(), lines.len());
}

#[test]
fn mosaic_cells_show_cached_glyphs_or_blanks() {
    let url = "https://l.texttv.nu/storage/chars/5.gif";
    let m = Cell {
        text: "  ".to_string(),
        fg: TtColor::White,
        bg: TtColor::Black,
        mosaic_url: Some(url.to_string()),
    };
    let lines = vec![Line { cells: vec![m], double_height: false }];
    assert_eq!(colored(&lines, false, &PatternCache::new()), "  \n");
    let mut cache = PatternCache::new();
    cache.insert(url, 1);
    assert_eq!(colored(&lines, false, &cache), "\u{1FB00}\n");
}

#[test]
fn blank_lines() {
    let blank = Line { cells: vec![cell(" \u{3000} ", TtColor::White, TtColor::Black)], double_height: false };
    assert!(is_blank_line(&blank));
    let inked = Line { cells: vec![cell("  .", TtColor::White, TtColor::Black)], double_height: false };
    assert!(!is_blank_line(&inked));
    let mosaic = Line {
        cells: vec![Cell {
            text: " ".to_string(),
            fg: TtColor::White,
            bg: TtColor::Black,
            mosaic_url: Some("u".to_string()),
        }],
        double_height: false,
    };
    assert!(!is_blank_line(&mosaic));
}

#[test]
fn default_modes() {
    assert_eq!(default_mode(false, DetectedProtocol::Kitty, None), Mode::Teletext);
    assert_eq!(default_mode(true, DetectedProtocol::Kitty, None), Mode::Auto);
    assert_eq!(default_mode(true, DetectedProtocol::Iterm, Some("WezTerm")), Mode::Auto);
    assert_eq!(default_mode(true, DetectedProtocol::Iterm, Some("iTerm.app")), Mode::Teletext);
    assert_eq!(default_mode(true, DetectedProtocol::Halfblocks, None), Mode::Teletext);
}

#[test]
fn protocol_detection_order() {
    assert_eq!(protocol_from_support(true, true), DetectedProtocol::Kitty);
    assert_eq!(protocol_from_support(false, true), DetectedProtocol::Iterm);
    assert_eq!(protocol_from_support(false, false), DetectedProtocol::Halfblocks);
    assert_eq!(DetectedProtocol::Halfblocks.name(), "halfblocks");
}

#[test]
fn image_plans() {
    assert_eq!(
        image_plan(Mode::Kitty, None, 60),
        ImagePlan { use_kitty: true, use_iterm: false, width: 60, protocol: DetectedProtocol::Kitty }
    );
    assert_eq!(
        image_plan(Mode::Blocks, None, 30),
        ImagePlan { use_kitty: false, use_iterm: false, width: 30, protocol: DetectedProtocol::Halfblocks }
    );
    assert_eq!(
        image_plan(Mode::Auto, Some(DetectedProtocol::Iterm), 90),
        ImagePlan { use_kitty: true, use_iterm: true, width: 90, protocol: DetectedProtocol::Iterm }
    );
    assert_eq!(
        image_plan(Mode::Auto, Some(DetectedProtocol::Halfblocks), 90),
        ImagePlan { use_kitty: false, use_iterm: false, width: 90, protocol: DetectedProtocol::Halfblocks }
    );
}

#[test]
fn terminal_width_fallbacks() {
    assert_eq!(terminal_cols(120, Some("80")), 120);
    assert_eq!(terminal_cols(0, Some("132")), 132);
    assert_eq!(terminal_cols(0, Some("wide")), 80);
    assert_eq!(terminal_cols(0, None), 80);
}

#[test]
fn right_frame_pads_each_row_with_black() {
    let img = PageImage { width: 2, height: 2, data: (1..=12).collect() };
    let framed = add_right_frame(&img, 1);
    assert_eq!((framed.width, framed.height), (3, 2));
    assert_eq!(framed.data, vec![1, 2, 3, 4, 5, 6, 0, 0, 0, 7, 8, 9, 10, 11, 12, 0, 0, 0]);
    let wide = add_right_frame(&img, RIGHT_FRAME_PX);
    assert_eq!(wide.width, 18);
    assert_eq!(wide.data.len(), 18 * 2 * 3);
}
