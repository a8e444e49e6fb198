use texttv::parse::{
    colored_page_from_raw, collect_text, decode_data_uri, derive_plain, extract_page,
    parse_cell_classes, parse_texttv_nu, page_from_sources, Cell, Line, ParseError, RawLine,
    RawSpan, TtColor, MAX_PAGE_GIF_DIM,
};

/// texttv.nu's answer holding `html` as the page content.
fn nu_json(html: &str) -> String {
    let value = serde_json::Value::Array(vec![serde_json::Value::Object(
        [(
            "content".to_string(),
            serde_json::Value::Array(vec![serde_json::Value::String(html.to_string())]),
        )]
        .into_iter()
        .collect(),
    )]);
    value.to_string()
}

const ONE_PIXEL_GIF: &str = "R0lGODlhAQABAIAAAAAAAP///yH5BAEAAAAALAAAAAABAAEAAAIBRAA7";

#[test]
fn texttv_nu_strips_control_characters_from_cell_text() {
    let html = r#"<span class="root"><span class="line"><span class="W">100 &#27;]0;PWNED&#7; hej</span></span></span>"#;
    let cp = parse_texttv_nu(&nu_json(html), 100).expect("parse");
    let text: String = cp.lines[0].cells.iter().map(|c| c.text.as_str()).collect();
    assert!(
        !text.chars().any(char::is_control),
        "control char leaked into cell text: {text:?}"
    );
    assert!(text.contains("hej"), "visible text must survive: {text:?}");
    assert!(
        !cp.plain.chars().any(|c| c.is_control() && c != '\n'),
        "control char leaked into plain text: {:?}",
        cp.plain
    );
}

#[test]
fn svt_html_strips_control_characters_from_text() {
    let html = format!(
        r#"<html><body><img src="data:image/gif;base64,{ONE_PIXEL_GIF}"><div class="Content_screenreaderOnly__x">100 &#27;]0;PWNED&#7; hej</div></body></html>"#
    );
    let page = extract_page(&html, 100).expect("parse");
    assert!(
        !page.text.chars().any(|c| c.is_control() && c != '\n'),
        "control char leaked: {:?}",
        page.text
    );
    assert!(page.text.contains("hej"));
}

#[test]
fn texttv_nu_rejects_mosaic_urls_outside_texttv_nu_cdn() {
    let html = r#"<span class="root"><span class="line"><span class="bgImg" style="background-image: url(http://127.0.0.1:9/123.gif)"> </span><span class="bgImg" style="background-image: url(https://evil.example/storage/chars/123.gif)"> </span><span class="bgImg" style="background-image: url(https://l.texttv.nu/storage/chars/123.gif)"> </span></span></span>"#;
    let cp = parse_texttv_nu(&nu_json(html), 100).expect("parse");
    let urls: Vec<&str> = cp.lines[0]
        .cells
        .iter()
        .filter_map(|c| c.mosaic_url.as_deref())
        .collect();
    assert_eq!(
        urls,
        vec!["https://l.texttv.nu/storage/chars/123.gif"],
        "only the texttv.nu CDN may be fetched for mosaics"
    );
    let width: usize = cp.lines[0]
        .cells
        .iter()
        .map(|c| c.text.chars().count())
        .sum();
    assert_eq!(width, 3);
}

#[test]
fn svt_html_rejects_oversized_page_gif() {
    let (w, h) = (MAX_PAGE_GIF_DIM + 1, 1u32);
    let img = image::RgbaImage::from_pixel(w, h, image::Rgba([0, 0, 0, 255]));
    let mut gif = Vec::new();
    image::codecs::gif::GifEncoder::new(&mut gif)
        .encode(img.as_raw(), w, h, image::ExtendedColorType::Rgba8)
        .expect("encode");
    let b64 = base64::Engine::encode(&base64::engine::general_purpose::STANDARD, &gif);
    let html = format!(
        r#"<html><body><img src="data:image/gif;base64,{b64}"><div class="Content_screenreaderOnly__x">x</div></body></html>"#
    );
    let err = extract_page(&html, 100).expect_err("oversized page GIF must be rejected");
    let msg = err.message().to_lowercase();
    assert!(msg.contains("limit"), "unexpected error: {}", err.message());
    assert_eq!(err, ParseError::GifTooLarge { width: 2049, height: 1 });
}

#[test]
fn svt_page_without_images_is_an_error() {
    let err = extract_page("<html><body><p>nothing</p></body></html>", 404).unwrap_err();
    assert_eq!(err, ParseError::NoImages(404));
    let lower = err.message().to_lowercase();
    assert!(lower.contains("not available") || lower.contains("no subpage"));
    assert_eq!(err.message(), "page 404 not available (no subpage images in response)");
}

#[test]
fn svt_page_keeps_image_and_falls_back_to_main_text() {
    let html = format!(
        r#"<html><body><img src="data:image/gif;base64, {ONE_PIXEL_GIF} "><main>Sport
  Hockey  </main></body></html>"#
    );
    let page = extract_page(&html, 300).expect("parse");
    assert_eq!(page.page_no, 300);
    assert_eq!(page.images.len(), 1);
    assert_eq!((page.images[0].width(), page.images[0].height()), (1, 1));
    assert_eq!(page.text, "Sport\n  Hockey");
}

#[test]
fn texttv_nu_error_kinds() {
    assert_eq!(parse_texttv_nu("not json", 100).unwrap_err(), ParseError::InvalidJson);
    assert_eq!(parse_texttv_nu("[]", 101).unwrap_err(), ParseError::EmptyResponse(101));
    assert_eq!(parse_texttv_nu("{}", 101).unwrap_err(), ParseError::EmptyResponse(101));
    assert_eq!(parse_texttv_nu("[{}]", 102).unwrap_err(), ParseError::MissingContent(102));
    assert_eq!(
        parse_texttv_nu(r#"[{"content":[]}]"#, 102).unwrap_err(),
        ParseError::MissingContent(102)
    );
    assert_eq!(
        parse_texttv_nu(r#"[{"content":[1]}]"#, 102).unwrap_err(),
        ParseError::MissingContent(102)
    );
    assert_eq!(
        parse_texttv_nu(&nu_json("<p>no lines</p>"), 103).unwrap_err(),
        ParseError::NoLines(103)
    );
    assert_eq!(
        ParseError::EmptyResponse(101).message(),
        "page 101 not available (empty texttv.nu response)"
    );
    assert_eq!(
        ParseError::MissingContent(102).message(),
        "page 102: missing content[0] in texttv.nu JSON"
    );
    assert_eq!(ParseError::NoLines(103).message(), "page 103 not available (no lines parsed)");
    assert_eq!(ParseError::InvalidJson.message(), "texttv.nu response is not valid JSON");
}

#[test]
fn texttv_nu_colors_merging_and_double_height() {
    let html = r#"<span class="root"><span class="line DH"><span class="Y bgB">SVT</span><span class="Y bgB"> Text</span><span class="W">!</span></span><span class="line"><span class="R"></span></span></span>"#;
    let cp = parse_texttv_nu(&nu_json(html), 100).expect("parse");
    assert_eq!(cp.page_no, 100);
    assert_eq!(cp.lines.len(), 1);
    let l = &cp.lines[0];
    assert!(l.double_height);
    assert_eq!(l.cells.len(), 2);
    assert_eq!(l.cells[0].text, "SVT Text");
    assert_eq!((l.cells[0].fg, l.cells[0].bg), (TtColor::Yellow, TtColor::Blue));
    assert_eq!((l.cells[1].fg, l.cells[1].bg), (TtColor::White, TtColor::Black));
    assert_eq!(cp.plain, "SVT Text!");
}

#[test]
fn cell_classes_later_tokens_win() {
    assert_eq!(parse_cell_classes(""), (TtColor::White, TtColor::Black, false));
    assert_eq!(parse_cell_classes("line bgImg"), (TtColor::White, TtColor::Black, true));
    assert_eq!(parse_cell_classes("R bgG Y"), (TtColor::Yellow, TtColor::Green, false));
    assert_eq!(parse_cell_classes("bl bgBl"), (TtColor::Black, TtColor::Black, false));
    assert_eq!(parse_cell_classes("bgbl M"), (TtColor::Magenta, TtColor::Black, false));
}

fn cell(text: &str) -> Cell {
    Cell { text: text.to_string(), fg: TtColor::White, bg: TtColor::Black, mosaic_url: None }
}

#[test]
fn plain_text_trims_each_line_and_the_end() {
    let lines = vec![
        Line { cells: vec![cell("abc  "), cell(" ")], double_height: false },
        Line { cells: vec![cell("   ")], double_height: false },
        Line { cells: vec![cell(" de"), cell("f ")], double_height: false },
        Line { cells: vec![cell("  ")], double_height: false },
    ];
    assert_eq!(derive_plain(&lines), "abc\n\n def");
}

#[test]
fn page_text_collapses_blank_runs() {
    assert_eq!(collect_text("\n\n  \nOne  \r\n\n\n\nTwo\x07 \n  \n"), "One\n\nTwo");
    assert_eq!(collect_text(""), "");
    assert_eq!(collect_text("\t\n"), "");
}

#[test]
fn data_uri_errors() {
    assert_eq!(decode_data_uri("data:image/png;base64,AAAA").unwrap_err(), ParseError::NotGifDataUri);
    assert_eq!(decode_data_uri("data:image/gif;base64,@@@").unwrap_err(), ParseError::Base64);
    assert_eq!(decode_data_uri("data:image/gif;base64,AAAA").unwrap_err(), ParseError::GifDecode);
    let img = decode_data_uri(&format!("data:image/gif;base64,{ONE_PIXEL_GIF}")).expect("gif");
    assert_eq!((img.width, img.height, img.data.len()), (1, 1, 3));
}

#[test]
fn first_bad_source_decides_the_error() {
    let good = format!("data:image/gif;base64,{ONE_PIXEL_GIF}");
    let srcs = vec![good.clone(), "data:image/gif;base64,@@".to_string(), "nope".to_string()];
    assert_eq!(page_from_sources(300, &srcs, "t").unwrap_err(), ParseError::Base64);
    let page = page_from_sources(300, &[good.clone(), good], " text ").expect("page");
    assert_eq!(page.images.len(), 2);
    assert_eq!(page.text, " text");
    assert_eq!(page_from_sources(301, &[], "t").unwrap_err(), ParseError::NoImages(301));
}

#[test]
fn raw_lines_build_the_page() {
    let span = |class: &str, text: &str| RawSpan {
        class: class.to_string(),
        style: None,
        text: text.to_string(),
    };
    let raw = vec![
        RawLine { class: "line".to_string(), spans: vec![span("G", "hej "), span("G", "då")] },
        RawLine { class: "line".to_string(), spans: vec![span("W", "")] },
        RawLine { class: "line DH".to_string(), spans: vec![span("bgImg", "")] },
    ];
    let cp = colored_page_from_raw(200, &raw).expect("page");
    assert_eq!(cp.lines.len(), 2);
    assert_eq!(cp.lines[0].cells.len(), 1);
    assert_eq!(cp.lines[0].cells[0].text, "hej då");
    assert_eq!(cp.lines[0].cells[0].fg, TtColor::Green);
    assert!(cp.lines[1].double_height);
    assert_eq!(cp.lines[1].cells[0].text, " ");
    assert!(!cp.lines[1].cells[0].is_mosaic());
    assert_eq!(cp.plain, "hej då");
    assert_eq!(colored_page_from_raw(5, &[]).unwrap_err(), ParseError::NoLines(5));
}

#[test]
fn rgb_values() {
    assert_eq!(TtColor::Black.rgb(), (0, 0, 0));
    assert_eq!(TtColor::Yellow.rgb(), (255, 255, 0));
    assert_eq!(TtColor::Magenta.rgb(), (255, 0, 255));
    assert_eq!(TtColor::Cyan.rgb(), (0, 255, 255));
}

#[test]
fn texttv_nu_indexes_arrays_only() {
    // `get(0)` on an object finds nothing, even under the key "0".
    assert_eq!(
        parse_texttv_nu(r#"{"0":{"content":["<span class=\"line\"><span>x</span></span>"]}}"#, 104).unwrap_err(),
        ParseError::EmptyResponse(104)
    );
    assert_eq!(
        parse_texttv_nu(r#"[{"content":{"0":"<span class=\"line\"><span>x</span></span>"}}]"#, 104).unwrap_err(),
        ParseError::MissingContent(104)
    );
    assert_eq!(parse_texttv_nu(r#"[[1]]"#, 104).unwrap_err(), ParseError::MissingContent(104));
    let page = parse_texttv_nu(r#"[{"content":["<span class=\"line\"><span>x</span></span>"]}]"#, 104)
        .expect("parse");
    assert_eq!(page.page_no, 104);
    assert_eq!(page.plain, "x");
}

#[test]
fn zero_sized_gif_is_refused() {
    assert_eq!(
        decode_data_uri("data:image/gif;base64,R0lGODlhAAAAAAAAACwAAAAAAAAAAAACASwAOw==").unwrap_err(),
        ParseError::GifDecode
    );
}
