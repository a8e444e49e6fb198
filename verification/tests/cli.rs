use texttv::cli::{command_of, parse_page, parse_u16, print_sections, sections_text, Args, Command, Size};

fn args(page: Option<u16>, list: bool, interactive: bool) -> Args {
    Args {
        page,
        mode: None,
        size: None,
        source: None,
        no_color: false,
        list,
        debug_protocol: false,
        verbose: false,
        interactive,
        no_padding: false,
    }
}

#[test]
fn parses_valid_page() {
    assert_eq!(parse_page("300"), Ok(300));
    let a = args(Some(300), false, false);
    assert_eq!(a.mode, None);
    assert_eq!(command_of(&a), Ok(Command::Single(300)));
}

#[test]
fn rejects_page_below_100() {
    let err = parse_page("42").unwrap_err();
    assert!(err.contains("100"), "msg = {err}");
}

#[test]
fn rejects_page_above_999() {
    let err = parse_page("1000").unwrap_err();
    assert!(err.contains("999"), "msg = {err}");
}

#[test]
fn list_flag_makes_page_optional() {
    let a = args(None, true, false);
    assert!(a.list);
    assert!(a.page.is_none());
    assert_eq!(command_of(&a), Ok(Command::List));
}

#[test]
fn page_required_without_list() {
    let err = command_of(&args(None, false, false)).unwrap_err();
    let s = err.to_lowercase();
    assert!(s.contains("required") || s.contains("page"), "msg = {err}");
}

#[test]
fn print_sections_writes_known_entries() {
    let mut buf = Vec::new();
    print_sections(&mut buf).expect("write");
    let out = String::from_utf8(buf).expect("utf8");
    assert!(out.contains("100  Innehåll"));
    assert!(out.contains("300  Sport"));
}

#[test]
fn sections_text_is_exact() {
    let t = sections_text();
    assert!(t.starts_with("SVT Text-TV — well-known pages:\n  100  Innehåll / Nyheter\n"));
    assert!(t.ends_with("  888  Text-TV-information\n"));
    assert_eq!(t.lines().count(), 13);
}

#[test]
fn parse_page_rejects_non_numbers_with_message() {
    assert_eq!(
        parse_page("abc"),
        Err("'abc' is not a number; PAGE must be 100..=999".to_string())
    );
    assert_eq!(parse_page(""), Err("'' is not a number; PAGE must be 100..=999".to_string()));
    assert_eq!(parse_page("42"), Err("PAGE must be in 100..=999, got 42".to_string()));
    assert_eq!(parse_page("100"), Ok(100));
    assert_eq!(parse_page("999"), Ok(999));
    assert_eq!(parse_page("+300"), Ok(300));
}

#[test]
fn parse_u16_follows_from_str() {
    for s in ["0", "65535", "65536", "+7", "-1", "", "+", "12a", "007", "99999999999"] {
        assert_eq!(parse_u16(s), s.parse::<u16>().ok(), "input {s:?}");
    }
}

#[test]
fn interactive_defaults_to_page_100() {
    assert_eq!(command_of(&args(None, false, true)), Ok(Command::Interactive(100)));
    assert_eq!(command_of(&args(Some(377), false, true)), Ok(Command::Interactive(377)));
    assert_eq!(command_of(&args(Some(377), true, true)), Ok(Command::List));
}

#[test]
fn size_widths() {
    assert_eq!(Size::Tiny.to_width(0), 30);
    assert_eq!(Size::Small.to_width(80), 45);
    assert_eq!(Size::Medium.to_width(80), 60);
    assert_eq!(Size::Large.to_width(80), 90);
    assert_eq!(Size::Xl.to_width(80), 120);
    assert_eq!(Size::Full.to_width(0), 200);
    assert_eq!(Size::Full.to_width(132), 132);
    assert_eq!(Size::Full.to_width(10_000), 4000);
}
