use texttv::cli::{Args, Mode, Size, Source};
use texttv::config::{render_path, resolve_settings, Config, Environment, RenderPath};

fn args() -> Args {
    Args {
        page: Some(300),
        mode: None,
        size: None,
        source: None,
        no_color: false,
        list: false,
        debug_protocol: false,
        verbose: false,
        interactive: false,
        no_padding: false,
    }
}

fn tty(mode: Mode) -> Environment {
    Environment { stdout_tty: true, no_color: false, timings: false, terminal_mode: mode }
}

#[test]
fn defaults_follow_the_terminal() {
    let s = resolve_settings(&args(), &Config::default(), &tty(Mode::Auto));
    assert_eq!(s.mode, Mode::Auto);
    assert_eq!(s.size, Size::Medium);
    assert_eq!(s.source, Source::Svt);
    assert!(s.color && s.padding && !s.verbose);
    assert_eq!(render_path(&s), RenderPath::Images);
    let t = resolve_settings(&args(), &Config::default(), &tty(Mode::Teletext));
    assert_eq!(t.source, Source::TexttvNu);
    assert_eq!(render_path(&t), RenderPath::Colored);
}

#[test]
fn flags_win_over_config_and_config_over_defaults() {
    let cfg = Config {
        mode: Some(Mode::Blocks),
        size: Some(Size::Large),
        source: Some(Source::Svt),
        no_color: None,
        padding: Some(false),
        verbose: Some(true),
    };
    let s = resolve_settings(&args(), &cfg, &tty(Mode::Auto));
    assert_eq!((s.mode, s.size, s.source), (Mode::Blocks, Size::Large, Source::Svt));
    assert!(!s.padding && s.verbose);
    let mut a = args();
    a.mode = Some(Mode::Teletext);
    a.size = Some(Size::Tiny);
    a.source = Some(Source::TexttvNu);
    let s = resolve_settings(&a, &cfg, &tty(Mode::Auto));
    assert_eq!((s.mode, s.size, s.source), (Mode::Teletext, Size::Tiny, Source::TexttvNu));
}

#[test]
fn piped_output_is_plain_teletext() {
    let mut a = args();
    a.mode = Some(Mode::Kitty);
    let env = Environment { stdout_tty: false, no_color: false, timings: false, terminal_mode: Mode::Auto };
    let s = resolve_settings(&a, &Config::default(), &env);
    assert_eq!(s.mode, Mode::Teletext);
    assert!(!s.color);
    assert_eq!(render_path(&s), RenderPath::Plain);
}

#[test]
fn no_color_sources() {
    let mut a = args();
    a.no_color = true;
    assert!(!resolve_settings(&a, &Config::default(), &tty(Mode::Teletext)).color);
    let cfg = Config { no_color: Some(true), ..Config::default() };
    assert!(!resolve_settings(&args(), &cfg, &tty(Mode::Teletext)).color);
    let env = Environment { no_color: true, ..tty(Mode::Teletext) };
    assert!(!resolve_settings(&args(), &Config::default(), &env).color);
}

#[test]
fn svt_text_in_teletext_mode() {
    let mut a = args();
    a.source = Some(Source::Svt);
    let s = resolve_settings(&a, &Config::default(), &tty(Mode::Teletext));
    assert_eq!(render_path(&s), RenderPath::SvtText);
}
