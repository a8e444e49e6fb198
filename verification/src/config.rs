//! User settings: the configuration file's fields and how command-line
//! flags, the configuration file, the environment and built-in defaults
//! combine into the settings of one run.

use vstd::prelude::*;

use crate::cli::{Args, Mode, Size, Source};

verus! {

/// User configuration from `config.yaml`. Every field is optional.
#[derive(Debug, Clone, Copy, PartialEq, Eq, Structural)]
pub struct Config {
    pub mode: Option<Mode>,
    pub size: Option<Size>,
    pub source: Option<Source>,
    pub no_color: Option<bool>,
    /// A blank row above and below the page.
    pub padding: Option<bool>,
    /// Per-phase timing traces on stderr.
    pub verbose: Option<bool>,
}

impl Default for Config {
    /// The empty configuration: every field unset.
    fn default() -> (r: Config)
        ensures
            r == (Config {
                mode: None,
                size: None,
                source: None,
                no_color: None,
                padding: None,
                verbose: None,
            }),
    {
        Config { mode: None, size: None, source: None, no_color: None, padding: None, verbose: None }
    }
}

/// What the program learns from its surroundings.
#[derive(Debug, Clone, Copy, PartialEq, Eq, Structural)]
pub struct Environment {
    /// Standard output is a terminal.
    pub stdout_tty: bool,
    /// `NO_COLOR` is set.
    pub no_color: bool,
    /// `TEXTTV_TIMINGS` is set.
    pub timings: bool,
    /// The rendering mode the terminal calls for (see `render::default_mode`).
    pub terminal_mode: Mode,
}

/// The settings of one run.
#[derive(Debug, Clone, Copy, PartialEq, Eq, Structural)]
pub struct Settings {
    pub mode: Mode,
    pub size: Size,
    pub source: Source,
    /// ANSI colors and the right-edge frame.
    pub color: bool,
    /// A blank row above and below the page.
    pub padding: bool,
    /// Per-phase timing traces on stderr.
    pub verbose: bool,
}

/// The first of a flag, a configuration value and a default that is set.
pub open spec fn pick<T>(flag: Option<T>, file: Option<T>, default: T) -> T {
    match flag {
        Some(v) => v,
        None => match file {
            Some(v) => v,
            None => default,
        },
    }
}

pub open spec fn spec_settings(args: Args, cfg: Config, env: Environment) -> Settings {
    let chosen = pick(args.mode, cfg.mode, env.terminal_mode);
    let mode = if !env.stdout_tty {
        Mode::Teletext
    } else {
        chosen
    };
    Settings {
        mode,
        size: pick(args.size, cfg.size, Size::Medium),
        source: pick(
            args.source,
            cfg.source,
            if mode == Mode::Teletext {
                Source::TexttvNu
            } else {
                Source::Svt
            },
        ),
        color: !args.no_color && cfg.no_color != Some(true) && !env.no_color && env.stdout_tty,
        padding: !args.no_padding && cfg.padding != Some(false),
        verbose: args.verbose || cfg.verbose == Some(true) || env.timings,
    }
}

fn pick_mode(flag: Option<Mode>, file: Option<Mode>, default: Mode) -> (r: Mode)
    ensures
        r == pick(flag, file, default),
{
    match flag {
        Some(v) => v,
        None => match file {
            Some(v) => v,
            None => default,
        },
    }
}

fn pick_size(flag: Option<Size>, file: Option<Size>, default: Size) -> (r: Size)
    ensures
        r == pick(flag, file, default),
{
    match flag {
        Some(v) => v,
        None => match file {
            Some(v) => v,
            None => default,
        },
    }
}

fn pick_source(flag: Option<Source>, file: Option<Source>, default: Source) -> (r: Source)
    ensures
        r == pick(flag, file, default),
{
    match flag {
        Some(v) => v,
        None => match file {
            Some(v) => v,
            None => default,
        },
    }
}

/// The settings of a run: each choice from the command line if given, else
/// from the configuration file, else the built-in default (the mode the
/// terminal calls for, `medium`, `texttv-nu` for teletext and `svt` for
/// images). Output that is not a terminal gets teletext and no colors;
/// `--no-color`, `no_color: true` and `NO_COLOR` turn colors off.
pub fn resolve_settings(args: &Args, cfg: &Config, env: &Environment) -> (r: Settings)
    ensures
        r == spec_settings(*args, *cfg, *env),
{
    let chosen = pick_mode(args.mode, cfg.mode, env.terminal_mode);
    let mode = if !env.stdout_tty {
        Mode::Teletext
    } else {
        chosen
    };
    let default_source = match mode {
        Mode::Teletext => Source::TexttvNu,
        _ => Source::Svt,
    };
    let cfg_no_color = match cfg.no_color {
        Some(b) => b,
        None => false,
    };
    let cfg_padding = match cfg.padding {
        Some(b) => b,
        None => true,
    };
    let cfg_verbose = match cfg.verbose {
        Some(b) => b,
        None => false,
    };
    Settings {
        mode,
        size: pick_size(args.size, cfg.size, Size::Medium),
        source: pick_source(args.source, cfg.source, default_source),
        color: !args.no_color && !cfg_no_color && !env.no_color && env.stdout_tty,
        padding: !args.no_padding && cfg_padding,
        verbose: args.verbose || cfg_verbose || env.timings,
    }
}

/// Command-line flags win over the configuration file and the defaults
/// (the mode on a terminal; piped output always gets teletext).
pub proof fn law_flags_win(args: Args, cfg: Config, env: Environment)
    ensures
        args.mode is Some && env.stdout_tty ==> spec_settings(args, cfg, env).mode == args.mode->0,
        args.size is Some ==> spec_settings(args, cfg, env).size == args.size->0,
        args.source is Some ==> spec_settings(args, cfg, env).source == args.source->0,
        args.no_color ==> !spec_settings(args, cfg, env).color,
        args.no_padding ==> !spec_settings(args, cfg, env).padding,
        args.verbose ==> spec_settings(args, cfg, env).verbose,
{
}

/// Where a flag is absent, the configuration file wins over the defaults.
pub proof fn law_config_over_defaults(args: Args, cfg: Config, env: Environment)
    ensures
        args.mode is None && cfg.mode is Some && env.stdout_tty ==> spec_settings(
            args,
            cfg,
            env,
        ).mode == cfg.mode->0,
        args.size is None && cfg.size is Some ==> spec_settings(args, cfg, env).size
            == cfg.size->0,
        args.source is None && cfg.source is Some ==> spec_settings(args, cfg, env).source
            == cfg.source->0,
        cfg.no_color == Some(true) ==> !spec_settings(args, cfg, env).color,
        !args.no_padding && cfg.padding is Some ==> spec_settings(args, cfg, env).padding
            == cfg.padding->0,
        !args.verbose && !env.timings && cfg.verbose is Some ==> spec_settings(
            args,
            cfg,
            env,
        ).verbose == cfg.verbose->0,
{
}

/// With nothing configured, the built-in defaults apply: the terminal's
/// mode, `medium`, the source that suits the mode, colors on a terminal
/// unless `NO_COLOR` is set, padding on.
pub proof fn law_defaults(args: Args, env: Environment)
    requires
        args.mode is None,
        args.size is None,
        args.source is None,
        !args.no_color,
        !args.no_padding,
    ensures
        ({
            let s = spec_settings(args, Config::spec_empty(), env);
            &&& env.stdout_tty ==> s.mode == env.terminal_mode
            &&& s.size == Size::Medium
            &&& s.source == (if s.mode == Mode::Teletext {
                Source::TexttvNu
            } else {
                Source::Svt
            })
            &&& s.color == (env.stdout_tty && !env.no_color)
            &&& s.padding
        }),
{
}

/// Output that is not a terminal is always teletext without colors.
pub proof fn law_piped_output_is_plain_teletext(args: Args, cfg: Config, env: Environment)
    requires
        !env.stdout_tty,
    ensures
        spec_settings(args, cfg, env).mode == Mode::Teletext,
        !spec_settings(args, cfg, env).color,
{
}

impl Config {
    /// The empty configuration.
    pub open spec fn spec_empty() -> Config {
        Config { mode: None, size: None, source: None, no_color: None, padding: None, verbose: None }
    }
}

/// How one page gets onto the screen.
#[derive(Debug, Clone, Copy, PartialEq, Eq, Structural)]
pub enum RenderPath {
    /// texttv.nu's page, drawn cell by cell in color.
    Colored,
    /// texttv.nu's page as plain text.
    Plain,
    /// SVT's page text.
    SvtText,
    /// SVT's page images.
    Images,
}

pub open spec fn spec_render_path(s: Settings) -> RenderPath {
    match s.source {
        Source::Svt => if s.mode == Mode::Teletext {
            RenderPath::SvtText
        } else {
            RenderPath::Images
        },
        Source::TexttvNu => if s.color {
            RenderPath::Colored
        } else {
            RenderPath::Plain
        },
    }
}

/// The render path of a run: texttv.nu carries colors but no page images,
/// so it is drawn as colored cells (plain text without colors); SVT's page
/// gives its images in the image modes and its text in teletext mode.
pub fn render_path(s: &Settings) -> (r: RenderPath)
    ensures
        r == spec_render_path(*s),
{
    match s.source {
        Source::Svt => match s.mode {
            Mode::Teletext => RenderPath::SvtText,
            _ => RenderPath::Images,
        },
        Source::TexttvNu => if s.color {
            RenderPath::Colored
        } else {
            RenderPath::Plain
        },
    }
}

/// Images are only ever drawn to a terminal, and never without an image mode.
pub proof fn law_images_only_on_terminal(args: Args, cfg: Config, env: Environment)
    ensures
        spec_render_path(spec_settings(args, cfg, env)) == RenderPath::Images ==> env.stdout_tty
            && spec_settings(args, cfg, env).mode != Mode::Teletext,
{
}

} // verus!
