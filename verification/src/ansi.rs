//! ANSI escape sequences: truecolor styling as `owo-colors` writes it and
//! cursor placement as `crossterm` writes it.

use vstd::prelude::*;

use crate::textutil::dec;

verus! {

/// `ESC [ 38;2;r;g;b m`: truecolor foreground.
pub open spec fn fg_open(c: (u8, u8, u8)) -> Seq<char> {
    "\x1b[38;2;"@ + dec(c.0 as nat) + ";"@ + dec(c.1 as nat) + ";"@ + dec(c.2 as nat) + "m"@
}

/// `ESC [ 48;2;r;g;b m`: truecolor background.
pub open spec fn bg_open(c: (u8, u8, u8)) -> Seq<char> {
    "\x1b[48;2;"@ + dec(c.0 as nat) + ";"@ + dec(c.1 as nat) + ";"@ + dec(c.2 as nat) + "m"@
}

/// `ESC [ 39 m`: default foreground.
pub open spec fn fg_close() -> Seq<char> {
    "\x1b[39m"@
}

/// `ESC [ 49 m`: default background.
pub open spec fn bg_close() -> Seq<char> {
    "\x1b[49m"@
}

/// `text` in foreground `fg` on background `bg`: the background is set
/// outermost, the foreground inside it, each reset after the text.
pub open spec fn painted(text: Seq<char>, fg: (u8, u8, u8), bg: (u8, u8, u8)) -> Seq<char> {
    bg_open(bg) + fg_open(fg) + text + fg_close() + bg_close()
}

/// `text` on background `bg`.
pub open spec fn on_bg(text: Seq<char>, bg: (u8, u8, u8)) -> Seq<char> {
    bg_open(bg) + text + bg_close()
}

/// `ESC [ row+1 ; col+1 H`: move the cursor to 0-based `(col, row)`.
pub open spec fn cursor_to_seq(col: u16, row: u16) -> Seq<char> {
    "\x1b["@ + dec(row as nat + 1) + ";"@ + dec(col as nat + 1) + "H"@
}

/// `text.truecolor(fg).on_truecolor(bg)` of `owo_colors::OwoColorize`,
/// displayed. Claimed: the result is `painted(text, fg, bg)`, as the crate's
/// `FgDynColorDisplay` and `BgDynColorDisplay` write it.
#[verifier::external_body]
pub(crate) fn paint(text: &str, fg: (u8, u8, u8), bg: (u8, u8, u8)) -> (r: String)
    ensures
        r@ == painted(text@, fg, bg),
{
    let styled = owo_colors::OwoColorize::truecolor(&text, fg.0, fg.1, fg.2);
    format!("{}", owo_colors::OwoColorize::on_truecolor(&styled, bg.0, bg.1, bg.2))
}

/// `text.on_truecolor(bg)` of `owo_colors::OwoColorize`, displayed.
/// Claimed: the result is `on_bg(text, bg)`.
#[verifier::external_body]
pub(crate) fn paint_bg(text: &str, bg: (u8, u8, u8)) -> (r: String)
    ensures
        r@ == on_bg(text@, bg),
{
    format!("{}", owo_colors::OwoColorize::on_truecolor(&text, bg.0, bg.1, bg.2))
}

/// The ANSI form of `crossterm::cursor::MoveTo(col, row)`. Claimed: it is
/// `cursor_to_seq(col, row)`. The command adds one to each coordinate, so
/// the largest `u16` is left out.
#[verifier::external_body]
pub(crate) fn cursor_to(col: u16, row: u16) -> (r: String)
    requires
        col < 65535,
        row < 65535,
    ensures
        r@ == cursor_to_seq(col, row),
{
    let mut s = String::new();
    let _ = crossterm::Command::write_ansi(&crossterm::cursor::MoveTo(col, row), &mut s);
    s
}

} // verus!
