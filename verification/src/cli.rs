//! Command-line vocabulary: rendering modes, sources, sizes, page-number
//! validation and the section index.

use vstd::prelude::*;

use crate::textutil::{
    all_digits, char_is_digit, chars_of, dec, is_digit, push_char, push_decimal, push_str, repeat_char,
};

verus! {

broadcast use vstd::string::group_string_axioms;

#[derive(Debug, Clone, Copy, PartialEq, Eq, Structural)]
pub enum Mode {
    /// Let the terminal's best image protocol draw the page GIF.
    Auto,
    /// Force Kitty graphics protocol.
    Kitty,
    /// Force iTerm2 inline-image protocol.
    Iterm,
    /// Force Unicode half-block fallback.
    Blocks,
    /// Reproduce the 40-column teletext layout with per-cell colors.
    Teletext,
}

#[derive(Debug, Clone, Copy, PartialEq, Eq, Structural)]
pub enum Source {
    /// svt.se/text-tv/<PAGE>.
    Svt,
    /// The JSON proxy at api.texttv.nu.
    TexttvNu,
}

/// Render size for image modes. Ignored in teletext mode.
#[derive(Debug, Clone, Copy, PartialEq, Eq, Structural)]
pub enum Size {
    /// 30 cells wide.
    Tiny,
    /// 45 cells wide.
    Small,
    /// 60 cells wide. The default.
    Medium,
    /// 90 cells wide.
    Large,
    /// 120 cells wide.
    Xl,
    /// Fill the terminal width.
    Full,
}

impl Size {
    pub open spec fn spec_width(self, term_cols: u32) -> u32 {
        match self {
            Size::Tiny => 30,
            Size::Small => 45,
            Size::Medium => 60,
            Size::Large => 90,
            Size::Xl => 120,
            Size::Full => if term_cols == 0 {
                200
            } else if term_cols > 4000 {
                4000
            } else {
                term_cols
            },
        }
    }

    /// Resolve to a cell width; `term_cols` is the detected terminal width
    /// (0 if undetectable), used by `Full` and capped at 4000.
    pub fn to_width(self, term_cols: u32) -> (r: u32)
        ensures
            r == self.spec_width(term_cols),
            1 <= r <= 4000,
    {
        match self {
            Size::Tiny => 30,
            Size::Small => 45,
            Size::Medium => 60,
            Size::Large => 90,
            Size::Xl => 120,
            Size::Full => {
                if term_cols == 0 {
                    200
                } else if term_cols > 4000 {
                    4000
                } else {
                    term_cols
                }
            },
        }
    }
}

/// Parsed command-line arguments.
#[derive(Debug)]
pub struct Args {
    /// Page number in 100..=999. Omitted only with `list`.
    pub page: Option<u16>,
    /// Rendering mode; when unset, chosen by the terminal.
    pub mode: Option<Mode>,
    /// Render size for image modes.
    pub size: Option<Size>,
    /// Data source.
    pub source: Option<Source>,
    /// Strip ANSI color and the right-edge frame.
    pub no_color: bool,
    /// Print the section index and exit.
    pub list: bool,
    /// Print the detected rendering protocol before drawing.
    pub debug_protocol: bool,
    /// Per-phase timing traces on stderr.
    pub verbose: bool,
    /// Open the interactive page browser.
    pub interactive: bool,
    /// Drop the blank rows above and below the page.
    pub no_padding: bool,
}

/// What a run of the program does.
#[derive(Debug, Clone, Copy, PartialEq, Eq, Structural)]
pub enum Command {
    /// Print the section index.
    List,
    /// Browse interactively, starting at the page.
    Interactive(u16),
    /// Show one page.
    Single(u16),
}

/// The page the interactive browser opens when none is given.
pub const DEFAULT_INTERACTIVE_PAGE: u16 = 100;

pub open spec fn spec_command(args: Args) -> Option<Command> {
    if args.list {
        Some(Command::List)
    } else if args.interactive {
        Some(
            Command::Interactive(
                match args.page {
                    Some(p) => p,
                    None => DEFAULT_INTERACTIVE_PAGE,
                },
            ),
        )
    } else {
        match args.page {
            Some(p) => Some(Command::Single(p)),
            None => None,
        }
    }
}

/// What the arguments ask for: the section index with `list`, the browser
/// with `interactive` (at page 100 unless one is given), else the one page
/// given; `Err` with the message for the user when no page is given.
pub fn command_of(args: &Args) -> (r: Result<Command, String>)
    ensures
        match spec_command(*args) {
            Some(c) => r == Ok::<Command, String>(c),
            None => r matches Err(m) && m@ == "PAGE is required"@,
        },
{
    if args.list {
        Ok(Command::List)
    } else if args.interactive {
        Ok(
            Command::Interactive(
                match args.page {
                    Some(p) => p,
                    None => DEFAULT_INTERACTIVE_PAGE,
                },
            ),
        )
    } else {
        match args.page {
            Some(p) => Ok(Command::Single(p)),
            None => {
                let mut m = String::new();
                push_str(&mut m, "PAGE is required");
                Err(m)
            },
        }
    }
}

// ---------------------------------------------------------------------------
// Page numbers
// ---------------------------------------------------------------------------

/// The value of a run of ASCII digits.
pub open spec fn digits_value(s: Seq<char>) -> int
    decreases s.len(),
{
    if s.len() == 0 {
        0
    } else {
        10 * digits_value(s.drop_last()) + (s.last() as int - 48)
    }
}

/// `s` without one leading `+`.
pub open spec fn sign_stripped(s: Seq<char>) -> Seq<char> {
    if s.len() > 0 && s[0] == '+' {
        s.skip(1)
    } else {
        s
    }
}

/// `u16`'s `FromStr`: an optional `+`, then at least one ASCII digit, with a
/// value that fits in 16 bits.
pub open spec fn spec_parse_u16(s: Seq<char>) -> Option<u16> {
    let digits = sign_stripped(s);
    if digits.len() > 0 && all_digits(digits) && digits_value(digits) <= 65535 {
        Some(digits_value(digits) as u16)
    } else {
        None
    }
}

pub open spec fn not_a_number_message(s: Seq<char>) -> Seq<char> {
    "'"@ + s + "' is not a number; PAGE must be 100..=999"@
}

pub open spec fn out_of_range_message(n: u16) -> Seq<char> {
    "PAGE must be in 100..=999, got "@ + dec(n as nat)
}

proof fn lemma_parse_u16_none(s: Seq<char>, digits: Seq<char>, k: int)
    requires
        digits == sign_stripped(s),
        0 <= k < digits.len(),
        !is_digit(digits[k]) || digits_value(digits) > 65535,
    ensures
        spec_parse_u16(s) is None,
{
}

proof fn lemma_digits_value_nonneg(s: Seq<char>)
    requires
        forall|i: int| 0 <= i < s.len() ==> is_digit(#[trigger] s[i]),
    ensures
        digits_value(s) >= 0,
    decreases s.len(),
{
    if s.len() > 0 {
        lemma_digits_value_nonneg(s.drop_last());
    }
}

/// Parse an unsigned 16-bit number as `u16::from_str` does.
#[verifier::spinoff_prover]
pub fn parse_u16(s: &str) -> (r: Option<u16>)
    ensures
        r == spec_parse_u16(s@),
{
    let cs = chars_of(s);
    let start: usize = if cs.len() > 0 && cs[0] == '+' {
        1
    } else {
        0
    };
    let ghost digits = if s@.len() > 0 && s@[0] == '+' {
        s@.skip(1)
    } else {
        s@
    };
    assert(digits == cs@.skip(start as int));
    if start >= cs.len() {
        return None;
    }
    let mut v: u32 = 0;
    let mut i: usize = start;
    while i < cs.len()
        invariant
            start <= i <= cs.len(),
            cs@ == s@,
            digits == cs@.skip(start as int),
            digits == sign_stripped(s@),
            forall|j: int| 0 <= j < i - start ==> is_digit(#[trigger] digits[j]),
            v as int == digits_value(digits.take(i - start)),
            v <= 65535,
        decreases cs.len() - i,
    {
        let c = cs[i];
        assert(digits.take(i - start + 1).drop_last() == digits.take(i - start));
        assert(digits[i - start] == c);
        if !char_is_digit(c) {
            assert(!is_digit(digits[i - start]));
            proof {
                lemma_parse_u16_none(s@, digits, i - start);
            }
            return None;
        }
        let nv: u32 = 10 * v + (c as u32 - 48);
        if nv > 65535 {
            proof {
                // Every further digit only grows the value.
                assert(digits.take(i - start + 1).last() == c);
                assert(digits_value(digits.take(i - start + 1)) == 10 * v + (c as int - 48));
                if all_digits(digits) {
                    lemma_digits_prefix_grow(digits, i - start + 1);
                    lemma_parse_u16_none(s@, digits, i - start);
                } else {
                    let k = choose|j: int| 0 <= j < digits.len() && !is_digit(#[trigger] digits[j]);
                    lemma_parse_u16_none(s@, digits, k);
                }
            }
            return None;
        }
        v = nv;
        i = i + 1;
    }
    assert(digits.take(i - start) == digits);
    Some(v as u16)
}

proof fn lemma_digits_prefix_grow(d: Seq<char>, k: int)
    requires
        0 < k <= d.len(),
        forall|j: int| 0 <= j < d.len() ==> is_digit(#[trigger] d[j]),
    ensures
        digits_value(d) >= digits_value(d.take(k)),
    decreases d.len() - k,
{
    if k < d.len() {
        lemma_digits_prefix_grow(d.drop_last(), k);
        assert(d.drop_last().take(k) == d.take(k));
        lemma_digits_value_nonneg(d.drop_last());
        assert(forall|j: int| 0 <= j < d.drop_last().len() ==> is_digit(#[trigger] d.drop_last()[j]));
        lemma_digits_value_nonneg(d.drop_last());
    } else {
        assert(d.take(k) == d);
    }
}

/// Validate a page number: a `u16` in 100..=999, with the message the
/// command line shows otherwise.
pub fn parse_page(s: &str) -> (r: Result<u16, String>)
    ensures
        match spec_parse_u16(s@) {
            None => r matches Err(m) && m@ == not_a_number_message(s@),
            Some(n) => if 100 <= n <= 999 {
                r == Ok::<u16, String>(n)
            } else {
                r matches Err(m) && m@ == out_of_range_message(n)
            },
        },
{
    match parse_u16(s) {
        None => {
            let mut m = String::new();
            push_str(&mut m, "'");
            push_str(&mut m, s);
            push_str(&mut m, "' is not a number; PAGE must be 100..=999");
            Err(m)
        },
        Some(n) => {
            if 100 <= n && n <= 999 {
                Ok(n)
            } else {
                let mut m = String::new();
                push_str(&mut m, "PAGE must be in 100..=999, got ");
                push_decimal(&mut m, n as u32);
                Err(m)
            }
        },
    }
}

// ---------------------------------------------------------------------------
// Section index
// ---------------------------------------------------------------------------

/// The well-known pages and their names.
pub open spec fn section_table() -> Seq<(u16, Seq<char>)> {
    seq![
        (100u16, "Innehåll / Nyheter"@),
        (104u16, "Inrikes"@),
        (130u16, "Utrikes"@),
        (200u16, "Ekonomi"@),
        (300u16, "Sport"@),
        (377u16, "Tippstips"@),
        (400u16, "Vädret"@),
        (500u16, "TV-tablå"@),
        (600u16, "Kultur & Nöje"@),
        (700u16, "Konsument"@),
        (800u16, "Programinfo"@),
        (888u16, "Text-TV-information"@),
    ]
}

/// The well-known pages and their names.
pub fn sections() -> (r: Vec<(u16, &'static str)>)
    ensures
        r@.len() == section_table().len(),
        forall|i: int|
            0 <= i < r@.len() ==> (#[trigger] r@[i]).0 == section_table()[i].0 && r@[i].1@
                == section_table()[i].1,
{
    let mut v: Vec<(u16, &'static str)> = Vec::new();
    v.push((100, "Innehåll / Nyheter"));
    v.push((104, "Inrikes"));
    v.push((130, "Utrikes"));
    v.push((200, "Ekonomi"));
    v.push((300, "Sport"));
    v.push((377, "Tippstips"));
    v.push((400, "Vädret"));
    v.push((500, "TV-tablå"));
    v.push((600, "Kultur & Nöje"));
    v.push((700, "Konsument"));
    v.push((800, "Programinfo"));
    v.push((888, "Text-TV-information"));
    v
}

/// `n` right-aligned in a field three characters wide.
pub open spec fn right_aligned3(n: nat) -> Seq<char> {
    let d = dec(n);
    if d.len() >= 3 {
        d
    } else {
        repeat_char(' ', (3 - d.len()) as nat) + d
    }
}

/// One index row: `"  <page>  <name>\n"`.
pub open spec fn section_row(page: u16, name: Seq<char>) -> Seq<char> {
    "  "@ + right_aligned3(page as nat) + "  "@ + name + seq!['\n']
}

/// The rows of the first `k` sections.
pub open spec fn section_rows(k: int) -> Seq<char>
    decreases k,
{
    if k <= 0 {
        Seq::empty()
    } else {
        section_rows(k - 1) + section_row(section_table()[k - 1].0, section_table()[k - 1].1)
    }
}

/// The whole index as printed by `--list`.
pub open spec fn sections_listing() -> Seq<char> {
    "SVT Text-TV — well-known pages:"@ + seq!['\n'] + section_rows(section_table().len() as int)
}

/// The section index, as text.
#[verifier::spinoff_prover]
pub fn sections_text() -> (r: String)
    ensures
        r@ == sections_listing(),
{
    let table = sections();
    let mut out = String::new();
    push_str(&mut out, "SVT Text-TV — well-known pages:");
    push_char(&mut out, '\n');
    let mut k: usize = 0;
    while k < table.len()
        invariant
            k <= table@.len(),
            table@.len() == section_table().len(),
            forall|i: int|
                0 <= i < table@.len() ==> (#[trigger] table@[i]).0 == section_table()[i].0
                    && table@[i].1@ == section_table()[i].1,
            out@ == "SVT Text-TV — well-known pages:"@ + seq!['\n'] + section_rows(k as int),
        decreases table.len() - k,
    {
        let (page, name) = table[k];
        let ghost before = out@;
        push_str(&mut out, "  ");
        let mut digits = String::new();
        push_decimal(&mut digits, page as u32);
        let dcs = chars_of(digits.as_str());
        if dcs.len() < 3 {
            crate::textutil::push_repeat(&mut out, ' ', 3 - dcs.len());
        }
        crate::textutil::push_chars(&mut out, dcs.as_slice());
        push_str(&mut out, "  ");
        push_str(&mut out, name);
        push_char(&mut out, '\n');
        assert(out@ == before + section_row(page, name@));
        k = k + 1;
    }
    out
}

#[verifier::external_type_specification]
#[verifier::external_body]
pub struct ExIoError(std::io::Error);

/// Write the section index to `out` as UTF-8.
pub fn print_sections(out: &mut Vec<u8>) -> (r: std::io::Result<()>)
    ensures
        r is Ok,
        final(out)@ == old(out)@ + vstd::utf8::encode_utf8(sections_listing()),
{
    let text = sections_text();
    let bytes = text.as_str().as_bytes();
    out.extend_from_slice(bytes);
    Ok(())
}


pub proof fn lemma_dec_digits(n: nat)
    ensures
        dec(n).len() >= 1,
        all_digits(dec(n)),
        digits_value(dec(n)) == n,
    decreases n,
{
    if n < 10 {
        let t = dec(n);
        assert(crate::textutil::digit_char(n as int) as int == n + 48);
        assert(t.drop_last() =~= Seq::<char>::empty());
        assert(t.last() == crate::textutil::digit_char(n as int));
        assert(digits_value(t) == 10 * digits_value(t.drop_last()) + (t.last() as int - 48));
    } else {
        lemma_dec_digits(n / 10);
        let s = dec(n / 10);
        let t = s.push(crate::textutil::digit_char((n % 10) as int));
        assert(t.drop_last() == s);
        let d = (n % 10) as int;
        assert(crate::textutil::digit_char(d) as int == d + 48);
        assert(t.last() == crate::textutil::digit_char(d));
        assert(dec(n) == t);
        assert(digits_value(t) == 10 * digits_value(s) + (t.last() as int - 48));
        assert(10 * (n / 10) + d == n);
        assert forall|i: int| 0 <= i < t.len() implies is_digit(#[trigger] t[i]) by {
            if i < s.len() {
                assert(t[i] == s[i]);
            }
        }
    }
}

/// Page numbers read back: the decimal text of any 16-bit number parses to
/// that number, so every page from 100 to 999 passes `parse_page`.
pub proof fn law_page_numbers_read_back(n: u16)
    ensures
        spec_parse_u16(dec(n as nat)) == Some(n),
{
    lemma_dec_digits(n as nat);
    assert(sign_stripped(dec(n as nat)) == dec(n as nat));
}

/// Number text reads as `u16::from_str` reads it: the decimal text of any
/// 16-bit number, with or without one leading `+` and leading zeros, reads
/// back as that number; what reads as a number is nonempty and made of
/// digits after at most one leading `+`.
pub proof fn law_number_text(n: u16, s: Seq<char>)
    ensures
        spec_parse_u16(dec(n as nat)) == Some(n),
        spec_parse_u16(seq!['+'] + dec(n as nat)) == Some(n),
        spec_parse_u16(seq!['0'] + dec(n as nat)) == Some(n),
        spec_parse_u16(s) is Some ==> {
            let d = if s.len() > 0 && s[0] == '+' {
                s.skip(1)
            } else {
                s
            };
            &&& d.len() > 0
            &&& forall|i: int| 0 <= i < d.len() ==> '0' <= #[trigger] d[i] <= '9'
        },
        spec_parse_u16(Seq::empty()) is None,
        spec_parse_u16(seq!['+']) is None,
{
    law_page_numbers_read_back(n);
    lemma_dec_digits(n as nat);
    let d = dec(n as nat);
    let p = seq!['+'] + d;
    assert(p.skip(1) =~= d);
    assert(d[0] != '+');
    assert(sign_stripped(p) == d);
    let z = seq!['0'] + d;
    assert(sign_stripped(z) == z);
    assert(z.drop_last() =~= seq!['0'] + d.drop_last());
    lemma_leading_zero(d);
    assert forall|i: int| 0 <= i < z.len() implies is_digit(#[trigger] z[i]) by {
        if i > 0 {
            assert(z[i] == d[i - 1]);
        }
    }
    assert(seq!['+'].skip(1) =~= Seq::<char>::empty());
}

proof fn lemma_leading_zero(d: Seq<char>)
    ensures
        digits_value(seq!['0'] + d) == digits_value(d),
    decreases d.len(),
{
    if d.len() == 0 {
        let z = seq!['0'];
        assert(seq!['0'] + d =~= z);
        assert(z.drop_last() =~= Seq::<char>::empty());
        assert(z.last() == '0');
        assert(('0' as int) == 48);
        assert(digits_value(z) == 10 * digits_value(z.drop_last()) + (z.last() as int - 48));
    } else {
        lemma_leading_zero(d.drop_last());
        assert((seq!['0'] + d).drop_last() =~= seq!['0'] + d.drop_last());
        assert((seq!['0'] + d).last() == d.last());
    }
}

/// The image sizes grow from tiny to extra large (30, 45, 60, 90 and 120
/// cells); `full` takes the terminal's width, kept within 1 to 4000, and 200
/// cells when the width is unknown.
pub proof fn law_size_widths(term_cols: u32)
    ensures
        Size::Tiny.spec_width(term_cols) == 30,
        Size::Small.spec_width(term_cols) == 45,
        Size::Medium.spec_width(term_cols) == 60,
        Size::Large.spec_width(term_cols) == 90,
        Size::Xl.spec_width(term_cols) == 120,
        1 <= term_cols <= 4000 ==> Size::Full.spec_width(term_cols) == term_cols,
        term_cols > 4000 ==> Size::Full.spec_width(term_cols) == 4000,
        term_cols == 0 ==> Size::Full.spec_width(term_cols) == 200,
{
}

/// What a run does: the section index when asked for, whatever else is
/// given; else the browser, at the page given or at page 100; else the one
/// page given, which is then required.
pub proof fn law_command(args: Args)
    ensures
        args.list ==> spec_command(args) == Some(Command::List),
        !args.list && args.interactive ==> spec_command(args) == Some(
            Command::Interactive(
                match args.page {
                    Some(p) => p,
                    None => 100u16,
                },
            ),
        ),
        !args.list && !args.interactive ==> spec_command(args) == (match args.page {
            Some(p) => Some(Command::Single(p)),
            None => None,
        }),
{
}

} // verus!
