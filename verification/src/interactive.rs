//! The interactive page browser's state machine: link scanning, key
//! handling, fetch bookkeeping and the screen image.

use vstd::prelude::*;

use crate::ansi::{cursor_to, cursor_to_seq, on_bg, paint, paint_bg, painted};
use crate::mosaic::PatternCache;
use crate::parse::{Cell, ColoredPage, Line, TtColor};
use crate::render::{line_out, write_line};
use crate::textutil::{
    all_digits, char_is_digit, opt_view, chars_of, dec, dec_padded, is_digit, push_char, push_decimal, push_decimal_padded,
    push_repeat, push_str, repeat_char,
};

verus! {

broadcast use vstd::string::group_string_axioms;

// ---------------------------------------------------------------------------
// Link scanning
// ---------------------------------------------------------------------------

/// The columns a cell occupies on screen: a mosaic is one placeholder space.
pub open spec fn cell_chars(c: Cell) -> Seq<char> {
    if c.mosaic_url is Some {
        seq![' ']
    } else {
        c.text@
    }
}

/// The characters of a run of cells, one per column.
pub open spec fn cells_chars(cells: Seq<Cell>) -> Seq<char>
    decreases cells.len(),
{
    if cells.len() == 0 {
        Seq::empty()
    } else {
        cells_chars(cells.drop_last()) + cell_chars(cells.last())
    }
}

/// The characters of a line, one per column.
pub open spec fn line_chars(l: Line) -> Seq<char> {
    cells_chars(l.cells@)
}

/// A three-digit page reference scanned out of a rendered teletext page.
#[derive(Debug, Clone, Copy, PartialEq, Eq, Structural)]
pub struct Link {
    /// 0-based row within the page body.
    pub row: u16,
    /// 0-based column of the leading space cell.
    pub col_start: u16,
    /// Width of the highlight: the digits, an optional `f`, and at most one
    /// flanking space or dash on each side.
    pub col_len: u16,
    /// The 3-digit number. 0..=999.
    pub target: u16,
    /// `false` when `target < 100`.
    pub followable: bool,
}

pub open spec fn is_sep(c: char) -> bool {
    c == ' ' || c == '-'
}

/// A link starts at column `i`: three digits, preceded by a space, a dash or
/// the line's start, and followed by a space, a dash, the multi-page `f` or
/// the line's end. (Longer digit runs and numbers such as `100.000` fail.)
pub open spec fn is_link_at(cs: Seq<char>, i: int) -> bool {
    &&& 0 <= i
    &&& i + 3 <= cs.len()
    &&& is_digit(cs[i])
    &&& is_digit(cs[i + 1])
    &&& is_digit(cs[i + 2])
    &&& (i == 0 || is_sep(cs[i - 1]))
    &&& (i + 3 == cs.len() || is_sep(cs[i + 3]) || cs[i + 3] == 'f')
}

pub open spec fn digit_value(c: char) -> int {
    c as int - 48
}

/// End of a link's core: after the digits and an optional `f`.
pub open spec fn link_core_end(cs: Seq<char>, i: int) -> int {
    if i + 3 < cs.len() && cs[i + 3] == 'f' {
        i + 4
    } else {
        i + 3
    }
}

/// The link starting at column `i` of row `row`.
pub open spec fn link_of(cs: Seq<char>, row: int, i: int) -> Link {
    let core_end = link_core_end(cs, i);
    let left_pad: int = if i > 0 && is_sep(cs[i - 1]) {
        1
    } else {
        0
    };
    let right_pad: int = if core_end < cs.len() && is_sep(cs[core_end]) {
        1
    } else {
        0
    };
    let target = 100 * digit_value(cs[i]) + 10 * digit_value(cs[i + 1]) + digit_value(cs[i + 2]);
    Link {
        row: row as u16,
        col_start: (i - left_pad) as u16,
        col_len: (core_end + right_pad - i + left_pad) as u16,
        target: target as u16,
        followable: target >= 100,
    }
}

/// The links of row `row` that start before column `k`, left to right.
pub open spec fn links_before(cs: Seq<char>, row: int, k: int) -> Seq<Link>
    decreases k,
{
    if k <= 0 {
        Seq::empty()
    } else {
        links_before(cs, row, k - 1) + if is_link_at(cs, k - 1) {
            seq![link_of(cs, row, k - 1)]
        } else {
            Seq::empty()
        }
    }
}

/// The links of the first `n` lines, row by row, left to right.
pub open spec fn links_of_lines(lines: Seq<Line>, n: int) -> Seq<Link>
    decreases n,
{
    if n <= 0 {
        Seq::empty()
    } else {
        let cs = line_chars(lines[n - 1]);
        links_of_lines(lines, n - 1) + links_before(cs, n - 1, cs.len() as int)
    }
}

/// All links of a page.
pub open spec fn spec_scan_links(lines: Seq<Line>) -> Seq<Link> {
    links_of_lines(lines, lines.len() as int)
}

/// The column characters of a line (mosaics as one space).
pub fn line_columns(line: &Line) -> (r: Vec<char>)
    ensures
        r@ == line_chars(*line),
{
    let mut out: Vec<char> = Vec::new();
    let mut k: usize = 0;
    while k < line.cells.len()
        invariant
            k <= line.cells@.len(),
            out@ == cells_chars(line.cells@.take(k as int)),
        decreases line.cells.len() - k,
    {
        let cell = &line.cells[k];
        proof {
            assert(line.cells@.take(k as int + 1).drop_last() == line.cells@.take(k as int));
        }
        if cell.is_mosaic() {
            out.push(' ');
        } else {
            let cs = chars_of(cell.text.as_str());
            let mut j: usize = 0;
            let ghost start = out@;
            while j < cs.len()
                invariant
                    j <= cs@.len(),
                    out@ == start + cs@.take(j as int),
                decreases cs.len() - j,
            {
                assert(cs@.take(j as int + 1) == cs@.take(j as int).push(cs@[j as int]));
                out.push(cs[j]);
                j = j + 1;
            }
            assert(cs@.take(cs.len() as int) == cs@);
        }
        k = k + 1;
    }
    assert(line.cells@.take(line.cells.len() as int) == line.cells@);
    out
}

proof fn lemma_links_before_no_new(cs: Seq<char>, row: int, from: int, to: int)
    requires
        from <= to,
        forall|j: int| from <= j < to ==> !is_link_at(cs, j),
    ensures
        links_before(cs, row, to) == links_before(cs, row, from),
    decreases to - from,
{
    if from < to {
        lemma_links_before_no_new(cs, row, from, to - 1);
        assert(links_before(cs, row, to) == links_before(cs, row, to - 1) + Seq::<Link>::empty());
    }
}

/// Scans one line's columns for links, appending them to `out`.
#[verifier::spinoff_prover]
fn scan_row(cs: &Vec<char>, row: usize, out: &mut Vec<Link>)
    ensures
        final(out)@ == old(out)@ + links_before(cs@, row as int, cs@.len() as int),
{
    let n = cs.len();
    let mut i: usize = 0;
    while n >= 3 && i <= n - 3
        invariant
            n == cs@.len(),
            i <= n,
            out@ == old(out)@ + links_before(cs@, row as int, i as int),
        decreases n - i,
    {
        if !(char_is_digit(cs[i]) && char_is_digit(cs[i + 1]) && char_is_digit(cs[i + 2])) {
            proof {
                lemma_links_before_no_new(cs@, row as int, i as int, i + 1);
            }
            i = i + 1;
            continue;
        }
        let prev_is_digit = i > 0 && char_is_digit(cs[i - 1]);
        let next_is_digit = i + 3 < n && char_is_digit(cs[i + 3]);
        if prev_is_digit || next_is_digit {
            // Part of a longer digit run; skip past all the digits.
            let mut j: usize = i;
            while j < n && char_is_digit(cs[j])
                invariant
                    n == cs@.len(),
                    i <= j <= n,
                    prev_is_digit || next_is_digit,
                    i + 3 <= n,
                    prev_is_digit == (i > 0 && is_digit(cs@[i - 1])),
                    next_is_digit == (i + 3 < n && is_digit(cs@[i + 3])),
                    is_digit(cs@[i as int]) && is_digit(cs@[i + 1]) && is_digit(cs@[i + 2]),
                    forall|m: int| i <= m < j ==> is_digit(#[trigger] cs@[m]),
                decreases n - j,
            {
                j = j + 1;
            }
            proof {
                assert forall|m: int| i <= m < j implies !is_link_at(cs@, m) by {
                    if m == i {
                        if prev_is_digit {
                            assert(!is_sep(cs@[i - 1]));
                        } else {
                            assert(is_digit(cs@[i + 3]));
                        }
                    } else {
                        assert(is_digit(cs@[m - 1]));
                    }
                }
                lemma_links_before_no_new(cs@, row as int, i as int, j as int);
            }
            i = j;
            continue;
        }
        let left_ok = i == 0 || cs[i - 1] == ' ' || cs[i - 1] == '-';
        let right_ok = i + 3 == n || cs[i + 3] == ' ' || cs[i + 3] == '-' || cs[i + 3] == 'f';
        if !(left_ok && right_ok) {
            proof {
                lemma_links_before_no_new(cs@, row as int, i as int, i + 1);
            }
            i = i + 1;
            continue;
        }
        let target: u16 = (100 * (cs[i] as u32 - 48) + 10 * (cs[i + 1] as u32 - 48) + (cs[i + 2]
            as u32 - 48)) as u16;
        let mut core_end: usize = i + 3;
        if core_end < n && cs[core_end] == 'f' {
            core_end = core_end + 1;
        }
        let left_pad: usize = if i > 0 && (cs[i - 1] == ' ' || cs[i - 1] == '-') {
            1
        } else {
            0
        };
        let right_pad: usize = if core_end < n && (cs[core_end] == ' ' || cs[core_end] == '-') {
            1
        } else {
            0
        };
        let col_start = #[verifier::truncate] ((i - left_pad) as u16);
        let col_len = #[verifier::truncate] ((core_end + right_pad - i + left_pad) as u16);
        let link = Link {
            row: #[verifier::truncate] (row as u16),
            col_start,
            col_len,
            target,
            followable: target >= 100,
        };
        proof {
            assert(is_link_at(cs@, i as int));
            assert(link == link_of(cs@, row as int, i as int));
            assert(links_before(cs@, row as int, i + 1) == links_before(cs@, row as int, i as int)
                + seq![link]);
            assert forall|m: int| i + 1 <= m < core_end implies !is_link_at(cs@, m) by {
                if m == i + 3 {
                    assert(!is_digit(cs@[m]));
                } else {
                    assert(is_digit(cs@[m - 1]));
                }
            }
            lemma_links_before_no_new(cs@, row as int, i + 1, core_end as int);
        }
        out.push(link);
        i = core_end;
    }
    proof {
        lemma_links_before_no_new(cs@, row as int, i as int, n as int);
    }
}

/// Scan the rendered page for three-digit page references, row by row and
/// left to right. Mosaic cells count as a space; columns count characters.
pub fn scan_links(lines: &[Line]) -> (r: Vec<Link>)
    ensures
        r@ == spec_scan_links(lines@),
{
    let mut out: Vec<Link> = Vec::new();
    let mut row: usize = 0;
    while row < lines.len()
        invariant
            row <= lines@.len(),
            out@ == links_of_lines(lines@, row as int),
        decreases lines.len() - row,
    {
        let cs = line_columns(&lines[row]);
        scan_row(&cs, row, &mut out);
        row = row + 1;
    }
    out
}

// ---------------------------------------------------------------------------
// Browser state
// ---------------------------------------------------------------------------

/// Spinner frames shown in the input field while a page loads.
pub const SPINNER: [char; 10] = ['⠋', '⠙', '⠹', '⠸', '⠼', '⠴', '⠦', '⠧', '⠇', '⠏'];

/// Background-fetch state: `Idle` between loads, `Fetching` while a page loads.
#[derive(Debug, Clone, Copy, PartialEq, Eq, Structural)]
pub enum FetchState {
    Idle,
    Fetching { target_page: u16, frame: usize },
}

#[derive(Debug)]
pub struct State {
    pub current_page: u16,
    pub input_buf: String,
    pub lines: Vec<Line>,
    pub links: Vec<Link>,
    pub selected: Option<usize>,
    pub fetch: FetchState,
    /// One-shot bottom-bar message. Cleared by the next handled keystroke or load.
    pub status: Option<String>,
}

impl State {
    /// What every operation keeps: the typed page number holds digits only,
    /// and a selected link exists.
    pub open spec fn wf(&self) -> bool {
        &&& all_digits(self.input_buf@)
        &&& (self.selected matches Some(sel) ==> sel < self.links@.len())
    }

    /// A state pointed at `page` with no content yet.
    pub fn initial(page: u16) -> (r: State)
        ensures
            r.wf(),
            r.current_page == page,
            r.input_buf@ == Seq::<char>::empty(),
            r.lines@.len() == 0,
            r.links@.len() == 0,
            r.selected is None,
            r.fetch == FetchState::Idle,
            r.status is None,
    {
        State {
            current_page: page,
            input_buf: String::new(),
            lines: Vec::new(),
            links: Vec::new(),
            selected: None,
            fetch: FetchState::Idle,
            status: None,
        }
    }

    /// Install a freshly parsed page: its lines and links, the first link
    /// selected (if any), fetch state, typed input and status cleared.
    pub fn install_page(&mut self, page: ColoredPage)
        ensures
            final(self).wf(),
            final(self).current_page == page.page_no,
            final(self).lines == page.lines,
            final(self).links@ == spec_scan_links(page.lines@),
            final(self).selected == (if final(self).links@.len() == 0 {
                None::<usize>
            } else {
                Some(0usize)
            }),
            final(self).fetch == FetchState::Idle,
            final(self).input_buf@ == Seq::<char>::empty(),
            final(self).status is None,
    {
        self.current_page = page.page_no;
        self.lines = page.lines;
        self.links = scan_links(self.lines.as_slice());
        self.selected = if self.links.len() == 0 {
            None
        } else {
            Some(0)
        };
        self.fetch = FetchState::Idle;
        self.input_buf = String::new();
        self.status = None;
    }

    /// Install the "page doesn't exist" placeholder for `page`, which becomes
    /// the current page so neighbouring pages stay reachable.
    pub fn install_placeholder(&mut self, page: u16)
        ensures
            final(self).wf(),
            final(self).current_page == page,
            is_placeholder(final(self).lines@),
            final(self).links@.len() == 0,
            final(self).selected is None,
            final(self).fetch == FetchState::Idle,
            final(self).input_buf@ == Seq::<char>::empty(),
            final(self).status is None,
    {
        self.current_page = page;
        self.lines = placeholder_lines();
        self.links = Vec::new();
        self.selected = None;
        self.fetch = FetchState::Idle;
        self.input_buf = String::new();
        self.status = None;
    }
}

pub open spec fn placeholder_message() -> Seq<char> {
    "Sidan finns inte"@
}

/// Text of placeholder row `i`: the message centred on row 11, blanks elsewhere.
pub open spec fn placeholder_row_text(i: int) -> Seq<char> {
    if i == 11 {
        repeat_char(' ', 12) + placeholder_message() + repeat_char(' ', 12)
    } else {
        repeat_char(' ', 40)
    }
}

/// A 24-row page of one white-on-black cell per row, reading
/// `Sidan finns inte` centred on row 11.
pub open spec fn is_placeholder(lines: Seq<Line>) -> bool {
    &&& lines.len() == 24
    &&& forall|i: int|
        0 <= i < 24 ==> {
            let l = #[trigger] lines[i];
            &&& l.cells@.len() == 1
            &&& !l.double_height
            &&& l.cells@[0].text@ == placeholder_row_text(i)
            &&& l.cells@[0].fg == TtColor::White
            &&& l.cells@[0].bg == TtColor::Black
            &&& l.cells@[0].mosaic_url is None
        }
}

/// Build a 24-row, 40-column page containing `Sidan finns inte` centred.
pub fn placeholder_lines() -> (r: Vec<Line>)
    ensures
        is_placeholder(r@),
{
    let mut out: Vec<Line> = Vec::new();
    let mut i: usize = 0;
    while i < 24
        invariant
            i <= 24,
            out@.len() == i,
            forall|j: int|
                0 <= j < i ==> {
                    let l = #[trigger] out@[j];
                    &&& l.cells@.len() == 1
                    &&& !l.double_height
                    &&& l.cells@[0].text@ == placeholder_row_text(j)
                    &&& l.cells@[0].fg == TtColor::White
                    &&& l.cells@[0].bg == TtColor::Black
                    &&& l.cells@[0].mosaic_url is None
                },
        decreases 24 - i,
    {
        let mut text = String::new();
        if i == 11 {
            push_repeat(&mut text, ' ', 12);
            push_str(&mut text, "Sidan finns inte");
            push_repeat(&mut text, ' ', 12);
        } else {
            push_repeat(&mut text, ' ', 40);
        }
        let cell = Cell { text, fg: TtColor::White, bg: TtColor::Black, mosaic_url: None };
        let mut cells: Vec<Cell> = Vec::new();
        cells.push(cell);
        out.push(Line { cells, double_height: false });
        i = i + 1;
    }
    out
}

/// A key press, as the browser distinguishes them.
#[derive(Debug, Clone, Copy, PartialEq, Eq, Structural)]
pub enum Key {
    Char(char),
    Backspace,
    Up,
    Down,
    Left,
    Right,
    Enter,
    Esc,
    Other,
}

/// What `handle_key` tells the outer loop to do.
#[derive(Debug, Clone, PartialEq, Eq, Structural)]
pub enum Action {
    /// Nothing to do.
    NoOp,
    /// Start a fetch for the given page (already in 100..=999).
    StartFetch(u16),
    /// Exit the event loop.
    Quit,
}

/// Length in UTF-8 bytes.
pub open spec fn byte_len(b: Seq<char>) -> nat {
    vstd::utf8::encode_utf8(b).len()
}

/// The page number a full input field stands for: its value as a `u16`,
/// or 0 when it does not read as one.
pub open spec fn typed_value(b: Seq<char>) -> int {
    match crate::cli::spec_parse_u16(b) {
        Some(n) => n as int,
        None => 0,
    }
}

pub open spec fn out_of_range_message(v: int) -> Seq<char> {
    "Error: page must be in 100..=999 (got "@ + dec_padded(v as nat, 3) + ")"@
}

pub open spec fn first_page_message() -> Seq<char> {
    "Already at first page (100)"@
}

pub open spec fn last_page_message() -> Seq<char> {
    "Already at last page (999)"@
}

pub open spec fn unfollowable_message(target: u16) -> Seq<char> {
    "Error: page "@ + dec(target as nat) + " not in 100..=999"@
}

/// The selected link, when the selection points at one.
pub open spec fn selected_link(s: State) -> Option<Link> {
    match s.selected {
        Some(sel) => if sel < s.links@.len() {
            Some(s.links@[sel as int])
        } else {
            None
        },
        None => None,
    }
}

/// Keys that quit the browser: Esc and `q`.
pub open spec fn is_quit_key(key: Key) -> bool {
    key == Key::Esc || key == Key::Char('q')
}

/// Keys that follow the selected link: Enter and Space.
pub open spec fn is_follow_key(key: Key) -> bool {
    key == Key::Enter || key == Key::Char(' ')
}

/// Whether a key is ignored: anything but a quit key while a fetch is in flight.
pub open spec fn key_ignored(s: State, key: Key) -> bool {
    !is_quit_key(key) && s.fetch is Fetching
}

pub open spec fn key_action(s: State, key: Key) -> Action {
    if is_quit_key(key) {
        Action::Quit
    } else if key_ignored(s, key) {
        Action::NoOp
    } else if is_follow_key(key) {
        match selected_link(s) {
            Some(link) => if link.followable {
                Action::StartFetch(link.target)
            } else {
                Action::NoOp
            },
            None => Action::NoOp,
        }
    } else {
        match key {
            Key::Char(c) => {
                let nb = s.input_buf@.push(c);
                if is_digit(c) && byte_len(nb) == 3 && 100 <= typed_value(nb) <= 999 {
                    Action::StartFetch(typed_value(nb) as u16)
                } else {
                    Action::NoOp
                }
            },
            Key::Left => if s.current_page > 100 {
                Action::StartFetch((s.current_page - 1) as u16)
            } else {
                Action::NoOp
            },
            Key::Right => if s.current_page < 999 {
                Action::StartFetch((s.current_page + 1) as u16)
            } else {
                Action::NoOp
            },
            _ => Action::NoOp,
        }
    }
}

pub open spec fn key_input_buf(s: State, key: Key) -> Seq<char> {
    let b = s.input_buf@;
    if is_quit_key(key) || key_ignored(s, key) {
        b
    } else if is_follow_key(key) {
        match selected_link(s) {
            Some(link) => if link.followable {
                Seq::empty()
            } else {
                b
            },
            None => b,
        }
    } else {
        match key {
            Key::Char(c) => if is_digit(c) {
                if byte_len(b.push(c)) == 3 {
                    Seq::empty()
                } else {
                    b.push(c)
                }
            } else {
                b
            },
            Key::Backspace => if b.len() > 0 {
                b.drop_last()
            } else {
                b
            },
            Key::Left => if s.current_page > 100 {
                Seq::empty()
            } else {
                b
            },
            Key::Right => if s.current_page < 999 {
                Seq::empty()
            } else {
                b
            },
            _ => b,
        }
    }
}

/// The status message after `key`: a key that is handled clears the previous
/// message, then sets its own where it has one.
pub open spec fn key_status(s: State, key: Key) -> Option<Seq<char>> {
    if is_quit_key(key) || key_ignored(s, key) {
        opt_view(s.status)
    } else if is_follow_key(key) {
        match selected_link(s) {
            Some(link) => if link.followable {
                None
            } else {
                Some(unfollowable_message(link.target))
            },
            None => None,
        }
    } else {
        match key {
            Key::Char(c) => if is_digit(c) {
                let nb = s.input_buf@.push(c);
                if byte_len(nb) == 3 && !(100 <= typed_value(nb) <= 999) {
                    Some(out_of_range_message(typed_value(nb)))
                } else {
                    None
                }
            } else {
                None
            },
            Key::Left => if s.current_page > 100 {
                None
            } else {
                Some(first_page_message())
            },
            Key::Right => if s.current_page < 999 {
                None
            } else {
                Some(last_page_message())
            },
            _ => None,
        }
    }
}

pub open spec fn key_selected(s: State, key: Key) -> Option<usize> {
    if is_quit_key(key) || key_ignored(s, key) {
        s.selected
    } else {
        match key {
            Key::Up => match s.selected {
                Some(sel) => Some(
                    if sel > 0 {
                        (sel - 1) as usize
                    } else {
                        0usize
                    },
                ),
                None => None,
            },
            Key::Down => match s.selected {
                Some(sel) => if sel + 1 < s.links@.len() {
                    Some((sel + 1) as usize)
                } else {
                    Some(sel)
                },
                None => None,
            },
            _ => s.selected,
        }
    }
}

fn out_of_range_msg(v: u32) -> (r: String)
    ensures
        r@ == out_of_range_message(v as int),
{
    let mut s = String::new();
    push_str(&mut s, "Error: page must be in 100..=999 (got ");
    push_decimal_padded(&mut s, v, 3);
    push_str(&mut s, ")");
    s
}

fn unfollowable_msg(target: u16) -> (r: String)
    ensures
        r@ == unfollowable_message(target),
{
    let mut s = String::new();
    push_str(&mut s, "Error: page ");
    push_decimal(&mut s, target as u32);
    push_str(&mut s, " not in 100..=999");
    s
}

/// Follow the selected link: fetch its page when it is followable, else say why not.
#[verifier::spinoff_prover]
fn follow_selected(state: &mut State) -> (action: Action)
    ensures
        old(state).wf() ==> final(state).wf(),
        action == (match selected_link(*old(state)) {
            Some(link) => if link.followable {
                Action::StartFetch(link.target)
            } else {
                Action::NoOp
            },
            None => Action::NoOp,
        }),
        final(state).input_buf@ == (match selected_link(*old(state)) {
            Some(link) => if link.followable {
                Seq::empty()
            } else {
                old(state).input_buf@
            },
            None => old(state).input_buf@,
        }),
        opt_view(final(state).status) == (match selected_link(*old(state)) {
            Some(link) => if link.followable {
                opt_view(old(state).status)
            } else {
                Some(unfollowable_message(link.target))
            },
            None => opt_view(old(state).status),
        }),
        final(state).selected == old(state).selected,
        final(state).current_page == old(state).current_page,
        final(state).lines == old(state).lines,
        final(state).links == old(state).links,
        final(state).fetch == old(state).fetch,
{
    match state.selected {
        Some(sel) => {
            if sel < state.links.len() {
                let link = state.links[sel];
                if link.followable {
                    state.input_buf = String::new();
                    Action::StartFetch(link.target)
                } else {
                    state.status = Some(unfollowable_msg(link.target));
                    Action::NoOp
                }
            } else {
                Action::NoOp
            }
        },
        None => Action::NoOp,
    }
}

/// Apply a key press to the state and tell the caller what to do next.
/// Only the typed input, the status message and the selection change.
#[verifier::spinoff_prover]
pub fn handle_key(state: &mut State, key: Key) -> (action: Action)
    requires
        key == Key::Down ==> old(state).selected != Some(usize::MAX),
    ensures
        old(state).wf() ==> final(state).wf(),
        action == key_action(*old(state), key),
        final(state).input_buf@ == key_input_buf(*old(state), key),
        opt_view(final(state).status) == key_status(*old(state), key),
        final(state).selected == key_selected(*old(state), key),
        final(state).current_page == old(state).current_page,
        final(state).lines == old(state).lines,
        final(state).links == old(state).links,
        final(state).fetch == old(state).fetch,
{
    let was_fetching = match state.fetch {
        FetchState::Fetching { .. } => true,
        FetchState::Idle => false,
    };
    let quit = match key {
        Key::Esc => true,
        Key::Char(c) => c == 'q',
        _ => false,
    };
    if quit {
        return Action::Quit;
    }
    if was_fetching {
        return Action::NoOp;
    }
    state.status = None;
    let follow = match key {
        Key::Enter => true,
        Key::Char(c) => c == ' ',
        _ => false,
    };
    if follow {
        return follow_selected(state);
    }
    match key {
        Key::Char(c) => {
            if !char_is_digit(c) {
                return Action::NoOp;
            }
            push_char(&mut state.input_buf, c);
            if state.input_buf.as_str().as_bytes().len() == 3 {
                let parsed: u16 = match crate::cli::parse_u16(state.input_buf.as_str()) {
                    Some(n) => n,
                    None => 0,
                };
                state.input_buf = String::new();
                if 100 <= parsed && parsed <= 999 {
                    Action::StartFetch(parsed)
                } else {
                    state.status = Some(out_of_range_msg(parsed as u32));
                    Action::NoOp
                }
            } else {
                Action::NoOp
            }
        },
        Key::Backspace => {
            let mut cs = chars_of(state.input_buf.as_str());
            if cs.len() > 0 {
                let n = cs.len() - 1;
                cs.truncate(n);
                let mut b = String::new();
                crate::textutil::push_chars(&mut b, cs.as_slice());
                state.input_buf = b;
            }
            Action::NoOp
        },
        Key::Up => {
            match state.selected {
                Some(sel) => {
                    state.selected = Some(
                        if sel > 0 {
                            sel - 1
                        } else {
                            0
                        },
                    );
                },
                None => {},
            }
            Action::NoOp
        },
        Key::Down => {
            match state.selected {
                Some(sel) => {
                    let n = state.links.len();
                    if sel + 1 < n {
                        state.selected = Some(sel + 1);
                    }
                },
                None => {},
            }
            Action::NoOp
        },
        Key::Left => {
            if state.current_page > 100 {
                state.input_buf = String::new();
                Action::StartFetch(state.current_page - 1)
            } else {
                let mut m = String::new();
                push_str(&mut m, "Already at first page (100)");
                state.status = Some(m);
                Action::NoOp
            }
        },
        Key::Right => {
            if state.current_page < 999 {
                state.input_buf = String::new();
                Action::StartFetch(state.current_page + 1)
            } else {
                let mut m = String::new();
                push_str(&mut m, "Already at last page (999)");
                state.status = Some(m);
                Action::NoOp
            }
        },
        _ => Action::NoOp,
    }
}

/// Advance the spinner frame by one, wrapping at the spinner's length, while
/// a fetch is in flight. No change otherwise.
pub fn tick(state: &mut State)
    requires
        old(state).fetch matches FetchState::Fetching { frame, .. } ==> frame < usize::MAX,
    ensures
        final(state).fetch == (match old(state).fetch {
            FetchState::Fetching { target_page, frame } => FetchState::Fetching {
                target_page,
                frame: ((frame + 1) % 10) as usize,
            },
            FetchState::Idle => FetchState::Idle,
        }),
        final(state).current_page == old(state).current_page,
        final(state).input_buf == old(state).input_buf,
        final(state).lines == old(state).lines,
        final(state).links == old(state).links,
        final(state).selected == old(state).selected,
        final(state).status == old(state).status,
{
    match state.fetch {
        FetchState::Fetching { target_page, frame } => {
            state.fetch = FetchState::Fetching { target_page, frame: (frame + 1) % SPINNER.len() };
        },
        FetchState::Idle => {},
    }
}

/// Mark a fetch for `page` as started: the spinner begins at its first frame
/// and the status message is cleared.
pub fn start_fetch(state: &mut State, page: u16)
    ensures
        final(state).fetch == (FetchState::Fetching { target_page: page, frame: 0 }),
        final(state).status is None,
        final(state).current_page == old(state).current_page,
        final(state).input_buf == old(state).input_buf,
        final(state).lines == old(state).lines,
        final(state).links == old(state).links,
        final(state).selected == old(state).selected,
{
    state.fetch = FetchState::Fetching { target_page: page, frame: 0 };
    state.status = None;
}

/// How a background fetch stands when the event loop looks at it.
pub enum FetchOutcome {
    /// The page arrived and parsed.
    Loaded(ColoredPage),
    /// The worker reported a load failure.
    Failed,
    /// Nothing has arrived yet.
    Pending,
    /// The worker went away without an answer.
    Disconnected,
}

/// The page a failed load commits to: the fetch's target, or the current page.
pub open spec fn failed_target(s: State) -> u16 {
    match s.fetch {
        FetchState::Fetching { target_page, .. } => target_page,
        FetchState::Idle => s.current_page,
    }
}

/// Take in a fetch outcome: a loaded page is installed; a failure installs
/// the placeholder for the page that was being loaded; pending changes nothing.
pub fn drain_fetch(state: &mut State, outcome: FetchOutcome)
    ensures
        match outcome {
            FetchOutcome::Loaded(page) => {
                &&& final(state).wf()
                &&& final(state).current_page == page.page_no
                &&& final(state).lines == page.lines
                &&& final(state).links@ == spec_scan_links(page.lines@)
                &&& final(state).selected == (if final(state).links@.len() == 0 {
                    None::<usize>
                } else {
                    Some(0usize)
                })
                &&& final(state).fetch == FetchState::Idle
                &&& final(state).input_buf@ == Seq::<char>::empty()
                &&& final(state).status is None
            },
            FetchOutcome::Pending => *final(state) == *old(state),
            _ => {
                &&& final(state).wf()
                &&& final(state).current_page == failed_target(*old(state))
                &&& is_placeholder(final(state).lines@)
                &&& final(state).links@.len() == 0
                &&& final(state).selected is None
                &&& final(state).fetch == FetchState::Idle
                &&& final(state).input_buf@ == Seq::<char>::empty()
                &&& final(state).status is None
            },
        },
{
    match outcome {
        FetchOutcome::Loaded(page) => state.install_page(page),
        FetchOutcome::Pending => {},
        _ => {
            let target = match state.fetch {
                FetchState::Fetching { target_page, .. } => target_page,
                FetchState::Idle => state.current_page,
            };
            state.install_placeholder(target);
        },
    }
}


// ---------------------------------------------------------------------------
// Screen image
// ---------------------------------------------------------------------------

/// Width in cells of the chrome rows: 40 page cells and the frame cell.
pub const CHROME_WIDTH: usize = 41;

/// Rows reserved for the page body; the hint bar sits on the row below.
pub const PAGE_HEIGHT_MAX: u16 = 25;

/// The hint shown when there is no status message.
pub open spec fn default_hint() -> Seq<char> {
    "↑↓ · Enter · Esc quit"@
}

/// The glyph left of the page number: a spinner frame while loading, else a blank.
pub open spec fn input_glyph(s: State) -> char {
    match s.fetch {
        FetchState::Fetching { frame, .. } => SPINNER[(frame % 10) as int],
        FetchState::Idle => ' ',
    }
}

/// The page number field: the current page (three digits) when nothing is
/// typed, else what is typed, padded with `_` to three bytes.
pub open spec fn input_digits(s: State) -> Seq<char> {
    let b = s.input_buf@;
    if b.len() == 0 {
        dec_padded(s.current_page as nat, 3)
    } else if byte_len(b) < 3 {
        b + repeat_char('_', (3 - byte_len(b)) as nat)
    } else {
        b
    }
}

/// The input row: a margin, the glyph, a space and the page number field.
pub open spec fn input_row_text(s: State) -> Seq<char> {
    seq![' ', input_glyph(s), ' '] + input_digits(s)
}

/// Compose the input row's content.
#[verifier::spinoff_prover]
pub fn input_row(state: &State) -> (r: String)
    ensures
        r@ == input_row_text(*state),
{
    let glyph = match state.fetch {
        FetchState::Fetching { frame, .. } => SPINNER[frame % SPINNER.len()],
        FetchState::Idle => ' ',
    };
    let mut s = String::new();
    push_char(&mut s, ' ');
    push_char(&mut s, glyph);
    push_char(&mut s, ' ');
    let typed = chars_of(state.input_buf.as_str());
    if typed.len() == 0 {
        push_decimal_padded(&mut s, state.current_page as u32, 3);
    } else {
        crate::textutil::push_chars(&mut s, typed.as_slice());
        let n = state.input_buf.as_str().as_bytes().len();
        if n < 3 {
            push_repeat(&mut s, '_', 3 - n);
        }
    }
    assert(s@ =~= input_row_text(*state));
    s
}

/// `text` cut to `width` characters, centred in `width` columns: the
/// surplus is split with the lesser half on the left.
pub open spec fn center_pad(text: Seq<char>, width: nat) -> Seq<char> {
    let v = if text.len() <= width {
        text
    } else {
        text.take(width as int)
    };
    if v.len() >= width {
        v
    } else {
        let pad = (width - v.len()) as nat;
        repeat_char(' ', pad / 2) + v + repeat_char(' ', (pad - pad / 2) as nat)
    }
}

/// Pad `text` to `width` cells by centring it (the left side gets the lesser
/// half of an odd surplus); a longer text is cut to `width`.
#[verifier::spinoff_prover]
pub fn center_padded(text: &str, width: usize) -> (r: String)
    ensures
        r@ == center_pad(text@, width as nat),
{
    let cs = chars_of(text);
    let vlen = if cs.len() <= width {
        cs.len()
    } else {
        width
    };
    let visible = crate::textutil::chars_range(cs.as_slice(), 0, vlen);
    let mut s = String::new();
    if vlen >= width {
        crate::textutil::push_chars(&mut s, visible.as_slice());
        assert(s@ =~= center_pad(text@, width as nat));
        return s;
    }
    let total = width - vlen;
    let left = total / 2;
    push_repeat(&mut s, ' ', left);
    crate::textutil::push_chars(&mut s, visible.as_slice());
    push_repeat(&mut s, ' ', total - left);
    assert(s@ =~= center_pad(text@, width as nat));
    s
}

/// Columns `[start, start + len)` of a line (mosaics as one space), cut at
/// the line's end.
pub open spec fn visible_at(l: Line, start: int, len: int) -> Seq<char> {
    let cs = line_chars(l);
    let a = if start < cs.len() {
        start
    } else {
        cs.len() as int
    };
    let b = if start + len < cs.len() {
        start + len
    } else {
        cs.len() as int
    };
    cs.subrange(a, b)
}

/// The characters in columns `[col_start, col_start + col_len)` of a line.
pub fn visible_chars_at(line: &Line, col_start: u16, col_len: u16) -> (r: String)
    ensures
        r@ == visible_at(*line, col_start as int, col_len as int),
{
    let cs = line_columns(line);
    let n = cs.len();
    let start = col_start as usize;
    let end = start + col_len as usize;
    let a = if start < n {
        start
    } else {
        n
    };
    let b = if end < n {
        end
    } else {
        n
    };
    string_of_range(cs.as_slice(), a, b)
}

fn string_of_range(cs: &[char], a: usize, b: usize) -> (r: String)
    requires
        a <= cs@.len(),
        b <= cs@.len(),
    ensures
        r@ == cs@.subrange(a as int, if a <= b { b as int } else { a as int }),
{
    if a <= b {
        crate::textutil::string_of(crate::textutil::chars_range(cs, a, b).as_slice())
    } else {
        String::new()
    }
}


/// Rows `0..k` of the black canvas: each row blanked in black, 41 cells wide.
pub open spec fn canvas_rows(k: int) -> Seq<char>
    decreases k,
{
    if k <= 0 {
        Seq::empty()
    } else {
        canvas_rows(k - 1) + cursor_to_seq(0, (k - 1) as u16) + on_bg(
            repeat_char(' ', CHROME_WIDTH as nat),
            (0, 0, 0),
        )
    }
}

/// Paint a black background over the page body before anything is drawn,
/// so short pages and the first load show one dark surface.
fn paint_black_canvas(out: &mut String)
    ensures
        final(out)@ == old(out)@ + canvas_rows(PAGE_HEIGHT_MAX as int),
{
    let mut row_text = String::new();
    push_repeat(&mut row_text, ' ', CHROME_WIDTH);
    let styled = paint_bg(row_text.as_str(), (0, 0, 0));
    let mut row: u16 = 0;
    while row < PAGE_HEIGHT_MAX
        invariant
            row <= PAGE_HEIGHT_MAX,
            styled@ == on_bg(repeat_char(' ', CHROME_WIDTH as nat), (0, 0, 0)),
            out@ == old(out)@ + canvas_rows(row as int),
        decreases PAGE_HEIGHT_MAX - row,
    {
        let mv = cursor_to(0, row);
        push_str(out, mv.as_str());
        push_str(out, styled.as_str());
        row = row + 1;
    }
}

/// The first `k` page lines, each drawn in color at the start of its row.
pub open spec fn lines_at(lines: Seq<Line>, cache: Map<Seq<char>, u8>, k: int) -> Seq<char>
    decreases k,
{
    if k <= 0 {
        Seq::empty()
    } else {
        lines_at(lines, cache, k - 1) + cursor_to_seq(0, (k - 1) as u16) + line_out(
            lines[k - 1],
            true,
            cache,
        )
    }
}

/// The selected link in reverse video, when a link is selected on a row of the page.
pub open spec fn highlight_out(s: State) -> Seq<char> {
    match selected_link(s) {
        Some(l) => if (l.row as int) < s.lines@.len() {
            cursor_to_seq(l.col_start, l.row) + "\x1b[7m"@ + visible_at(
                s.lines@[l.row as int],
                l.col_start as int,
                l.col_len as int,
            ) + "\x1b[27m"@
        } else {
            Seq::empty()
        },
        None => Seq::empty(),
    }
}

/// The bottom bar's text: the status message, else the key hint.
pub open spec fn hint_text(s: State) -> Seq<char> {
    match s.status {
        Some(t) => t@,
        None => default_hint(),
    }
}

pub open spec fn white() -> (u8, u8, u8) {
    (255, 255, 255)
}

pub open spec fn black() -> (u8, u8, u8) {
    (0, 0, 0)
}

/// The full screen: black canvas, the page lines, the selected link in
/// reverse video, the input row over the page's top-left cells, the
/// centred hint bar below the page, and the cursor parked at the next
/// typing position.
pub open spec fn spec_draw(s: State, cache: Map<Seq<char>, u8>) -> Seq<char> {
    canvas_rows(PAGE_HEIGHT_MAX as int) + lines_at(s.lines@, cache, s.lines@.len() as int)
        + highlight_out(s) + chrome_out(s)
}

/// The chrome drawn over the page: the input row at the top left, the
/// centred hint bar below the page, and the cursor at the next typing position.
pub open spec fn chrome_out(s: State) -> Seq<char> {
    cursor_to_seq(0, 0) + painted(input_row_text(s), white(), black()) + cursor_to_seq(
        0,
        PAGE_HEIGHT_MAX,
    ) + painted(center_pad(hint_text(s), CHROME_WIDTH as nat), white(), black()) + cursor_to_seq(
        (3 + byte_len(s.input_buf@)) as u16,
        0,
    )
}

fn write_page_lines(state: &State, cache: &PatternCache, out: &mut String)
    requires
        state.lines@.len() < 65535,
    ensures
        final(out)@ == old(out)@ + lines_at(state.lines@, cache@, state.lines@.len() as int),
{
    let mut i: usize = 0;
    while i < state.lines.len()
        invariant
            i <= state.lines@.len() < 65535,
            out@ == old(out)@ + lines_at(state.lines@, cache@, i as int),
        decreases state.lines.len() - i,
    {
        let mv = cursor_to(0, i as u16);
        push_str(out, mv.as_str());
        write_line(&state.lines[i], true, cache, out);
        i = i + 1;
    }
}

#[verifier::spinoff_prover]
fn write_highlight(state: &State, out: &mut String)
    requires
        state.lines@.len() < 65535,
        selected_link(*state) matches Some(l) ==> l.col_start < 65535,
    ensures
        final(out)@ == old(out)@ + highlight_out(*state),
{
    match state.selected {
        Some(sel) => {
            if sel < state.links.len() {
                let link = state.links[sel];
                if (link.row as usize) < state.lines.len() {
                    let mv = cursor_to(link.col_start, link.row);
                    push_str(out, mv.as_str());
                    push_str(out, "\x1b[7m");
                    let visible = visible_chars_at(
                        &state.lines[link.row as usize],
                        link.col_start,
                        link.col_len,
                    );
                    push_str(out, visible.as_str());
                    push_str(out, "\x1b[27m");
                }
            }
        },
        None => {},
    }
}

#[verifier::spinoff_prover]
fn write_chrome(state: &State, out: &mut String)
    requires
        byte_len(state.input_buf@) < 65532,
    ensures
        final(out)@ == old(out)@ + chrome_out(*state),
{
    let ghost o0 = out@;
    let mv = cursor_to(0, 0);
    push_str(out, mv.as_str());
    let input = input_row(state);
    let styled = paint(input.as_str(), (255, 255, 255), (0, 0, 0));
    push_str(out, styled.as_str());
    let ghost o1 = out@;
    assert(o1 == o0 + cursor_to_seq(0, 0) + painted(input_row_text(*state), white(), black()));
    let mv = cursor_to(0, PAGE_HEIGHT_MAX);
    push_str(out, mv.as_str());
    let centered = match &state.status {
        Some(t) => center_padded(t.as_str(), CHROME_WIDTH),
        None => center_padded("↑↓ · Enter · Esc quit", CHROME_WIDTH),
    };
    let styled = paint(centered.as_str(), (255, 255, 255), (0, 0, 0));
    push_str(out, styled.as_str());
    let ghost o2 = out@;
    assert(o2 == o1 + cursor_to_seq(0, PAGE_HEIGHT_MAX) + painted(
        center_pad(hint_text(*state), CHROME_WIDTH as nat),
        white(),
        black(),
    ));
    let typed_bytes = state.input_buf.as_str().as_bytes().len();
    let mv = cursor_to(3 + typed_bytes as u16, 0);
    push_str(out, mv.as_str());
}

/// Full redraw of the interactive screen, appended to `out`. Mosaic cells
/// show the glyphs `cache` knows.
#[verifier::spinoff_prover]
pub fn draw(state: &State, cache: &PatternCache, out: &mut String)
    requires
        state.lines@.len() < 65535,
        byte_len(state.input_buf@) < 65532,
        selected_link(*state) matches Some(l) ==> l.col_start < 65535,
    ensures
        final(out)@ == old(out)@ + spec_draw(*state, cache@),
{
    let ghost o0 = out@;
    paint_black_canvas(out);
    let ghost o1 = out@;
    write_page_lines(state, cache, out);
    let ghost o2 = out@;
    write_highlight(state, out);
    let ghost o3 = out@;
    write_chrome(state, out);
    assert(out@ =~= o0 + spec_draw(*state, cache@));
}


/// The smallest terminal the browser fits in: the 41-column page with its
/// frame, and 25 page rows plus the hint bar.
pub open spec fn fits_browser(cols: u16, rows: u16) -> bool {
    cols >= 41 && rows >= 26
}

/// Check that a `cols` by `rows` terminal fits the browser; the message
/// for the user otherwise.
pub fn check_terminal_size(cols: u16, rows: u16) -> (r: Result<(), String>)
    ensures
        fits_browser(cols, rows) <==> r is Ok,
        r is Ok <==> cols >= 41 && rows >= 26,
        r matches Err(m) ==> m@ == "terminal too small ("@ + dec(cols as nat) + "x"@ + dec(
            rows as nat,
        ) + "); need at least 41x26"@,
{
    if cols < 41 || rows < 26 {
        let mut m = String::new();
        push_str(&mut m, "terminal too small (");
        push_decimal(&mut m, cols as u32);
        push_str(&mut m, "x");
        push_decimal(&mut m, rows as u32);
        push_str(&mut m, "); need at least 41x26");
        Err(m)
    } else {
        Ok(())
    }
}


/// A link's page is its three digits (0 to 999), it is followable exactly
/// when that page exists (100 and up), and its highlight spans the digits,
/// an optional `f` and at most one separator on each side: 3 to 6 cells.
pub open spec fn link_ok(l: Link) -> bool {
    &&& l.target <= 999
    &&& l.followable == (l.target >= 100)
    &&& 3 <= l.col_len <= 6
}

proof fn lemma_link_of_ok(cs: Seq<char>, row: int, i: int)
    requires
        is_link_at(cs, i),
    ensures
        link_ok(link_of(cs, row, i)),
{
}

proof fn lemma_links_before_ok(cs: Seq<char>, row: int, k: int)
    ensures
        forall|j: int|
            0 <= j < links_before(cs, row, k).len() ==> link_ok(#[trigger] links_before(cs, row, k)[j]),
    decreases k,
{
    if k > 0 {
        lemma_links_before_ok(cs, row, k - 1);
        if is_link_at(cs, k - 1) {
            lemma_link_of_ok(cs, row, k - 1);
        }
        let prev = links_before(cs, row, k - 1);
        let cur = links_before(cs, row, k);
        assert forall|j: int| 0 <= j < cur.len() implies link_ok(#[trigger] cur[j]) by {
            if j < prev.len() {
                assert(cur[j] == prev[j]);
            }
        }
    }
}

proof fn lemma_links_of_lines_ok(lines: Seq<Line>, n: int)
    ensures
        forall|j: int|
            0 <= j < links_of_lines(lines, n).len() ==> link_ok(#[trigger] links_of_lines(lines, n)[j]),
    decreases n,
{
    if n > 0 {
        lemma_links_of_lines_ok(lines, n - 1);
        let cs = line_chars(lines[n - 1]);
        lemma_links_before_ok(cs, n - 1, cs.len() as int);
        let prev = links_of_lines(lines, n - 1);
        let row = links_before(cs, n - 1, cs.len() as int);
        let cur = links_of_lines(lines, n);
        assert forall|j: int| 0 <= j < cur.len() implies link_ok(#[trigger] cur[j]) by {
            if j < prev.len() {
                assert(cur[j] == prev[j]);
            } else {
                assert(cur[j] == row[j - prev.len()]);
            }
        }
    }
}

/// Every link the scanner finds is well formed (see `link_ok`).
pub proof fn law_scanned_links_ok(lines: Seq<Line>)
    ensures
        forall|j: int|
            0 <= j < spec_scan_links(lines).len() ==> link_ok(#[trigger] spec_scan_links(lines)[j]),
{
    lemma_links_of_lines_ok(lines, lines.len() as int);
}

/// The columns below `k` where a link starts, left to right.
pub open spec fn link_positions(cs: Seq<char>, k: int) -> Seq<int>
    decreases k,
{
    if k <= 0 {
        Seq::empty()
    } else {
        link_positions(cs, k - 1) + if is_link_at(cs, k - 1) {
            seq![k - 1]
        } else {
            Seq::empty()
        }
    }
}

proof fn lemma_link_positions(cs: Seq<char>, row: int, k: int)
    requires
        0 <= k <= cs.len(),
    ensures
        links_before(cs, row, k) == link_positions(cs, k).map_values(|i: int| link_of(cs, row, i)),
        forall|a: int, b: int|
            0 <= a < b < link_positions(cs, k).len() ==> link_positions(cs, k)[a] < link_positions(
                cs,
                k,
            )[b],
        forall|m: int|
            0 <= m < link_positions(cs, k).len() ==> 0 <= #[trigger] link_positions(cs, k)[m] < k,
        forall|i: int| (0 <= i < k && is_link_at(cs, i)) <==> link_positions(cs, k).contains(i),
    decreases k,
{
    if k > 0 {
        lemma_link_positions(cs, row, k - 1);
        let prev = link_positions(cs, k - 1);
        let cur = link_positions(cs, k);
        if is_link_at(cs, k - 1) {
            assert(cur == prev.push(k - 1));
            assert(cur.map_values(|i: int| link_of(cs, row, i)) =~= prev.map_values(
                |i: int| link_of(cs, row, i),
            ) + seq![link_of(cs, row, k - 1)]);
            assert forall|i: int| (0 <= i < k && is_link_at(cs, i)) implies cur.contains(i) by {
                if i < k - 1 {
                    let m = choose|m: int| 0 <= m < prev.len() && prev[m] == i;
                    assert(cur[m] == i);
                } else {
                    assert(cur[prev.len() as int] == i);
                }
            }
            assert forall|i: int| cur.contains(i) implies (0 <= i < k && is_link_at(cs, i)) by {
                let m = choose|m: int| 0 <= m < cur.len() && cur[m] == i;
                if m < prev.len() {
                    assert(prev[m] == i);
                    assert(prev.contains(i));
                }
            }
        } else {
            assert(cur =~= prev);
            assert(links_before(cs, row, k) =~= links_before(cs, row, k - 1));
        }
    }
}

/// `l` is the link that starts at column `i` of row `row`, whose columns are
/// `cs`: it lies in `row`, targets the three digits' value, is followable
/// from 100 on, starts one column left of the digits (none at the line's
/// start) and spans the digits, an `f` right after them, and one space or
/// dash after that.
pub open spec fn link_as_worded(cs: Seq<char>, row: int, i: int, l: Link) -> bool {
    let e = if i + 3 < cs.len() && cs[i + 3] == 'f' {
        i + 4
    } else {
        i + 3
    };
    &&& l.row == row
    &&& l.target == 100 * (cs[i] as int - 48) + 10 * (cs[i + 1] as int - 48) + (cs[i + 2] as int - 48)
    &&& l.followable == (l.target >= 100)
    &&& l.col_start == i - (if i > 0 {
        1int
    } else {
        0int
    })
    &&& l.col_len == e + (if e < cs.len() && (cs[e] == ' ' || cs[e] == '-') {
        1int
    } else {
        0int
    }) - l.col_start
}

/// A link starts at column `i` of `cs` exactly when three ASCII digits
/// stand there, after the line's start, a space or a dash, and before the
/// line's end, a space, a dash or `f`.
pub open spec fn link_starts_at(cs: Seq<char>, i: int) -> bool {
    &&& 0 <= i
    &&& i + 3 <= cs.len()
    &&& '0' <= cs[i] <= '9'
    &&& '0' <= cs[i + 1] <= '9'
    &&& '0' <= cs[i + 2] <= '9'
    &&& (i == 0 || cs[i - 1] == ' ' || cs[i - 1] == '-')
    &&& (i + 3 == cs.len() || cs[i + 3] == ' ' || cs[i + 3] == '-' || cs[i + 3] == 'f')
}

proof fn lemma_link_of_as_worded(cs: Seq<char>, row: int, i: int)
    requires
        0 <= row < 65536,
        cs.len() < 65535,
        is_link_at(cs, i),
    ensures
        link_as_worded(cs, row, i, link_of(cs, row, i)),
{
    let t = 100 * digit_value(cs[i]) + 10 * digit_value(cs[i + 1]) + digit_value(cs[i + 2]);
    assert(0 <= t <= 999);
}

/// Link scanning, stated of one row's columns `cs`: the row holds exactly
/// one link for each column `i` where three digits stand between the line's
/// start, a space or a dash on the left and the line's end, a space, a dash
/// or `f` on the right, in column order, each as `link_as_worded` says.
pub proof fn law_row_links_exact(cs: Seq<char>, row: int)
    requires
        0 <= row < 65536,
        cs.len() < 65535,
    ensures
        ({
            let pos = link_positions(cs, cs.len() as int);
            let links = links_before(cs, row, cs.len() as int);
            &&& links.len() == pos.len()
            &&& forall|a: int, b: int| 0 <= a < b < pos.len() ==> pos[a] < pos[b]
            &&& forall|i: int| link_starts_at(cs, i) <==> pos.contains(i)
            &&& forall|m: int| 0 <= m < pos.len() ==> link_as_worded(cs, row, #[trigger] pos[m], links[m])
        }),
{
    let n = cs.len() as int;
    lemma_link_positions(cs, row, n);
    let pos = link_positions(cs, n);
    let links = links_before(cs, row, n);
    assert forall|i: int| link_starts_at(cs, i) <==> pos.contains(i) by {
        assert(link_starts_at(cs, i) == is_link_at(cs, i));
        if is_link_at(cs, i) {
            assert(0 <= i < n);
        }
    }
    assert forall|m: int| 0 <= m < pos.len() implies link_as_worded(cs, row, #[trigger] pos[m], links[m]) by {
        let i = pos[m];
        assert(pos.contains(i));
        assert(links[m] == link_of(cs, row, i));
        lemma_link_of_as_worded(cs, row, i);
    }
}

/// `a` comes before `b` in row-then-column order.
pub open spec fn comes_before(a: (int, int), b: (int, int)) -> bool {
    a.0 < b.0 || (a.0 == b.0 && a.1 < b.1)
}

/// The (row, column) places where links start in the first `n` lines, in
/// row-then-column order.
pub open spec fn page_link_positions(lines: Seq<Line>, n: int) -> Seq<(int, int)>
    decreases n,
{
    if n <= 0 {
        Seq::empty()
    } else {
        let cs = line_chars(lines[n - 1]);
        page_link_positions(lines, n - 1) + link_positions(cs, cs.len() as int).map_values(
            |i: int| (n - 1, i),
        )
    }
}

/// The link found at a (row, column) place of a page.
pub open spec fn link_at_place(lines: Seq<Line>, p: (int, int)) -> Link {
    link_of(line_chars(lines[p.0]), p.0, p.1)
}

proof fn lemma_page_link_positions(lines: Seq<Line>, n: int)
    requires
        0 <= n <= lines.len(),
    ensures
        links_of_lines(lines, n) == page_link_positions(lines, n).map_values(
            |p: (int, int)| link_at_place(lines, p),
        ),
        forall|a: int, b: int|
            0 <= a < b < page_link_positions(lines, n).len() ==> comes_before(
                #[trigger] page_link_positions(lines, n)[a],
                #[trigger] page_link_positions(lines, n)[b],
            ),
        forall|m: int|
            0 <= m < page_link_positions(lines, n).len() ==> 0 <= (#[trigger] page_link_positions(
                lines,
                n,
            )[m]).0 < n,
        forall|r: int, i: int|
            (0 <= r < n && is_link_at(line_chars(lines[r]), i)) <==> #[trigger] page_link_positions(
                lines,
                n,
            ).contains((r, i)),
    decreases n,
{
    if n > 0 {
        lemma_page_link_positions(lines, n - 1);
        let cs = line_chars(lines[n - 1]);
        let k = cs.len() as int;
        lemma_link_positions(cs, n - 1, k);
        let prev = page_link_positions(lines, n - 1);
        let rowp = link_positions(cs, k);
        let blk = rowp.map_values(|i: int| (n - 1, i));
        let cur = page_link_positions(lines, n);
        assert(cur == prev + blk);
        assert(blk.map_values(|p: (int, int)| link_at_place(lines, p)) =~= rowp.map_values(
            |i: int| link_of(cs, n - 1, i),
        ));
        assert(cur.map_values(|p: (int, int)| link_at_place(lines, p)) =~= prev.map_values(
            |p: (int, int)| link_at_place(lines, p),
        ) + blk.map_values(|p: (int, int)| link_at_place(lines, p)));
        assert forall|a: int, b: int| 0 <= a < b < cur.len() implies comes_before(
            #[trigger] cur[a],
            #[trigger] cur[b],
        ) by {
            if b < prev.len() {
                assert(cur[a] == prev[a] && cur[b] == prev[b]);
            } else if a < prev.len() {
                assert(cur[a] == prev[a]);
                assert(cur[b] == blk[b - prev.len()]);
            } else {
                assert(cur[a] == blk[a - prev.len()]);
                assert(cur[b] == blk[b - prev.len()]);
                assert(rowp[a - prev.len()] < rowp[b - prev.len()]);
            }
        }
        assert forall|m: int| 0 <= m < cur.len() implies 0 <= (#[trigger] cur[m]).0 < n by {
            if m < prev.len() {
                assert(cur[m] == prev[m]);
            } else {
                assert(cur[m] == blk[m - prev.len()]);
            }
        }
        assert forall|r: int, i: int|
            (0 <= r < n && is_link_at(line_chars(lines[r]), i)) <==> #[trigger] cur.contains((r, i)) by {
            if 0 <= r < n - 1 && is_link_at(line_chars(lines[r]), i) {
                assert(prev.contains((r, i)));
                let m = choose|m: int| 0 <= m < prev.len() && prev[m] == (r, i);
                assert(cur[m] == (r, i));
            }
            if r == n - 1 && is_link_at(cs, i) {
                assert(rowp.contains(i));
                let m = choose|m: int| 0 <= m < rowp.len() && rowp[m] == i;
                assert(cur[prev.len() + m] == (r, i));
            }
            if cur.contains((r, i)) {
                let m = choose|m: int| 0 <= m < cur.len() && cur[m] == (r, i);
                if m < prev.len() {
                    assert(prev[m] == (r, i));
                    assert(prev.contains((r, i)));
                } else {
                    assert(blk[m - prev.len()] == (r, i));
                    assert(rowp[m - prev.len()] == i);
                    assert(rowp.contains(i));
                }
            }
        }
    }
}

/// Link scanning, stated of a whole page: the scan holds exactly one link
/// for each row `r` and column `i` where a link starts in `r`'s columns
/// (mosaic cells as one space each), in row-then-column order, each as
/// `link_as_worded` says.
pub proof fn law_page_links_exact(lines: Seq<Line>)
    requires
        lines.len() <= 65536,
        forall|r: int| 0 <= r < lines.len() ==> line_chars(#[trigger] lines[r]).len() < 65535,
    ensures
        ({
            let pos = page_link_positions(lines, lines.len() as int);
            let links = spec_scan_links(lines);
            &&& links.len() == pos.len()
            &&& forall|a: int, b: int| 0 <= a < b < pos.len() ==> comes_before(pos[a], pos[b])
            &&& forall|r: int, i: int|
                (0 <= r < lines.len() && link_starts_at(line_chars(lines[r]), i)) <==> pos.contains((r, i))
            &&& forall|m: int|
                0 <= m < pos.len() ==> link_as_worded(
                    line_chars(lines[pos[m].0]),
                    pos[m].0,
                    pos[m].1,
                    #[trigger] links[m],
                )
        }),
{
    let n = lines.len() as int;
    lemma_page_link_positions(lines, n);
    let pos = page_link_positions(lines, n);
    let links = spec_scan_links(lines);
    assert forall|r: int, i: int|
        (0 <= r < lines.len() && link_starts_at(line_chars(lines[r]), i)) <==> pos.contains((r, i)) by {
        assert(link_starts_at(line_chars(lines[r]), i) == is_link_at(line_chars(lines[r]), i));
    }
    assert forall|m: int| 0 <= m < pos.len() implies link_as_worded(
        line_chars(lines[pos[m].0]),
        pos[m].0,
        pos[m].1,
        #[trigger] links[m],
    ) by {
        let p = pos[m];
        assert(0 <= p.0 < n);
        assert(pos.contains(p));
        assert(is_link_at(line_chars(lines[p.0]), p.1));
        assert(links[m] == link_at_place(lines, p));
        lemma_link_of_as_worded(line_chars(lines[p.0]), p.0, p.1);
    }
}

/// On screen a mosaic cell takes exactly one column and reads as a space;
/// any other cell takes one column per character of its text. A line's
/// columns are its cells' columns, in order.
pub proof fn law_mosaic_is_one_space_column(c: Cell, a: Seq<Cell>, b: Seq<Cell>)
    ensures
        c.mosaic_url is Some ==> cell_chars(c) == seq![' '],
        c.mosaic_url is None ==> cell_chars(c) == c.text@,
        cells_chars(a + b) == cells_chars(a) + cells_chars(b),
    decreases b.len(),
{
    if b.len() > 0 {
        law_mosaic_is_one_space_column(c, a, b.drop_last());
        assert((a + b).drop_last() == a + b.drop_last());
        assert((a + b).last() == b.last());
    } else {
        assert(a + b == a);
    }
}

/// The arrow keys move the selection one link at a time while no page is
/// loading: Up moves back one link (staying on the first), Down moves
/// forward one (staying on the last); without a selection neither selects
/// anything. Down followed by Up comes back to where it started when there
/// was a link to move to.
pub proof fn law_arrows_move_one_link(s: State, sel: usize)
    requires
        s.fetch is Idle,
    ensures
        s.selected == Some(sel) ==> key_selected(s, Key::Up) == Some(
            if sel > 0 {
                (sel - 1) as usize
            } else {
                0usize
            },
        ),
        s.selected == Some(sel) && sel + 1 < s.links@.len() ==> key_selected(s, Key::Down) == Some(
            (sel + 1) as usize,
        ),
        s.selected == Some(sel) && sel + 1 >= s.links@.len() ==> key_selected(s, Key::Down) == Some(sel),
        s.selected is None ==> key_selected(s, Key::Up) is None && key_selected(s, Key::Down) is None,
        s.selected == Some(sel) && sel + 1 < s.links@.len() ==> key_selected(
            State { selected: key_selected(s, Key::Down), ..s },
            Key::Up,
        ) == Some(sel),
        key_action(s, Key::Up) == Action::NoOp && key_action(s, Key::Down) == Action::NoOp,
{
    assert(s.links@.len() == s.links.len());
    if s.selected == Some(sel) && sel + 1 < s.links@.len() {
        let t = State { selected: key_selected(s, Key::Down), ..s };
        assert(t.selected == Some((sel + 1) as usize));
        assert(t.fetch is Idle);
    }
}

/// What the other keys do while no page is loading: Left and Right ask for
/// the previous and next page inside 100..=999; Enter and Space follow the
/// selected link when it is followable (scanned links are followable from
/// page 100 on); Esc and `q` quit, even while a page
/// is loading, and while one is loading every other key does nothing.
pub proof fn law_page_keys(s: State, key: Key)
    ensures
        s.fetch is Idle && s.current_page > 100 ==> key_action(s, Key::Left) == Action::StartFetch(
            (s.current_page - 1) as u16,
        ),
        s.fetch is Idle && s.current_page <= 100 ==> key_action(s, Key::Left) == Action::NoOp
            && key_status(s, Key::Left) == Some(first_page_message()),
        s.fetch is Idle && s.current_page < 999 ==> key_action(s, Key::Right) == Action::StartFetch(
            (s.current_page + 1) as u16,
        ),
        s.fetch is Idle && s.current_page >= 999 ==> key_action(s, Key::Right) == Action::NoOp
            && key_status(s, Key::Right) == Some(last_page_message()),
        s.fetch is Idle && (key == Key::Enter || key == Key::Char(' ')) ==> key_action(s, key) == (
        match selected_link(s) {
            Some(l) => if l.followable {
                Action::StartFetch(l.target)
            } else {
                Action::NoOp
            },
            None => Action::NoOp,
        }),
        (key == Key::Esc || key == Key::Char('q')) ==> key_action(s, key) == Action::Quit,
        s.fetch is Fetching && key != Key::Esc && key != Key::Char('q') ==> key_action(s, key)
            == Action::NoOp && key_selected(s, key) == s.selected && key_input_buf(s, key)
            == s.input_buf@ && key_status(s, key) == opt_view(s.status),
{
}

/// Typing while no page loads: a digit joins the input field until it holds
/// three bytes; the third asks for that page when it lies in 100..=999, and
/// otherwise reports the value, either way emptying the field. Any other
/// character (`q` and space aside) leaves the field alone, and Backspace
/// removes the last character.
pub proof fn law_typing(s: State, c: char)
    requires
        s.fetch is Idle,
        c != 'q' && c != ' ',
    ensures
        ('0' <= c <= '9') && byte_len(s.input_buf@.push(c)) != 3 ==> key_input_buf(s, Key::Char(c))
            == s.input_buf@.push(c) && key_action(s, Key::Char(c)) == Action::NoOp && key_status(
            s,
            Key::Char(c),
        ) is None,
        ('0' <= c <= '9') && byte_len(s.input_buf@.push(c)) == 3 ==> {
            let v = typed_value(s.input_buf@.push(c));
            &&& key_input_buf(s, Key::Char(c)) == Seq::<char>::empty()
            &&& (100 <= v <= 999 ==> key_action(s, Key::Char(c)) == Action::StartFetch(v as u16)
                && key_status(s, Key::Char(c)) is None)
            &&& (!(100 <= v <= 999) ==> key_action(s, Key::Char(c)) == Action::NoOp && key_status(
                s,
                Key::Char(c),
            ) == Some(out_of_range_message(v)))
        },
        !('0' <= c <= '9') ==> key_input_buf(s, Key::Char(c)) == s.input_buf@ && key_action(
            s,
            Key::Char(c),
        ) == Action::NoOp,
        key_input_buf(s, Key::Backspace) == (if s.input_buf@.len() > 0 {
            s.input_buf@.drop_last()
        } else {
            s.input_buf@
        }),
        key_action(s, Key::Backspace) == Action::NoOp,
{
}

/// A text no wider than `width` is centred in it: it starts at column
/// `(width - len) / 2` and spaces fill the rest; a wider text is cut to
/// its first `width` characters.
pub proof fn law_center_pad_centres(text: Seq<char>, width: nat)
    ensures
        text.len() <= width ==> {
            let r = center_pad(text, width);
            let left = (width - text.len()) / 2;
            &&& r.subrange(left, left + text.len()) == text
            &&& forall|k: int| 0 <= k < r.len() && !(left <= k < left + text.len()) ==> #[trigger] r[k] == ' '
        },
        text.len() > width ==> center_pad(text, width) == text.take(width as int),
{
    if text.len() <= width && text.len() < width {
        let r = center_pad(text, width);
        let pad = (width - text.len()) as nat;
        let left = pad / 2;
        assert(r.subrange(left as int, (left + text.len()) as int) =~= text);
    } else if text.len() == width {
        assert(center_pad(text, width) == text);
        assert(text.subrange(0, text.len() as int) =~= text);
    }
}

/// The hint bar is always exactly `width` cells wide.
pub proof fn law_center_pad_width(text: Seq<char>, width: nat)
    ensures
        center_pad(text, width).len() == width,
{
}

/// Every row of the placeholder page is 40 columns wide.
pub proof fn law_placeholder_rows_are_page_wide(i: int)
    ensures
        placeholder_row_text(i).len() == 40,
{
    reveal_strlit("Sidan finns inte");
}


/// What `draw` needs of a state: rows, columns and the cursor position
/// that fit the terminal's 16-bit coordinates.
pub open spec fn drawable(s: State) -> bool {
    &&& s.lines@.len() < 65535
    &&& byte_len(s.input_buf@) < 65532
    &&& selected_link(s) matches Some(l) ==> l.col_start < 65535
}

/// Whether `draw` may be called on `state`.
pub fn can_draw(state: &State) -> (r: bool)
    ensures
        r == drawable(*state),
{
    if state.lines.len() >= 65535 || state.input_buf.as_str().as_bytes().len() >= 65532 {
        return false;
    }
    match state.selected {
        Some(sel) => sel >= state.links.len() || state.links[sel].col_start < 65535,
        None => true,
    }
}


/// ASCII text takes one UTF-8 byte per character.
pub proof fn lemma_ascii_byte_len(s: Seq<char>)
    requires
        forall|k: int| 0 <= k < s.len() ==> (#[trigger] s[k]) as u32 <= 0x7F,
    ensures
        byte_len(s) == s.len(),
    decreases s.len(),
{
    if s.len() > 0 {
        let t = s.drop_first();
        assert forall|k: int| 0 <= k < t.len() implies (#[trigger] t[k]) as u32 <= 0x7F by {
            assert(t[k] == s[k + 1]);
        }
        lemma_ascii_byte_len(t);
    }
}

/// Typing a page's three digits asks for that page: once the first two
/// digits of a page from 100 to 999 are in the input field, the third
/// starts its fetch and empties the field.
pub proof fn law_typing_a_page_requests_it(s: State, p: u16)
    requires
        s.fetch == FetchState::Idle,
        100 <= p <= 999,
        s.input_buf@ == dec(p as nat).take(2),
    ensures
        dec(p as nat).len() == 3,
        key_action(s, Key::Char(dec(p as nat)[2])) == Action::StartFetch(p),
        key_input_buf(s, Key::Char(dec(p as nat)[2])) == Seq::<char>::empty(),
{
    let d = dec(p as nat);
    crate::cli::lemma_dec_digits(p as nat);
    crate::cli::law_page_numbers_read_back(p);
    reveal_with_fuel(dec, 3);
    assert(d.len() == 3);
    let c = d[2];
    assert(is_digit(c));
    assert(s.input_buf@.push(c) =~= d);
    assert forall|k: int| 0 <= k < d.len() implies (#[trigger] d[k]) as u32 <= 0x7F by {
        assert(is_digit(d[k]));
    }
    lemma_ascii_byte_len(d);
    assert(typed_value(d) == p);
    assert(c != 'q' && c != ' ');
}

/// The columns a link covers on its row lie within the row, start with at
/// most one separator, and hold the three digits of its page.
pub open spec fn link_covers(cs: Seq<char>, l: Link) -> bool {
    &&& l.col_start + l.col_len <= cs.len()
    &&& exists|d: int|
        #![trigger cs[d]]
        l.col_start <= d <= l.col_start + 1 && d + 3 <= l.col_start + l.col_len && is_digit(cs[d])
            && is_digit(cs[d + 1]) && is_digit(cs[d + 2]) && 100 * digit_value(cs[d]) + 10
            * digit_value(cs[d + 1]) + digit_value(cs[d + 2]) == l.target
}

proof fn lemma_link_of_covers(cs: Seq<char>, row: int, i: int)
    requires
        is_link_at(cs, i),
        cs.len() <= 65535,
    ensures
        link_covers(cs, link_of(cs, row, i)),
{
    let l = link_of(cs, row, i);
    let core_end = link_core_end(cs, i);
    let left_pad: int = if i > 0 && is_sep(cs[i - 1]) {
        1
    } else {
        0
    };
    let right_pad: int = if core_end < cs.len() && is_sep(cs[core_end]) {
        1
    } else {
        0
    };
    assert(l.col_start == i - left_pad);
    assert(l.col_len == core_end + right_pad - i + left_pad);
    assert(is_digit(cs[i]));
}

proof fn lemma_links_before_cover(cs: Seq<char>, row: int, k: int)
    requires
        cs.len() <= 65535,
    ensures
        forall|j: int|
            0 <= j < links_before(cs, row, k).len() ==> (#[trigger] links_before(cs, row, k)[j]).row
                == row as u16 && link_covers(cs, links_before(cs, row, k)[j]),
    decreases k,
{
    if k > 0 {
        lemma_links_before_cover(cs, row, k - 1);
        if is_link_at(cs, k - 1) {
            lemma_link_of_covers(cs, row, k - 1);
        }
        let prev = links_before(cs, row, k - 1);
        let cur = links_before(cs, row, k);
        assert forall|j: int| 0 <= j < cur.len() implies (#[trigger] cur[j]).row == row as u16
            && link_covers(cs, cur[j]) by {
            if j < prev.len() {
                assert(cur[j] == prev[j]);
            }
        }
    }
}

proof fn lemma_links_of_lines_cover(lines: Seq<Line>, n: int)
    requires
        n <= lines.len() <= 65535,
        forall|r: int| 0 <= r < lines.len() ==> (#[trigger] line_chars(lines[r])).len() <= 65535,
    ensures
        forall|j: int|
            0 <= j < links_of_lines(lines, n).len() ==> ((#[trigger] links_of_lines(lines, n)[j]).row
                as int) < n && link_covers(
                line_chars(lines[links_of_lines(lines, n)[j].row as int]),
                links_of_lines(lines, n)[j],
            ),
    decreases n,
{
    if n > 0 {
        lemma_links_of_lines_cover(lines, n - 1);
        let cs = line_chars(lines[n - 1]);
        lemma_links_before_cover(cs, n - 1, cs.len() as int);
        let prev = links_of_lines(lines, n - 1);
        let rowl = links_before(cs, n - 1, cs.len() as int);
        let cur = links_of_lines(lines, n);
        assert forall|j: int| 0 <= j < cur.len() implies ((#[trigger] cur[j]).row as int) < n
            && link_covers(line_chars(lines[cur[j].row as int]), cur[j]) by {
            if j < prev.len() {
                assert(cur[j] == prev[j]);
            } else {
                assert(cur[j] == rowl[j - prev.len()]);
                assert(cur[j].row == (n - 1) as u16);
            }
        }
    }
}

/// What the browser highlights for a scanned link is that link: the
/// columns it covers lie on its row of the page, and they hold, after at
/// most one separator, the three digits of the page it leads to. (Rows and
/// lines are taken to fit the 16-bit link coordinates.)
pub proof fn law_highlight_shows_the_link(lines: Seq<Line>)
    requires
        lines.len() <= 65535,
        forall|r: int| 0 <= r < lines.len() ==> (#[trigger] line_chars(lines[r])).len() <= 65535,
    ensures
        forall|j: int|
            0 <= j < spec_scan_links(lines).len() ==> {
                let l = #[trigger] spec_scan_links(lines)[j];
                &&& (l.row as int) < lines.len()
                &&& link_covers(line_chars(lines[l.row as int]), l)
                &&& visible_at(lines[l.row as int], l.col_start as int, l.col_len as int)
                    == line_chars(lines[l.row as int]).subrange(
                    l.col_start as int,
                    l.col_start + l.col_len,
                )
            },
{
    lemma_links_of_lines_cover(lines, lines.len() as int);
}

} // verus!
