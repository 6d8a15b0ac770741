//! The decisions behind the window: its size, where the copy buttons go,
//! what a timer tick repaints, which button a command names, how a button is
//! filled, and what a paint draws where. The window system itself stays
//! outside the library; it hands these functions plain values.

use vstd::prelude::*;

use crate::text::{decimal, pad_left, push_char, push_decimal};
use crate::totp::{Account, AccountView, all_ascii_digits, code_at_time, remaining_in_period};

verus! {

broadcast use vstd::string::group_string_axioms;

/// Width of the client area.
pub const CLIENT_WIDTH: i32 = 340;
/// Command identifier of the first copy button; button `i` has this plus `i`.
pub const COPY_BUTTON_BASE: i32 = 2000;
/// Identifier of the one-second timer.
pub const TIMER_UPDATE: usize = 1;
/// Interval of that timer, in milliseconds.
pub const TIMER_INTERVAL_MS: u32 = 1000;
/// Window background (`COLORREF`, 0x00BBGGRR).
pub const BACKGROUND_COLOR: u32 = 0x002D2D2D;
/// Text colour.
pub const TEXT_COLOR: u32 = 0x00E0E0E0;
/// Colour of the invalid-lines notice.
pub const ERROR_COLOR: u32 = 0x000000FF;
/// Fill of a copy button at rest.
pub const BUTTON_NORMAL_COLOR: u32 = 0x004A4A4A;
/// Fill of a copy button while pressed.
pub const BUTTON_PRESSED_COLOR: u32 = 0x00666666;
/// Frame of a copy button.
pub const BUTTON_BORDER_COLOR: u32 = 0x00888888;

/// A rectangle in client coordinates; `right` and `bottom` are exclusive.
#[derive(Clone, Copy, Debug, PartialEq, Eq, Structural)]
pub struct Rect {
    pub left: i32,
    pub top: i32,
    pub right: i32,
    pub bottom: i32,
}

/// The rectangle with the given sides.
pub open spec fn rect(left: int, top: int, right: int, bottom: int) -> Rect {
    Rect { left: left as i32, top: top as i32, right: right as i32, bottom: bottom as i32 }
}

/// Whether two rectangles overlap.
pub open spec fn rects_overlap(a: Rect, b: Rect) -> bool {
    a.left < b.right && a.right > b.left && a.top < b.bottom && a.bottom > b.top
}

/// Decides `rects_overlap`.
pub fn rect_intersects(a: Rect, b: Rect) -> (res: bool)
    ensures
        res == rects_overlap(a, b),
{
    a.left < b.right && a.right > b.left && a.top < b.bottom && a.bottom > b.top
}

/// What the window shows: the accounts and how many lines of the secrets
/// file were invalid.
pub struct WindowState {
    pub accounts: Vec<Account>,
    pub invalid_line_count: usize,
}

/// Whether `n` account rows, the countdown and the notice below them have
/// coordinates that fit in an `i32`.
pub open spec fn layout_fits(n: nat) -> bool {
    40 * n + 90 <= i32::MAX
}

/// Decides `layout_fits`.
pub fn layout_fits_count(account_count: usize) -> (res: bool)
    ensures
        res == layout_fits(account_count as nat),
{
    account_count <= 53_687_088
}

/// Top of account row `i`.
pub open spec fn row_top(i: int) -> int {
    10 + 40 * i
}

/// Top of the countdown line below `n` rows.
pub open spec fn countdown_top(n: int) -> int {
    10 + 40 * n + 10
}

/// Top of the invalid-lines notice below `n` rows.
pub open spec fn notice_top(n: int) -> int {
    10 + 40 * n + 50
}

/// Height of the client area for `n` accounts and `invalid` invalid lines:
/// `10 + 40 * n + 32`, room for every row and the countdown. When there are
/// invalid lines it reaches down to the bottom of the notice that reports
/// their count, so that the count is on screen.
pub open spec fn client_height(n: nat, invalid: nat) -> int {
    if invalid == 0 {
        10 + n as int * 40 + 32
    } else {
        notice_top(n as int) + 30
    }
}

/// The client area of the window for `account_count` accounts and
/// `invalid_line_count` invalid lines.
pub fn client_rect(account_count: usize, invalid_line_count: usize) -> (res: Rect)
    requires
        layout_fits(account_count as nat),
    ensures
        res == rect(
            0,
            0,
            CLIENT_WIDTH as int,
            client_height(account_count as nat, invalid_line_count as nat),
        ),
{
    let n = account_count as i32;
    let height: i32 = if invalid_line_count == 0 {
        10 + n * 40 + 32
    } else {
        10 + n * 40 + 50 + 30
    };
    Rect { left: 0, top: 0, right: CLIENT_WIDTH, bottom: height }
}

/// Where a copy button goes and the command it sends.
#[derive(Clone, Copy, Debug, PartialEq, Eq, Structural)]
pub struct ButtonPlacement {
    pub id: i32,
    pub x: i32,
    pub y: i32,
    pub width: i32,
    pub height: i32,
}

/// The copy button of row `i`: beside the code, 56 by 25, command
/// `COPY_BUTTON_BASE + i`.
pub open spec fn copy_button(i: int) -> ButtonPlacement {
    ButtonPlacement {
        id: (COPY_BUTTON_BASE + i) as i32,
        x: 265,
        y: (row_top(i) - 5) as i32,
        width: 56,
        height: 25,
    }
}

/// The copy buttons of `account_count` rows, one per row, in order.
pub fn copy_buttons(account_count: usize) -> (res: Vec<ButtonPlacement>)
    requires
        layout_fits(account_count as nat),
    ensures
        res@.len() == account_count,
        forall|i: int| 0 <= i < account_count ==> #[trigger] res@[i] == copy_button(i),
{
    let mut res: Vec<ButtonPlacement> = Vec::new();
    let mut i: usize = 0;
    while i < account_count
        invariant
            i <= account_count,
            layout_fits(account_count as nat),
            res@.len() == i,
            forall|j: int| 0 <= j < i ==> #[trigger] res@[j] == copy_button(j),
        decreases account_count - i,
    {
        let k = i as i32;
        res.push(ButtonPlacement { id: COPY_BUTTON_BASE + k, x: 265, y: 10 + k * 40 - 5, width: 56, height: 25 });
        i = i + 1;
    }
    res
}

/// The part of the window that holds the codes of `n` rows.
pub open spec fn codes_region(n: int) -> Rect {
    rect(0, 0, CLIENT_WIDTH as int, countdown_top(n))
}

/// The strip that holds the countdown below `n` rows.
pub open spec fn countdown_region(n: int) -> Rect {
    rect(10, countdown_top(n), CLIENT_WIDTH as int, countdown_top(n) + 32)
}

/// What one tick of the timer repaints: the countdown strip every time, and
/// the codes too when the period has moved on from the one the codes were
/// computed for.
pub fn timer_repaint_regions(account_count: usize, period: u64, cached_period: u64) -> (res: Vec<Rect>)
    requires
        layout_fits(account_count as nat),
    ensures
        res@ == if period != cached_period {
            seq![codes_region(account_count as int), countdown_region(account_count as int)]
        } else {
            seq![countdown_region(account_count as int)]
        },
{
    let n = account_count as i32;
    let timer_y = 10 + n * 40 + 10;
    let mut res: Vec<Rect> = Vec::new();
    if period != cached_period {
        res.push(Rect { left: 0, top: 0, right: CLIENT_WIDTH, bottom: timer_y });
    }
    res.push(Rect { left: 10, top: timer_y, right: CLIENT_WIDTH, bottom: timer_y + 32 });
    res
}

/// The row whose copy button a command with this `WPARAM` comes from: the
/// low 16 bits less `COPY_BUTTON_BASE`, when that is not negative.
pub open spec fn command_row(wparam: usize) -> Option<usize> {
    let id = wparam as int % 0x10000;
    if id >= COPY_BUTTON_BASE {
        Some((id - COPY_BUTTON_BASE) as usize)
    } else {
        None
    }
}

/// Decides `command_row`.
pub fn copy_command_row(wparam: usize) -> (res: Option<usize>)
    ensures
        res == command_row(wparam),
{
    let low = wparam & 0xFFFF;
    assert(wparam & 0xFFFF == wparam % 0x10000) by (bit_vector);
    let id = low as i32 - COPY_BUTTON_BASE;
    if id >= 0 {
        Some(id as usize)
    } else {
        None
    }
}

/// What a resize does to the one-second timer.
#[derive(Clone, Copy, Debug, PartialEq, Eq, Structural)]
pub enum TimerChange {
    /// Kill the timer.
    Stop,
    /// (Re)start the timer.
    Start,
    /// Leave it as it is.
    Keep,
}

/// `SIZE_RESTORED` of `WM_SIZE`.
pub const SIZE_RESTORED: u32 = 0;
/// `SIZE_MINIMIZED` of `WM_SIZE`.
pub const SIZE_MINIMIZED: u32 = 1;
/// `SIZE_MAXIMIZED` of `WM_SIZE`.
pub const SIZE_MAXIMIZED: u32 = 2;

/// The timer stops while the window is minimized and runs again when it is
/// restored or maximized.
pub fn timer_change_on_resize(wparam: usize) -> (res: TimerChange)
    ensures
        res == if wparam as u32 == SIZE_MINIMIZED {
            TimerChange::Stop
        } else if wparam as u32 == SIZE_RESTORED || wparam as u32 == SIZE_MAXIMIZED {
            TimerChange::Start
        } else {
            TimerChange::Keep
        },
{
    let size_type = wparam as u32;
    if size_type == SIZE_MINIMIZED {
        TimerChange::Stop
    } else if size_type == SIZE_RESTORED || size_type == SIZE_MAXIMIZED {
        TimerChange::Start
    } else {
        TimerChange::Keep
    }
}

/// The fill of a copy button: the pressed colour while `ODS_SELECTED` (bit 0
/// of the item state) is set.
pub fn button_fill_color(item_state: u32) -> (res: u32)
    ensures
        res == if item_state % 2 == 1 { BUTTON_PRESSED_COLOR } else { BUTTON_NORMAL_COLOR },
{
    assert((item_state & 1) != 0 <==> item_state % 2 == 1) by (bit_vector);
    if (item_state & 1) != 0 {
        BUTTON_PRESSED_COLOR
    } else {
        BUTTON_NORMAL_COLOR
    }
}


// ----------------------------------------------------------------------------
// Codes shown in the window
// ----------------------------------------------------------------------------

/// What the window shows as the code of an account: its current code, or
/// nothing for an account without secret bytes.
pub open spec fn is_display_code(account: AccountView, code: Seq<char>) -> bool {
    if account.secret.len() == 0 {
        code.len() == 0
    } else {
        &&& exists|t: u64| code == #[trigger] code_at_time(account.secret, t)
        &&& code.len() == 6
        &&& all_ascii_digits(code)
    }
}

/// The codes to show, one per account, in order.
pub fn display_codes(state: &WindowState) -> (res: Vec<String>)
    ensures
        res@.len() == state.accounts@.len(),
        forall|i: int|
            0 <= i < res@.len() ==> is_display_code(state.accounts@[i]@, #[trigger] res@[i]@),
{
    let mut res: Vec<String> = Vec::new();
    let mut i: usize = 0;
    while i < state.accounts.len()
        invariant
            i <= state.accounts@.len(),
            res@.len() == i,
            forall|j: int|
                0 <= j < i ==> is_display_code(state.accounts@[j]@, #[trigger] res@[j]@),
        decreases state.accounts@.len() - i,
    {
        let code = match state.accounts[i].current_code() {
            Ok(c) => c,
            Err(_) => String::new(),
        };
        res.push(code);
        i = i + 1;
    }
    res
}

/// The codes of one period, kept so that they are computed once per period.
pub struct CodeCache {
    pub period: u64,
    pub codes: Vec<String>,
}

impl CodeCache {
    /// A cache that holds nothing, for period 0.
    pub fn new() -> (res: Self)
        ensures
            res.period == 0,
            res.codes@.len() == 0,
    {
        CodeCache { period: 0, codes: Vec::new() }
    }

    /// Brings the cache to `period`: when it holds another period, it takes
    /// `period` and recomputes the codes; otherwise it stays as it is.
    pub fn refresh(&mut self, state: &WindowState, period: u64)
        ensures
            old(self).period == period ==> final(self).period == old(self).period
                && final(self).codes@ == old(self).codes@,
            old(self).period != period ==> {
                &&& final(self).period == period
                &&& final(self).codes@.len() == state.accounts@.len()
                &&& forall|i: int|
                    0 <= i < state.accounts@.len() ==> is_display_code(
                        state.accounts@[i]@,
                        #[trigger] final(self).codes@[i]@,
                    )
            },
    {
        if self.period != period {
            self.period = period;
            self.codes = display_codes(state);
        }
    }
}

/// The seconds that the countdown shows before it is clamped: those of the
/// first account, or 30 when there is none.
pub fn countdown_seconds(state: &WindowState) -> (res: u32)
    ensures
        1 <= res <= 30,
        state.accounts@.len() == 0 ==> res == 30,
        state.accounts@.len() > 0 ==> exists|t: u64| res == #[trigger] remaining_in_period(t),
{
    if state.accounts.len() == 0 {
        30
    } else {
        state.accounts[0].time_remaining()
    }
}

/// What a copy command copies: the current code of the account whose button
/// sent it, when there is such an account and it has a code.
pub fn copy_request(state: &WindowState, wparam: usize) -> (res: Option<String>)
    ensures
        match res {
            Some(code) => command_row(wparam) matches Some(row) && row < state.accounts@.len()
                && state.accounts@[row as int]@.secret.len() > 0 && is_display_code(
                state.accounts@[row as int]@,
                code@,
            ),
            None => match command_row(wparam) {
                Some(row) => row >= state.accounts@.len() || state.accounts@[row as int]@.secret.len()
                    == 0,
                None => true,
            },
        },
{
    match copy_command_row(wparam) {
        Some(row) => {
            if row < state.accounts.len() {
                match state.accounts[row].current_code() {
                    Ok(code) => Some(code),
                    Err(_) => None,
                }
            } else {
                None
            }
        },
        None => None,
    }
}

// ----------------------------------------------------------------------------
// Painting
// ----------------------------------------------------------------------------

/// A piece of text to draw, left-aligned and vertically centred in `rect`.
pub struct TextDraw {
    pub text: String,
    pub rect: Rect,
    pub color: u32,
}

/// The abstract content of a `TextDraw`.
pub struct DrawView {
    pub text: Seq<char>,
    pub rect: Rect,
    pub color: u32,
}

impl View for TextDraw {
    type V = DrawView;

    open spec fn view(&self) -> DrawView {
        DrawView { text: self.text@, rect: self.rect, color: self.color }
    }
}

/// The text shown when there is no account.
pub open spec fn no_accounts_text() -> Seq<char> {
    "No accounts configured. Please edit secrets.txt"@
}

/// The countdown line: `Next code in: {:2}s   ` with at least one second.
pub open spec fn countdown_text(remaining: u32) -> Seq<char> {
    let secs: nat = if remaining < 1 { 1 } else { remaining as nat };
    "Next code in: "@ + pad_left(decimal(secs), 2) + "s   "@
}

/// The notice about invalid lines: `{count} invalid lines in secrets.txt`.
pub open spec fn invalid_lines_text(count: nat) -> Seq<char> {
    decimal(count) + " invalid lines in secrets.txt"@
}

/// What row `i` draws when it meets `dirty`: the name, then the code when
/// one is known for the row.
pub open spec fn row_draws(
    names: Seq<Seq<char>>,
    codes: Seq<Seq<char>>,
    i: int,
    dirty: Rect,
) -> Seq<DrawView> {
    let y = row_top(i);
    if !rects_overlap(rect(0, y, CLIENT_WIDTH as int, y + 40), dirty) {
        Seq::empty()
    } else {
        let name = DrawView { text: names[i], rect: rect(10, y, 200, y + 30), color: TEXT_COLOR };
        if i < codes.len() {
            seq![name, DrawView { text: codes[i], rect: rect(210, y, 265, y + 30), color: TEXT_COLOR }]
        } else {
            seq![name]
        }
    }
}

/// What the first `k` rows draw, in order.
pub open spec fn rows_draws(
    names: Seq<Seq<char>>,
    codes: Seq<Seq<char>>,
    k: int,
    dirty: Rect,
) -> Seq<DrawView>
    decreases k,
{
    if k <= 0 {
        Seq::empty()
    } else {
        rows_draws(names, codes, k - 1, dirty) + row_draws(names, codes, k - 1, dirty)
    }
}

/// The rectangle of the countdown line below `n` rows.
pub open spec fn countdown_rect(n: int) -> Rect {
    rect(10, countdown_top(n), CLIENT_WIDTH as int, countdown_top(n) + 30)
}

/// The rectangle of the invalid-lines notice below `n` rows.
pub open spec fn notice_rect(n: int) -> Rect {
    rect(10, notice_top(n), 330, notice_top(n) + 30)
}

/// What a paint of the region `dirty` draws. Without accounts, the hint to
/// edit the secrets file; otherwise each row that meets `dirty` and the
/// countdown when its line meets `dirty`. In both cases, last, the notice
/// that counts the invalid lines when there are some and its line meets
/// `dirty`.
pub open spec fn paint_draws(
    names: Seq<Seq<char>>,
    codes: Seq<Seq<char>>,
    invalid: nat,
    remaining: u32,
    dirty: Rect,
) -> Seq<DrawView> {
    let n = names.len() as int;
    let notice = notice_draws(n, invalid, dirty);
    if n == 0 {
        seq![DrawView { text: no_accounts_text(), rect: rect(10, 10, 330, 50), color: TEXT_COLOR }]
            + notice
    } else {
        let countdown = if rects_overlap(countdown_rect(n), dirty) {
            seq![DrawView { text: countdown_text(remaining), rect: countdown_rect(n), color: TEXT_COLOR }]
        } else {
            Seq::empty()
        };
        rows_draws(names, codes, n, dirty) + countdown + notice
    }
}

/// The names of the accounts of a state, in order.
pub open spec fn account_names(accounts: Seq<Account>) -> Seq<Seq<char>> {
    accounts.map_values(|a: Account| a@.name)
}

/// The text of each string, in order.
pub open spec fn texts(strings: Seq<String>) -> Seq<Seq<char>> {
    strings.map_values(|s: String| s@)
}

proof fn lemma_decimal_len(n: nat)
    ensures
        decimal(n).len() >= 1,
        decimal(n).len() == 1 <==> n < 10,
    decreases n,
{
    if n >= 10 {
        lemma_decimal_len(n / 10);
    }
}

/// Builds `countdown_text(remaining)`.
fn make_countdown_text(remaining: u32) -> (res: String)
    ensures
        res@ == countdown_text(remaining),
{
    let secs: u32 = if remaining < 1 { 1 } else { remaining };
    let mut text = String::from_str("Next code in: ");
    proof {
        reveal_strlit("Next code in: ");
        reveal_strlit("s   ");
        lemma_decimal_len(secs as nat);
    }
    let ghost prefix = text@;
    if secs < 10 {
        push_char(&mut text, ' ');
    }
    push_decimal(&mut text, secs as u64);
    text.append("s   ");
    proof {
        if secs < 10 {
            assert(pad_left(decimal(secs as nat), 2) == seq![' '] + decimal(secs as nat));
        }
    }
    text
}

/// Builds `invalid_lines_text(count)`.
fn make_invalid_lines_text(count: usize) -> (res: String)
    ensures
        res@ == invalid_lines_text(count as nat),
{
    let mut text = String::new();
    push_decimal(&mut text, count as u64);
    text.append(" invalid lines in secrets.txt");
    text
}

/// The notice that counts the invalid lines below `n` rows, when there are
/// some and its line meets `dirty`.
pub open spec fn notice_draws(n: int, invalid: nat, dirty: Rect) -> Seq<DrawView> {
    if invalid > 0 && rects_overlap(notice_rect(n), dirty) {
        seq![DrawView { text: invalid_lines_text(invalid), rect: notice_rect(n), color: ERROR_COLOR }]
    } else {
        Seq::empty()
    }
}

/// Appends `notice_draws(n, invalid, dirty)`.
fn push_notice(out: &mut Vec<TextDraw>, n: usize, invalid: usize, dirty: Rect)
    requires
        layout_fits(n as nat),
    ensures
        final(out)@.map_values(|d: TextDraw| d@) == old(out)@.map_values(|d: TextDraw| d@)
            + notice_draws(n as int, invalid as nat, dirty),
{
    let ghost before = old(out)@.map_values(|d: TextDraw| d@);
    if invalid > 0 {
        let y = 10 + (n as i32) * 40 + 50;
        let notice = Rect { left: 10, top: y, right: 330, bottom: y + 30 };
        if rect_intersects(notice, dirty) {
            let text = make_invalid_lines_text(invalid);
            out.push(TextDraw { text, rect: notice, color: ERROR_COLOR });
            assert(out@.map_values(|d: TextDraw| d@) == before + notice_draws(n as int, invalid as nat, dirty));
            return;
        }
    }
    assert(out@.map_values(|d: TextDraw| d@) == before + notice_draws(n as int, invalid as nat, dirty));
}

/// Builds the draws of row `i`.
fn push_row_draws(
    out: &mut Vec<TextDraw>,
    state: &WindowState,
    codes: &Vec<String>,
    i: usize,
    dirty: Rect,
)
    requires
        i < state.accounts@.len(),
        layout_fits(state.accounts@.len() as nat),
    ensures
        final(out)@.map_values(|d: TextDraw| d@) == old(out)@.map_values(|d: TextDraw| d@)
            + row_draws(account_names(state.accounts@), texts(codes@), i as int, dirty),
{
    let y = 10 + (i as i32) * 40;
    let ghost before = old(out)@.map_values(|d: TextDraw| d@);
    if !rect_intersects(Rect { left: 0, top: y, right: CLIENT_WIDTH, bottom: y + 40 }, dirty) {
        assert(out@.map_values(|d: TextDraw| d@) == before + Seq::<DrawView>::empty());
        return;
    }
    let name = state.accounts[i].name_string();
    out.push(TextDraw { text: name, rect: Rect { left: 10, top: y, right: 200, bottom: y + 30 }, color: TEXT_COLOR });
    if i < codes.len() {
        let code = codes[i].clone();
        out.push(TextDraw { text: code, rect: Rect { left: 210, top: y, right: 265, bottom: y + 30 }, color: TEXT_COLOR });
    }
    proof {
        let names = account_names(state.accounts@);
        assert(names[i as int] == state.accounts@[i as int]@.name);
        let row = row_draws(names, texts(codes@), i as int, dirty);
        assert(out@.map_values(|d: TextDraw| d@) == before + row);
    }
}

/// What a paint of `dirty` draws, given the codes of the current period and
/// the seconds left on the countdown.
pub fn paint_plan(state: &WindowState, codes: &Vec<String>, remaining: u32, dirty: Rect) -> (res: Vec<TextDraw>)
    requires
        layout_fits(state.accounts@.len() as nat),
    ensures
        res@.map_values(|d: TextDraw| d@) == paint_draws(
            account_names(state.accounts@),
            texts(codes@),
            state.invalid_line_count as nat,
            remaining,
            dirty,
        ),
{
    let mut out: Vec<TextDraw> = Vec::new();
    let n = state.accounts.len();
    if n == 0 {
        let text = String::from_str("No accounts configured. Please edit secrets.txt");
        out.push(TextDraw { text, rect: Rect { left: 10, top: 10, right: 330, bottom: 50 }, color: TEXT_COLOR });
        push_notice(&mut out, 0, state.invalid_line_count, dirty);
        return out;
    }
    let ghost names = account_names(state.accounts@);
    let ghost code_texts = texts(codes@);
    let mut i: usize = 0;
    while i < n
        invariant
            n == state.accounts@.len(),
            layout_fits(n as nat),
            i <= n,
            names == account_names(state.accounts@),
            code_texts == texts(codes@),
            out@.map_values(|d: TextDraw| d@) == rows_draws(names, code_texts, i as int, dirty),
        decreases n - i,
    {
        push_row_draws(&mut out, state, codes, i, dirty);
        i = i + 1;
    }
    let ghost rows = out@.map_values(|d: TextDraw| d@);
    let timer_y = 10 + (n as i32) * 40 + 10;
    let timer_rect = Rect { left: 10, top: timer_y, right: CLIENT_WIDTH, bottom: timer_y + 30 };
    if rect_intersects(timer_rect, dirty) {
        let text = make_countdown_text(remaining);
        out.push(TextDraw { text, rect: timer_rect, color: TEXT_COLOR });
    }
    let ghost with_countdown = out@.map_values(|d: TextDraw| d@);
    push_notice(&mut out, n, state.invalid_line_count, dirty);
    proof {
        let nn = n as int;
        let countdown = if rects_overlap(countdown_rect(nn), dirty) {
            seq![DrawView { text: countdown_text(remaining), rect: countdown_rect(nn), color: TEXT_COLOR }]
        } else {
            Seq::<DrawView>::empty()
        };
        assert(with_countdown == rows + countdown);
    }
    out
}

} // verus!
