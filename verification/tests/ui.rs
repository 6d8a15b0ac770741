use totp_win_app::{
    button_fill_color, client_rect, copy_buttons, copy_command_row, countdown_seconds,
    display_codes, paint_plan, rect_intersects, timer_change_on_resize, timer_repaint_regions,
    Account, CodeCache, Rect, TextDraw, TimerChange, WindowState,
};

fn r(left: i32, top: i32, right: i32, bottom: i32) -> Rect {
    Rect { left, top, right, bottom }
}

fn state(names: &[&str], invalid: usize) -> WindowState {
    WindowState {
        accounts: names
            .iter()
            .map(|n| Account::new(n.to_string(), "JBSWY3DPEHPK3PXP".to_string()))
            .collect(),
        invalid_line_count: invalid,
    }
}

fn plan(draws: &[TextDraw]) -> Vec<(String, Rect, u32)> {
    draws.iter().map(|d| (d.text.clone(), d.rect, d.color)).collect()
}

const TEXT: u32 = 0x00E0E0E0;
const RED: u32 = 0x000000FF;

#[test]
fn rects_overlap_only_with_common_area() {
    assert!(rect_intersects(r(0, 0, 10, 10), r(5, 5, 15, 15)));
    assert!(!rect_intersects(r(0, 0, 10, 10), r(10, 0, 20, 10)));
    assert!(!rect_intersects(r(0, 0, 10, 10), r(0, 10, 10, 20)));
    assert!(rect_intersects(r(0, 0, 340, 60), r(10, 60, 340, 92)) == false);
}

#[test]
fn client_area_holds_every_row() {
    assert_eq!(client_rect(0, 0), r(0, 0, 340, 42));
    assert_eq!(client_rect(1, 0), r(0, 0, 340, 82));
    assert_eq!(client_rect(3, 0), r(0, 0, 340, 162));
    assert_eq!(client_rect(18, 0), r(0, 0, 340, 762));
    assert_eq!(client_rect(19, 0), r(0, 0, 340, 802));
    assert_eq!(client_rect(1000, 0), r(0, 0, 340, 40042));
}

#[test]
fn client_area_holds_the_invalid_lines_notice() {
    assert_eq!(client_rect(0, 2), r(0, 0, 340, 90));
    assert_eq!(client_rect(2, 1), r(0, 0, 340, 170));
}

#[test]
fn copy_buttons_sit_beside_each_row() {
    let buttons = copy_buttons(3);
    assert_eq!(buttons.len(), 3);
    for (i, b) in buttons.iter().enumerate() {
        assert_eq!(b.id, 2000 + i as i32);
        assert_eq!((b.x, b.y, b.width, b.height), (265, 5 + 40 * i as i32, 56, 25));
    }
    assert!(copy_buttons(0).is_empty());
}

#[test]
fn timer_repaints_codes_only_on_rollover() {
    assert_eq!(timer_repaint_regions(2, 7, 7), vec![r(10, 100, 340, 132)]);
    assert_eq!(
        timer_repaint_regions(2, 8, 7),
        vec![r(0, 0, 340, 100), r(10, 100, 340, 132)]
    );
}

#[test]
fn commands_name_their_row() {
    assert_eq!(copy_command_row(2000), Some(0));
    assert_eq!(copy_command_row(2003), Some(3));
    assert_eq!(copy_command_row(0x1_0000 + 2001), Some(1));
    assert_eq!(copy_command_row(1999), None);
    assert_eq!(copy_command_row(5), None);
}

#[test]
fn timer_follows_minimize_and_restore() {
    assert_eq!(timer_change_on_resize(1), TimerChange::Stop);
    assert_eq!(timer_change_on_resize(0), TimerChange::Start);
    assert_eq!(timer_change_on_resize(2), TimerChange::Start);
    assert_eq!(timer_change_on_resize(3), TimerChange::Keep);
    assert_eq!(timer_change_on_resize(4), TimerChange::Keep);
}

#[test]
fn pressed_buttons_are_lighter() {
    assert_eq!(button_fill_color(0), 0x004A4A4A);
    assert_eq!(button_fill_color(1), 0x00666666);
    assert_eq!(button_fill_color(0x10), 0x004A4A4A);
    assert_eq!(button_fill_color(0x11), 0x00666666);
}

#[test]
fn empty_state_shows_the_hint() {
    let s = state(&[], 0);
    let draws = paint_plan(&s, &vec![], 12, r(0, 0, 340, 768));
    assert_eq!(
        plan(&draws),
        vec![(
            "No accounts configured. Please edit secrets.txt".to_string(),
            r(10, 10, 330, 50),
            TEXT
        )]
    );
}

#[test]
fn empty_state_still_counts_invalid_lines() {
    let s = state(&[], 3);
    let draws = paint_plan(&s, &vec![], 12, r(0, 0, 340, 90));
    assert_eq!(
        plan(&draws),
        vec![
            (
                "No accounts configured. Please edit secrets.txt".to_string(),
                r(10, 10, 330, 50),
                TEXT
            ),
            ("3 invalid lines in secrets.txt".to_string(), r(10, 60, 330, 90), RED),
        ]
    );
}

#[test]
fn full_paint_draws_rows_countdown_and_notice() {
    let s = state(&["GitHub", "AWS"], 2);
    let codes = vec!["123456".to_string(), "654321".to_string()];
    let draws = paint_plan(&s, &codes, 7, r(0, 0, 340, 768));
    assert_eq!(
        plan(&draws),
        vec![
            ("GitHub".to_string(), r(10, 10, 200, 40), TEXT),
            ("123456".to_string(), r(210, 10, 265, 40), TEXT),
            ("AWS".to_string(), r(10, 50, 200, 80), TEXT),
            ("654321".to_string(), r(210, 50, 265, 80), TEXT),
            ("Next code in:  7s   ".to_string(), r(10, 100, 340, 130), TEXT),
            ("2 invalid lines in secrets.txt".to_string(), r(10, 140, 330, 170), RED),
        ]
    );
    assert_eq!(draws[4].text, format!("Next code in: {:2}s   ", 7));
}

#[test]
fn partial_paint_draws_only_what_it_meets() {
    let s = state(&["GitHub", "AWS"], 0);
    let codes = vec!["123456".to_string()];
    // Only the countdown strip.
    let draws = paint_plan(&s, &codes, 30, r(10, 100, 340, 132));
    assert_eq!(
        plan(&draws),
        vec![("Next code in: 30s   ".to_string(), r(10, 100, 340, 130), TEXT)]
    );
    // The rows, with a code known for the first only.
    let draws = paint_plan(&s, &codes, 0, r(0, 0, 340, 100));
    assert_eq!(
        plan(&draws),
        vec![
            ("GitHub".to_string(), r(10, 10, 200, 40), TEXT),
            ("123456".to_string(), r(210, 10, 265, 40), TEXT),
            ("AWS".to_string(), r(10, 50, 200, 80), TEXT),
        ]
    );
    // A zero countdown is shown as one second.
    let draws = paint_plan(&s, &codes, 0, r(10, 100, 340, 132));
    assert_eq!(draws[0].text, "Next code in:  1s   ");
}

#[test]
fn codes_for_display() {
    let mut s = state(&["A", "B"], 0);
    s.accounts.push(Account::new("Bad".to_string(), "???".to_string()));
    let codes = display_codes(&s);
    assert_eq!(codes.len(), 3);
    assert_eq!(codes[0].len(), 6);
    assert!(codes[0].chars().all(|c| c.is_ascii_digit()));
    assert_eq!(codes[2], "");
}

#[test]
fn cache_recomputes_once_per_period() {
    let s = state(&["A"], 0);
    let mut cache = CodeCache::new();
    assert_eq!(cache.period, 0);
    assert!(cache.codes.is_empty());
    cache.refresh(&s, 0);
    assert!(cache.codes.is_empty());
    cache.refresh(&s, 5);
    assert_eq!(cache.period, 5);
    assert_eq!(cache.codes.len(), 1);
    cache.codes[0] = "kept".to_string();
    cache.refresh(&s, 5);
    assert_eq!(cache.codes[0], "kept");
}

#[test]
fn countdown_comes_from_the_first_account() {
    assert_eq!(countdown_seconds(&state(&[], 0)), 30);
    let c = countdown_seconds(&state(&["A"], 0));
    assert!(c >= 1 && c <= 30);
}

#[test]
fn copy_takes_the_code_of_the_clicked_row() {
    let mut s = state(&["A", "B"], 0);
    s.accounts.push(Account::new("Bad".to_string(), "???".to_string()));
    let code = totp_win_app::copy_request(&s, 2001).unwrap();
    assert_eq!(code.len(), 6);
    assert!(code.chars().all(|c| c.is_ascii_digit()));
    assert_eq!(totp_win_app::copy_request(&s, 2002), None);
    assert_eq!(totp_win_app::copy_request(&s, 2003), None);
    assert_eq!(totp_win_app::copy_request(&s, 1), None);
}
