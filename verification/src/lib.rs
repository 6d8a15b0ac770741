//! Core logic of a small TOTP authenticator: base32 secrets, the secrets file
//! format, time-based codes and the layout decisions of its window.

pub mod base32;
pub mod clipboard;
pub mod secrets;
pub mod text;
pub mod totp;
pub mod ui;

pub use base32::base32_decode;
pub use clipboard::wide_nul_terminated;
pub use secrets::parse_secrets;
pub use text::chars_of;
pub use totp::{Account, format_code, seconds_remaining_at, period_at, current_period};
pub use ui::{Rect, WindowState, ButtonPlacement, TimerChange, rect_intersects, client_rect, copy_buttons, timer_repaint_regions, copy_command_row, timer_change_on_resize, button_fill_color, CodeCache, TextDraw, display_codes, countdown_seconds, paint_plan, copy_request, layout_fits_count,
    BACKGROUND_COLOR, TEXT_COLOR, BUTTON_BORDER_COLOR, BUTTON_PRESSED_COLOR, BUTTON_NORMAL_COLOR,
    TIMER_UPDATE, TIMER_INTERVAL_MS};
