//! Sanitizing the persisted settings: saved values are brought back into
//! safe bounds, so that tampered storage cannot make the editor unusable.
use vstd::prelude::*;
use crate::text::{chars_of, string_from_chars};
use crate::wikilink::eq_chars;

verus! {

/// Smallest accepted editor font size, in pixels.
pub const MIN_FONT_SIZE: u32 = 8;
/// Largest accepted editor font size, in pixels.
pub const MAX_FONT_SIZE: u32 = 32;
/// Shortest accepted auto-save delay, in milliseconds.
pub const MIN_AUTO_SAVE_DELAY_MS: u32 = 200;
/// Longest accepted auto-save delay, in milliseconds.
pub const MAX_AUTO_SAVE_DELAY_MS: u32 = 10_000;

/// `v` brought into `[lo, hi]`.
pub open spec fn clamped(v: int, lo: int, hi: int) -> int {
    if v < lo {
        lo
    } else if v > hi {
        hi
    } else {
        v
    }
}

/// The font size, clamped to `[8, 32]`.
pub fn sanitize_font_size(font_size: u32) -> (r: u32)
    ensures
        r == clamped(font_size as int, MIN_FONT_SIZE as int, MAX_FONT_SIZE as int),
{
    if font_size < MIN_FONT_SIZE {
        MIN_FONT_SIZE
    } else if font_size > MAX_FONT_SIZE {
        MAX_FONT_SIZE
    } else {
        font_size
    }
}

/// The auto-save delay, clamped to `[200, 10000]` milliseconds.
pub fn sanitize_auto_save_delay(delay_ms: u32) -> (r: u32)
    ensures
        r == clamped(delay_ms as int, MIN_AUTO_SAVE_DELAY_MS as int, MAX_AUTO_SAVE_DELAY_MS as int),
{
    if delay_ms < MIN_AUTO_SAVE_DELAY_MS {
        MIN_AUTO_SAVE_DELAY_MS
    } else if delay_ms > MAX_AUTO_SAVE_DELAY_MS {
        MAX_AUTO_SAVE_DELAY_MS
    } else {
        delay_ms
    }
}

/// The themes the application knows.
pub open spec fn is_known_theme(t: Seq<char>) -> bool {
    t == "dark"@ || t == "light"@ || t == "system"@
}

/// The theme used when none (or an unknown one) is saved: `dark`.
pub fn default_theme() -> (r: String)
    ensures
        r@ == "dark"@,
{
    string_from_chars(chars_of("dark"))
}

/// The saved theme if it is `dark`, `light` or `system`; `dark` otherwise.
pub fn sanitize_theme(theme: &str) -> (r: String)
    ensures
        r@ == if is_known_theme(theme@) {
            theme@
        } else {
            "dark"@
        },
{
    let t = chars_of(theme);
    if eq_chars(t.as_slice(), chars_of("dark").as_slice()) || eq_chars(
        t.as_slice(),
        chars_of("light").as_slice(),
    ) || eq_chars(t.as_slice(), chars_of("system").as_slice()) {
        string_from_chars(t)
    } else {
        default_theme()
    }
}

/// Sanitizing is idempotent and its results are in bounds: sanitized
/// settings stay as they are when sanitized again.
pub proof fn law_sanitize_idempotent(v: int, lo: int, hi: int, theme: Seq<char>)
    requires
        lo <= hi,
    ensures
        lo <= clamped(v, lo, hi) <= hi,
        clamped(clamped(v, lo, hi), lo, hi) == clamped(v, lo, hi),
        is_known_theme(if is_known_theme(theme) { theme } else { "dark"@ }),
{
}

} // verus!
