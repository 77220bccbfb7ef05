//! ABCDE prioritization: one letter per task.
//!
//! `A` = must do, `B` = should do, `C` = nice to do, `D` = delegate,
//! `E` = eliminate.
use vstd::prelude::*;

verus! {

/// ABCDE priority level.
#[derive(Debug, Clone, Copy, PartialEq, Eq, Structural, PartialOrd, Ord)]
pub enum Priority {
    /// Must do — critical consequences if not done.
    A,
    /// Should do — mild consequences if not done.
    B,
    /// Nice to do — no consequences if not done.
    C,
    /// Delegate — someone else can do this.
    D,
    /// Eliminate — not worth doing at all.
    E,
}

/// The label of each priority.
pub open spec fn priority_label(p: Priority) -> Seq<char> {
    match p {
        Priority::A => "A - Must do"@,
        Priority::B => "B - Should do"@,
        Priority::C => "C - Nice to do"@,
        Priority::D => "D - Delegate"@,
        Priority::E => "E - Eliminate"@,
    }
}

/// The badge color of each priority, as a CSS hex color.
pub open spec fn priority_color(p: Priority) -> Seq<char> {
    match p {
        Priority::A => "#ef4444"@,
        Priority::B => "#f97316"@,
        Priority::C => "#eab308"@,
        Priority::D => "#3b82f6"@,
        Priority::E => "#6b7280"@,
    }
}

impl Priority {
    /// Returns a short human-readable label.
    pub fn label(self) -> (r: &'static str)
        ensures
            r@ == priority_label(self),
    {
        match self {
            Priority::A => "A - Must do",
            Priority::B => "B - Should do",
            Priority::C => "C - Nice to do",
            Priority::D => "D - Delegate",
            Priority::E => "E - Eliminate",
        }
    }

    /// Returns a CSS hex color suitable for the canvas badge (red, orange,
    /// yellow, blue, grey).
    pub fn color(self) -> (r: &'static str)
        ensures
            r@ == priority_color(self),
    {
        match self {
            Priority::A => "#ef4444",
            Priority::B => "#f97316",
            Priority::C => "#eab308",
            Priority::D => "#3b82f6",
            Priority::E => "#6b7280",
        }
    }
}

} // verus!
