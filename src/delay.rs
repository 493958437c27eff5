use vstd::prelude::*;

verus! {

/// The events that a pause can be attached to.
#[derive(Clone, Copy, Debug, PartialEq, Eq, Structural)]
pub enum DelayKind {
    ClearScreen,
    CarriageReturn,
    NewLine,
    CharacterTyped,
}

/// Wait durations in milliseconds, fixed for the lifetime of one run.
#[derive(Clone, Copy, Debug, PartialEq, Eq, Structural)]
pub struct DelayPolicy {
    pub clear_screen_ms: u32,
    pub carriage_return_ms: u32,
    pub new_line_ms: u32,
    pub user_typing_ms: u32,
}

pub const DEFAULT_CLEAR_SCREEN_MS: u32 = 200;

pub const DEFAULT_CARRIAGE_RETURN_MS: u32 = 50;

pub const DEFAULT_NEW_LINE_MS: u32 = 5;

pub const DEFAULT_USER_TYPING_MS: u32 = 80;

impl DelayPolicy {
    pub open spec fn spec_duration_for(&self, kind: DelayKind) -> u32 {
        match kind {
            DelayKind::ClearScreen => self.clear_screen_ms,
            DelayKind::CarriageReturn => self.carriage_return_ms,
            DelayKind::NewLine => self.new_line_ms,
            DelayKind::CharacterTyped => self.user_typing_ms,
        }
    }

    pub fn new(
        clear_screen_ms: u32,
        carriage_return_ms: u32,
        new_line_ms: u32,
        user_typing_ms: u32,
    ) -> (r: DelayPolicy)
        ensures
            r.clear_screen_ms == clear_screen_ms,
            r.carriage_return_ms == carriage_return_ms,
            r.new_line_ms == new_line_ms,
            r.user_typing_ms == user_typing_ms,
    {
        DelayPolicy { clear_screen_ms, carriage_return_ms, new_line_ms, user_typing_ms }
    }

    /// The policy with the customary waits: 200 ms on a screen clear, 50 ms
    /// before a carriage return, 5 ms after a line feed, 80 ms per typed key.
    pub fn standard() -> (r: DelayPolicy)
        ensures
            r.clear_screen_ms == 200,
            r.carriage_return_ms == 50,
            r.new_line_ms == 5,
            r.user_typing_ms == 80,
    {
        DelayPolicy::new(
            DEFAULT_CLEAR_SCREEN_MS,
            DEFAULT_CARRIAGE_RETURN_MS,
            DEFAULT_NEW_LINE_MS,
            DEFAULT_USER_TYPING_MS,
        )
    }

    /// A policy that never waits.
    pub fn immediate() -> (r: DelayPolicy)
        ensures
            r.clear_screen_ms == 0,
            r.carriage_return_ms == 0,
            r.new_line_ms == 0,
            r.user_typing_ms == 0,
    {
        DelayPolicy::new(0, 0, 0, 0)
    }

    pub fn duration_for(&self, kind: DelayKind) -> (r: u32)
        ensures
            r == self.spec_duration_for(kind),
    {
        match kind {
            DelayKind::ClearScreen => self.clear_screen_ms,
            DelayKind::CarriageReturn => self.carriage_return_ms,
            DelayKind::NewLine => self.new_line_ms,
            DelayKind::CharacterTyped => self.user_typing_ms,
        }
    }
}

/// Splits a wait in milliseconds into whole seconds and the remaining
/// nanoseconds, or `None` for a zero wait, which is never slept.
pub fn wait_parts(wait_ms: u32) -> (r: Option<(u64, u32)>)
    ensures
        wait_ms == 0 <==> r is None,
        r matches Some((secs, nanos)) ==> nanos < 1_000_000_000 && secs * 1_000_000_000 + nanos
            == wait_ms * 1_000_000,
{
    if wait_ms == 0 {
        None
    } else {
        let secs: u32 = wait_ms / 1000;
        let millis: u32 = wait_ms % 1000;
        let nanos: u32 = millis * 1_000_000;
        assert(secs * 1_000_000_000 + nanos == wait_ms * 1_000_000) by (nonlinear_arith)
            requires
                secs == wait_ms / 1000,
                millis == wait_ms % 1000,
                nanos == millis * 1_000_000,
        ;
        Some((secs as u64, nanos))
    }
}

} // verus!
