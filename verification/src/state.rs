//! What the planner remembers while it converts expressions.
use vstd::prelude::*;

verus! {

/// The settings that last for one expression of a list, and are reset before the next one.
#[derive(Clone, Copy, PartialEq, Eq, Structural, Debug)]
pub struct LocalConversionState {
    pub has_implode: bool,
    pub has_window: bool,
}

/// The state of a conversion: settings of the context, which remain active between the
/// expressions of a list, and the settings of the current expression.
#[derive(Clone, Copy, PartialEq, Eq, Structural, Debug)]
pub struct ExpressionConversionState {
    pub has_cache: bool,
    pub allow_threading: bool,
    pub has_windows: bool,
    pub local: LocalConversionState,
}

impl Default for LocalConversionState {
    fn default() -> (r: Self)
        ensures
            r == LocalConversionState::cleared(),
    {
        LocalConversionState { has_implode: false, has_window: false }
    }
}

impl Default for ExpressionConversionState {
    fn default() -> (r: Self)
        ensures
            !r.has_cache,
            !r.allow_threading,
            !r.has_windows,
            r.local == LocalConversionState::cleared(),
    {
        ExpressionConversionState {
            has_cache: false,
            allow_threading: false,
            has_windows: false,
            local: LocalConversionState::default(),
        }
    }
}

impl LocalConversionState {
    /// The settings at the start of an expression.
    pub open spec fn cleared() -> Self {
        LocalConversionState { has_implode: false, has_window: false }
    }
}

impl ExpressionConversionState {
    /// The state after a reset.
    pub open spec fn after_reset(self) -> Self {
        ExpressionConversionState { local: LocalConversionState::cleared(), ..self }
    }

    /// The state after a window expression was noted.
    pub open spec fn after_window(self) -> Self {
        ExpressionConversionState {
            has_windows: true,
            local: LocalConversionState { has_window: true, ..self.local },
            ..self
        }
    }

    /// The state after an aggregation was noted that implodes its input, or does not.
    pub open spec fn after_agg(self, implodes: bool) -> Self {
        ExpressionConversionState {
            local: LocalConversionState {
                has_implode: self.local.has_implode || implodes,
                ..self.local
            },
            ..self
        }
    }

    /// A fresh state, which knows of no cache, window or implode.
    pub fn new(allow_threading: bool) -> (r: Self)
        ensures
            r.allow_threading == allow_threading,
            !r.has_cache,
            !r.has_windows,
            r.local == LocalConversionState::cleared(),
    {
        ExpressionConversionState { allow_threading, ..ExpressionConversionState::default() }
    }

    /// Forgets the settings of the current expression.
    pub fn reset(&mut self)
        ensures
            *final(self) == old(self).after_reset(),
    {
        self.local = LocalConversionState::default();
    }

    /// Whether the current expression holds an implode.
    pub fn has_implode(&self) -> (r: bool)
        ensures
            r == self.local.has_implode,
    {
        self.local.has_implode
    }

    /// Notes that the current expression, and with it the context, holds a window expression.
    pub fn set_window(&mut self)
        ensures
            *final(self) == old(self).after_window(),
    {
        self.has_windows = true;
        self.local.has_window = true;
    }

    /// Notes an aggregation of the current expression.
    pub fn note_agg(&mut self, implodes: bool)
        ensures
            *final(self) == old(self).after_agg(implodes),
    {
        self.local.has_implode = self.local.has_implode || implodes;
    }
}

/// A reset forgets what was noted of the current expression and keeps all else; a window is noted
/// of the expression and of the context, an implode of the expression, and neither changes anything
/// else.
pub proof fn notes_change_nothing_else(state: ExpressionConversionState, implodes: bool)
    ensures
        ({
            let reset = state.after_reset();
            &&& !reset.local.has_implode && !reset.local.has_window
            &&& reset.has_cache == state.has_cache
            &&& reset.allow_threading == state.allow_threading
            &&& reset.has_windows == state.has_windows
        }),
        ({
            let window = state.after_window();
            &&& window.has_windows && window.local.has_window
            &&& window.local.has_implode == state.local.has_implode
            &&& window.has_cache == state.has_cache
            &&& window.allow_threading == state.allow_threading
        }),
        ({
            let agg = state.after_agg(implodes);
            &&& agg.local.has_implode <==> state.local.has_implode || implodes
            &&& agg.local.has_window == state.local.has_window
            &&& agg.has_windows == state.has_windows
            &&& agg.has_cache == state.has_cache
            &&& agg.allow_threading == state.allow_threading
        }),
        !LocalConversionState::cleared().has_implode,
        !LocalConversionState::cleared().has_window,
{
}

} // verus!
