//! The transport bar over the note display: expansion and settings-panel
//! animations, the loop region, and the interpretation of the messages its
//! widgets emit.
//!
//! The bar itself only decides; everything that touches the player, the
//! configuration, or the window is returned as a `HostAction` for the host
//! to perform.
use vstd::prelude::*;

use crate::animation::{Animated, Easing, TIME_LIMIT};
use crate::COORD_LIMIT;

verus! {

/// The bar's height in logical pixels.
pub const BAR_HEIGHT: i64 = 75;

/// Messages from the loop-region widget.
#[derive(Clone, Copy, Debug, PartialEq, Eq, Structural)]
pub enum LooperMsg {
    Toggle,
    /// Move the loop start to this timestamp (milliseconds).
    MoveStart(u64),
    /// Move the loop end to this timestamp (milliseconds).
    MoveEnd(u64),
}

/// Messages from the progress-bar widget.
#[derive(Clone, Copy, Debug, PartialEq, Eq, Structural)]
pub enum ProgressBarMsg {
    Pressed,
    Released,
}

/// Everything the top bar's widgets can ask for.
#[derive(Clone, Copy, Debug, PartialEq, Eq, Structural)]
pub enum Msg {
    PauseResume,
    SpeedUp,
    SpeedDown,
    SettingsToggle,
    GoBack,
    Looper(LooperMsg),
    ProggresBar(ProgressBarMsg),
}

/// What the host must do after a message was handled: the part of the
/// reaction that touches the player or the window, outside this bar.
#[derive(Clone, Copy, Debug, PartialEq, Eq, Structural)]
pub enum HostAction {
    Nothing,
    PauseResume,
    SpeedUp,
    SpeedDown,
    GoBack,
    /// Begin a mouse-driven rewind and seek the player to the cursor's
    /// fraction of the window width.
    StartSeek,
    /// End the mouse-driven rewind.
    StopRewind,
}

/// The transport bar's persistent state.
pub struct TopBar {
    pub animation: Animated,
    pub is_expanded: bool,
    pub settings_animation: Animated,
    pub settings_active: bool,
    pub looper_active: bool,
    pub loop_start: u64,
    pub loop_end: u64,
}

impl TopBar {
    pub open spec fn wf(self) -> bool {
        &&& self.animation.wf()
        &&& self.settings_animation.wf()
    }

    pub fn new() -> (t: TopBar)
        ensures
            t.wf(),
            !t.is_expanded,
            !t.settings_active,
            !t.looper_active,
            t.loop_start == 0,
            t.loop_end == 0,
            t.animation == (Animated {
                value: false,
                duration_ms: 1000u64,
                delay_ms: 30u64,
                easing: Easing::EaseOutExpo,
                from: 0u64,
                start: Option::<u64>::None,
            }),
            t.settings_animation == t.animation,
    {
        TopBar {
            animation: Animated::new(false).duration(1000).easing(Easing::EaseOutExpo).delay(30),
            settings_animation: Animated::new(false).duration(1000).easing(
                Easing::EaseOutExpo,
            ).delay(30),
            is_expanded: false,
            settings_active: false,
            looper_active: false,
            loop_start: 0,
            loop_end: 0,
        }
    }

    pub fn is_looper_active(&self) -> (b: bool)
        ensures
            b == self.looper_active,
    {
        self.looper_active
    }

    /// Start of the loop region, in milliseconds.
    pub fn loop_start_timestamp(&self) -> (t: u64)
        ensures
            t == self.loop_start,
    {
        self.loop_start
    }

    /// End of the loop region, in milliseconds.
    pub fn loop_end_timestamp(&self) -> (t: u64)
        ensures
            t == self.loop_end,
    {
        self.loop_end
    }

    /// Interpret one widget message. `player_time_ms` is the player's
    /// current position; `is_rewinding` and `is_mouse_rewinding` describe
    /// the host's rewind controller. Bar-local state is updated here; what
    /// must touch the player or window is returned as a `HostAction`.
    pub fn on_msg(
        &mut self,
        msg: &Msg,
        player_time_ms: u64,
        is_rewinding: bool,
        is_mouse_rewinding: bool,
    ) -> (action: HostAction)
        requires
            player_time_ms <= TIME_LIMIT,
        ensures
            msg is PauseResume ==> *final(self) == *old(self) && action == HostAction::PauseResume,
            msg is SpeedUp ==> *final(self) == *old(self) && action == HostAction::SpeedUp,
            msg is SpeedDown ==> *final(self) == *old(self) && action == HostAction::SpeedDown,
            msg is GoBack ==> *final(self) == *old(self) && action == HostAction::GoBack,
            msg is SettingsToggle ==> *final(self) == (TopBar {
                settings_active: !old(self).settings_active,
                ..*old(self)
            }) && action == HostAction::Nothing,
            msg == Msg::Looper(LooperMsg::Toggle) ==> action == HostAction::Nothing && *final(self)
                == (if !old(self).looper_active && old(self).loop_start == 0 && old(self).loop_end
                == 0 {
                (TopBar {
                    looper_active: true,
                    loop_start: player_time_ms,
                    loop_end: (player_time_ms + 5000) as u64,
                    ..*old(self)
                })
            } else {
                (TopBar { looper_active: !old(self).looper_active, ..*old(self) })
            }),
            forall|t: u64|
                msg == Msg::Looper(LooperMsg::MoveStart(t)) ==> *final(self) == (TopBar {
                    loop_start: t,
                    ..*old(self)
                }) && action == HostAction::Nothing,
            forall|t: u64|
                msg == Msg::Looper(LooperMsg::MoveEnd(t)) ==> *final(self) == (TopBar {
                    loop_end: t,
                    ..*old(self)
                }) && action == HostAction::Nothing,
            msg == Msg::ProggresBar(ProgressBarMsg::Pressed) ==> *final(self) == *old(self)
                && action == (if !is_rewinding {
                HostAction::StartSeek
            } else {
                HostAction::Nothing
            }),
            msg == Msg::ProggresBar(ProgressBarMsg::Released) ==> *final(self) == *old(self)
                && action == (if is_mouse_rewinding {
                HostAction::StopRewind
            } else {
                HostAction::Nothing
            }),
            old(self).wf() ==> final(self).wf(),
    {
        match msg {
            Msg::PauseResume => HostAction::PauseResume,
            Msg::SpeedUp => HostAction::SpeedUp,
            Msg::SpeedDown => HostAction::SpeedDown,
            Msg::GoBack => HostAction::GoBack,
            Msg::SettingsToggle => {
                self.settings_active = !self.settings_active;
                HostAction::Nothing
            },
            Msg::Looper(LooperMsg::Toggle) => {
                self.looper_active = !self.looper_active;
                if self.looper_active && self.loop_start == 0 && self.loop_end == 0 {
                    self.loop_start = player_time_ms;
                    self.loop_end = player_time_ms + 5000;
                }
                HostAction::Nothing
            },
            Msg::Looper(LooperMsg::MoveStart(t)) => {
                self.loop_start = *t;
                HostAction::Nothing
            },
            Msg::Looper(LooperMsg::MoveEnd(t)) => {
                self.loop_end = *t;
                HostAction::Nothing
            },
            Msg::ProggresBar(ProgressBarMsg::Pressed) => {
                if !is_rewinding {
                    HostAction::StartSeek
                } else {
                    HostAction::Nothing
                }
            },
            Msg::ProggresBar(ProgressBarMsg::Released) => {
                if is_mouse_rewinding {
                    HostAction::StopRewind
                } else {
                    HostAction::Nothing
                }
            },
        }
    }

    /// Once-per-frame bookkeeping: decide whether the bar is expanded
    /// (cursor within 1.7 bar heights of the top, settings open, or a
    /// handle grabbed), drive both animations toward their targets, and
    /// report the bar's vertical offset at `now_ms`: `-BAR_HEIGHT + 5`
    /// while hidden, up to `0` when fully expanded.
    pub fn update(
        &mut self,
        now_ms: u64,
        cursor_y: i64,
        looper_grabbed: bool,
        progress_grabbed: bool,
    ) -> (y: i64)
        requires
            old(self).wf(),
            now_ms <= TIME_LIMIT,
            -COORD_LIMIT <= cursor_y <= COORD_LIMIT,
        ensures
            final(self).wf(),
            final(self).is_expanded == (cursor_y * 2 < BAR_HEIGHT * 17 / 5
                || old(self).settings_active || looper_grabbed || progress_grabbed),
            final(self).animation == old(self).animation.transition_spec(
                final(self).is_expanded,
                now_ms as int,
            ),
            final(self).settings_animation == old(self).settings_animation.transition_spec(
                old(self).settings_active,
                now_ms as int,
            ),
            final(self).settings_active == old(self).settings_active,
            final(self).looper_active == old(self).looper_active,
            final(self).loop_start == old(self).loop_start,
            final(self).loop_end == old(self).loop_end,
            y == final(self).animation.animate_spec(
                -BAR_HEIGHT + 5,
                0,
                now_ms as int,
            ),
    {
        let is_hovered = cursor_y * 2 < BAR_HEIGHT * 17 / 5;
        let expanded = is_hovered || self.settings_active || looper_grabbed || progress_grabbed;
        self.is_expanded = expanded;
        self.animation.transition(expanded, now_ms);
        let settings_target = self.settings_active;
        self.settings_animation.transition(settings_target, now_ms);
        self.animation.animate(-BAR_HEIGHT + 5, 0, now_ms)
    }
}

} // verus!
