//! The overlay window manager and application loop, as a verified state
//! machine: from monitor snapshots and window events to window-creation
//! plans and the exit decision.  The host windowing system performs the
//! plans; the decisions are made here.

use vstd::prelude::*;
use crate::config::VignetteConfig;

verus! {

/// One enumerated display: a read-only snapshot of position and size.
#[derive(Clone, Copy, Debug, PartialEq, Eq, Structural)]
pub struct Monitor {
    pub x: i32,
    pub y: i32,
    pub width: u32,
    pub height: u32,
}

/// What the host windowing system must create for one monitor: a borderless,
/// non-resizable, transparent, always-on-top window covering the monitor
/// exactly.
#[derive(Clone, Copy, Debug, PartialEq, Eq, Structural)]
pub struct WindowRequest {
    pub monitor_index: usize,
    pub x: i32,
    pub y: i32,
    pub width: u32,
    pub height: u32,
    pub always_on_top: bool,
    pub decorations: bool,
    pub resizable: bool,
    pub transparent: bool,
}

/// The one window request a monitor gives rise to.
pub open spec fn request_for(m: Monitor, i: int) -> WindowRequest {
    WindowRequest {
        monitor_index: i as usize,
        x: m.x,
        y: m.y,
        width: m.width,
        height: m.height,
        always_on_top: true,
        decorations: false,
        resizable: false,
        transparent: true,
    }
}

/// One window per monitor, in enumeration order, each covering its
/// monitor's declared geometry exactly.
pub fn plan_windows(monitors: &Vec<Monitor>) -> (plan: Vec<WindowRequest>)
    ensures
        plan@.len() == monitors@.len(),
        forall|i: int| 0 <= i < monitors@.len() ==> plan@[i] == request_for(monitors@[i], i),
{
    let mut plan: Vec<WindowRequest> = Vec::new();
    let mut i: usize = 0;
    while i < monitors.len()
        invariant
            i <= monitors@.len(),
            plan@.len() == i,
            forall|j: int| 0 <= j < i ==> plan@[j] == request_for(monitors@[j], j),
        decreases monitors@.len() - i,
    {
        let m = monitors[i];
        plan.push(
            WindowRequest {
                monitor_index: i,
                x: m.x,
                y: m.y,
                width: m.width,
                height: m.height,
                always_on_top: true,
                decorations: false,
                resizable: false,
                transparent: true,
            },
        );
        i = i + 1;
    }
    plan
}

/// The application loop's control state: it runs until a close is
/// requested, then exits; there is no way back.
#[derive(Clone, Copy, Debug, PartialEq, Eq, Structural)]
pub enum LoopState {
    Running,
    Exited,
}

/// A window event as the loop sees it: only the close request is
/// recognized; everything else is ignored.
#[derive(Clone, Copy, Debug, PartialEq, Eq, Structural)]
pub enum OverlayEvent {
    CloseRequested,
    Other,
}

/// The application core: the shared read-only configuration, the
/// single-shot creation guard, and the loop state.
#[derive(Clone, Copy, Debug)]
pub struct AppCore {
    pub config: VignetteConfig,
    pub created: bool,
    pub state: LoopState,
}

impl AppCore {
    /// A fresh core: nothing created yet, loop running.
    pub fn new(config: VignetteConfig) -> (core: AppCore)
        ensures
            core.config == config,
            !core.created,
            core.state == LoopState::Running,
    {
        AppCore { config, created: false, state: LoopState::Running }
    }

    /// The resume signal.  The first one plans exactly one window per
    /// enumerated monitor; every later one is ignored, so re-entrant resume
    /// signals can never double-create windows.  An empty monitor list
    /// yields an empty plan and the loop keeps running.
    pub fn on_resumed(&mut self, monitors: &Vec<Monitor>) -> (plan: Option<Vec<WindowRequest>>)
        ensures
            final(self).config == old(self).config,
            final(self).state == old(self).state,
            final(self).created,
            old(self).created ==> plan is None && *final(self) == *old(self),
            !old(self).created ==> (plan matches Some(p) && p@.len() == monitors@.len() && (forall|
                i: int,
            |
                0 <= i < monitors@.len() ==> p@[i] == request_for(monitors@[i], i))),
    {
        if self.created {
            None
        } else {
            self.created = true;
            Some(plan_windows(monitors))
        }
    }

    /// A window event.  Any window's close request exits the whole
    /// application; every other event leaves it untouched.
    pub fn on_window_event(&mut self, ev: OverlayEvent) -> (exit: bool)
        ensures
            exit == (ev == OverlayEvent::CloseRequested),
            final(self).config == old(self).config,
            final(self).created == old(self).created,
            ev == OverlayEvent::CloseRequested ==> final(self).state == LoopState::Exited,
            ev != OverlayEvent::CloseRequested ==> *final(self) == *old(self),
    {
        match ev {
            OverlayEvent::CloseRequested => {
                self.state = LoopState::Exited;
                true
            },
            OverlayEvent::Other => false,
        }
    }
}

} // verus!
