use vstd::multiset::Multiset;
use vstd::prelude::*;

use crate::RenderSettings;

verus! {

/// Nanoseconds in one second.
pub const NANOS_PER_SECOND: u64 = 1_000_000_000;

/// A window event as the scheduler sees it.
#[derive(Clone, Copy, Debug, PartialEq, Eq, Structural)]
pub enum WindowEventKind {
    Resized { width: u32, height: u32 },
    CloseRequested,
    Focused(bool),
    RedrawRequested,
    Other,
}

/// What the event loop must do, in order, for an event. Windows are named by
/// their position in the scheduler.
#[derive(Clone, Copy, Debug, PartialEq, Eq, Structural)]
pub enum Action {
    /// Leave the event loop.
    ExitLoop,
    /// Tell the window's event handler that the window closed.
    NotifyClosed(usize),
    /// Reconfigure the window's surface to the requested size.
    ResizeSurface { window: usize, width: u32, height: u32 },
    /// Tell the window's event handler that focus was gained or lost.
    NotifyFocus { window: usize, focused: bool },
    /// Ask the OS for another redraw of the window, doing no GPU work now.
    RequestRedraw(usize),
    /// Run the window's frame: record, submit, present, request the next redraw.
    RunFrame(usize),
    /// Hand the raw event to the window's event handler.
    ForwardEvent(usize),
}

/// What the scheduler keeps of a window: its OS identity, whether it has
/// closed, and when its last frame was submitted.
#[derive(Clone, Copy, Debug, PartialEq, Eq, Structural)]
pub struct WindowRecord {
    pub id: u64,
    pub closed: bool,
    pub has_frame: bool,
    pub last_frame: u64,
}

/// What the scheduler holds.
pub struct SchedulerModel {
    pub windows: Seq<WindowRecord>,
    pub vsync: bool,
    pub max_framerate: Option<u32>,
    pub exiting: bool,
}

/// One event handed to the scheduler: whether quit had been requested when it
/// arrived, the window it is for, what it is, and the time in nanoseconds.
#[derive(Clone, Copy, Debug, PartialEq, Eq, Structural)]
pub struct ScheduledEvent {
    pub quit: bool,
    pub window: u64,
    pub kind: WindowEventKind,
    pub now: u64,
}

/// No two windows share an identity.
pub open spec fn ids_unique(ws: Seq<WindowRecord>) -> bool {
    forall|i: int, j: int| 0 <= i < ws.len() && 0 <= j < ws.len() && i != j ==> ws[i].id != ws[j].id
}

pub open spec fn has_window(ws: Seq<WindowRecord>, id: u64) -> bool {
    exists|k: int| 0 <= k < ws.len() && ws[k].id == id
}

/// The position of the window with identity `id`.
pub open spec fn window_index(ws: Seq<WindowRecord>, id: u64) -> int {
    choose|k: int| 0 <= k < ws.len() && ws[k].id == id
}

/// Time from `last` to `now`, or 0 when `now` is earlier.
pub open spec fn elapsed(last: u64, now: u64) -> nat {
    if now >= last {
        (now - last) as nat
    } else {
        0
    }
}

/// A frame may run now: vsync paces presentation, or no cap is set, or the
/// window has no frame yet, or at least `1 / cap` seconds have passed since
/// its last frame.
pub open spec fn frame_due(
    vsync: bool,
    max_framerate: Option<u32>,
    has_frame: bool,
    last_frame: u64,
    now: u64,
) -> bool {
    vsync || max_framerate.is_none() || !has_frame || elapsed(last_frame, now)
        * max_framerate.unwrap() >= NANOS_PER_SECOND
}

/// Close notices, in window order, for the windows not yet closed.
pub open spec fn close_actions(ws: Seq<WindowRecord>) -> Seq<Action>
    decreases ws.len(),
{
    if ws.len() == 0 {
        Seq::empty()
    } else {
        close_actions(ws.drop_last()) + if ws.last().closed {
            Seq::<Action>::empty()
        } else {
            seq![Action::NotifyClosed((ws.len() - 1) as usize)]
        }
    }
}

/// Every window marked closed.
pub open spec fn all_closed(ws: Seq<WindowRecord>) -> Seq<WindowRecord> {
    Seq::new(
        ws.len(),
        |i: int| WindowRecord { id: ws[i].id, closed: true, has_frame: ws[i].has_frame, last_frame: ws[i].last_frame },
    )
}

impl SchedulerModel {
    pub open spec fn wf(self) -> bool {
        ids_unique(self.windows) && self.windows.len() <= usize::MAX
    }

    pub open spec fn with_windows(self, ws: Seq<WindowRecord>) -> SchedulerModel {
        SchedulerModel { windows: ws, ..self }
    }

    /// The scheduler after an event, and the actions for it.
    pub open spec fn step(self, e: ScheduledEvent) -> (SchedulerModel, Seq<Action>) {
        let ws = self.windows;
        if e.quit {
            (
                SchedulerModel { windows: all_closed(ws), exiting: true, ..self },
                seq![Action::ExitLoop] + close_actions(ws),
            )
        } else if !has_window(ws, e.window) {
            (self, Seq::empty())
        } else {
            let k = window_index(ws, e.window);
            let w = ws[k];
            let ku = k as usize;
            if w.closed {
                (self, Seq::empty())
            } else {
                match e.kind {
                    WindowEventKind::Resized { width, height } => (
                        self,
                        seq![
                            Action::ResizeSurface { window: ku, width, height },
                            Action::ForwardEvent(ku),
                        ],
                    ),
                    WindowEventKind::CloseRequested => (
                        SchedulerModel {
                            windows: ws.update(k, WindowRecord { closed: true, ..w }),
                            exiting: true,
                            ..self
                        },
                        seq![Action::NotifyClosed(ku), Action::ExitLoop, Action::ForwardEvent(ku)],
                    ),
                    WindowEventKind::Focused(focused) => (
                        self,
                        seq![Action::NotifyFocus { window: ku, focused }, Action::ForwardEvent(ku)],
                    ),
                    WindowEventKind::RedrawRequested => if frame_due(
                        self.vsync,
                        self.max_framerate,
                        w.has_frame,
                        w.last_frame,
                        e.now,
                    ) {
                        (
                            self.with_windows(
                                ws.update(k, WindowRecord { has_frame: true, last_frame: e.now, ..w }),
                            ),
                            seq![Action::RunFrame(ku), Action::ForwardEvent(ku)],
                        )
                    } else {
                        (self, seq![Action::RequestRedraw(ku), Action::ForwardEvent(ku)])
                    },
                    WindowEventKind::Other => (self, seq![Action::ForwardEvent(ku)]),
                }
            }
        }
    }

    /// The scheduler after a sequence of events.
    pub open spec fn run(self, events: Seq<ScheduledEvent>) -> SchedulerModel
        decreases events.len(),
    {
        if events.len() == 0 {
            self
        } else {
            self.run(events.drop_last()).step(events.last()).0
        }
    }

    /// The actions for a sequence of events, in order.
    pub open spec fn run_actions(self, events: Seq<ScheduledEvent>) -> Seq<Action>
        decreases events.len(),
    {
        if events.len() == 0 {
            Seq::empty()
        } else {
            self.run_actions(events.drop_last()) + self.run(events.drop_last()).step(
                events.last(),
            ).1
        }
    }
}

/// One step of startup, for the window at a position.
#[derive(Clone, Copy, Debug, PartialEq, Eq, Structural)]
pub enum StartupStep {
    CreateWindow(usize),
    ConfigureSurface(usize),
    DeviceInit(usize),
    RequestRedraw(usize),
}

/// Startup for `n` windows: create every window, then configure every
/// surface, then run every device initialization, then request every first
/// redraw.
pub open spec fn startup_order(n: nat) -> Seq<StartupStep> {
    Seq::new(n, |i: int| StartupStep::CreateWindow(i as usize)) + Seq::new(
        n,
        |i: int| StartupStep::ConfigureSurface(i as usize),
    ) + Seq::new(n, |i: int| StartupStep::DeviceInit(i as usize)) + Seq::new(
        n,
        |i: int| StartupStep::RequestRedraw(i as usize),
    )
}

/// Routes window events to windows and paces their frames.
pub struct AppState {
    windows: Vec<WindowRecord>,
    vsync: bool,
    max_framerate: Option<u32>,
    exiting: bool,
}

impl AppState {
    pub closed spec fn view(&self) -> SchedulerModel {
        SchedulerModel {
            windows: self.windows@,
            vsync: self.vsync,
            max_framerate: self.max_framerate,
            exiting: self.exiting,
        }
    }

    pub open spec fn wf(&self) -> bool {
        self@.wf()
    }

    /// A scheduler with no windows, paced by the given settings.
    pub fn new(settings: &RenderSettings) -> (r: AppState)
        ensures
            r.wf(),
            r@.windows == Seq::<WindowRecord>::empty(),
            r@.vsync == settings.vsync,
            r@.max_framerate == settings.max_framerate,
            !r@.exiting,
    {
        AppState {
            windows: Vec::new(),
            vsync: settings.vsync,
            max_framerate: settings.max_framerate,
            exiting: false,
        }
    }

    /// The number of windows.
    pub fn window_count(&self) -> (r: usize)
        ensures
            r == self@.windows.len(),
    {
        self.windows.len()
    }

    /// The scheduler has asked the event loop to exit.
    pub fn is_exiting(&self) -> (r: bool)
        ensures
            r == self@.exiting,
    {
        self.exiting
    }

    /// The record of the window at a position.
    pub fn window(&self, index: usize) -> (r: WindowRecord)
        requires
            index < self@.windows.len(),
        ensures
            r == self@.windows[index as int],
    {
        self.windows[index]
    }

    /// Adds a window with an OS identity; returns its position, or `None`,
    /// changing nothing, when a window with that identity is already present.
    pub fn add_window(&mut self, id: u64) -> (r: Option<usize>)
        requires
            old(self).wf(),
        ensures
            final(self).wf(),
            r.is_none() <==> (has_window(old(self)@.windows, id) || old(self)@.windows.len()
                == usize::MAX),
            r.is_none() ==> final(self)@ == old(self)@,
            r.is_some() ==> r == Some(old(self)@.windows.len() as usize)
                && final(self)@ == old(self)@.with_windows(
                old(self)@.windows.push(
                    WindowRecord { id, closed: false, has_frame: false, last_frame: 0 },
                ),
            ),
    {
        let found = self.find_window(id);
        if found.is_some() || self.windows.len() == usize::MAX {
            return None;
        }
        let index = self.windows.len();
        self.windows.push(WindowRecord { id, closed: false, has_frame: false, last_frame: 0 });
        proof {
            assert(self@.windows =~= old(self)@.windows.push(
                WindowRecord { id, closed: false, has_frame: false, last_frame: 0 },
            ));
        }
        Some(index)
    }

    fn find_window(&self, id: u64) -> (r: Option<usize>)
        requires
            self.wf(),
        ensures
            r.is_none() == !has_window(self@.windows, id),
            r.is_some() ==> r.unwrap() == window_index(self@.windows, id),
    {
        let mut k: usize = 0;
        while k < self.windows.len()
            invariant
                k <= self.windows@.len(),
                ids_unique(self.windows@),
                forall|j: int| 0 <= j < k ==> self.windows@[j].id != id,
            decreases self.windows@.len() - k,
        {
            if self.windows[k].id == id {
                proof {
                    let ws = self.windows@;
                    assert(has_window(ws, id));
                    let c = window_index(ws, id);
                    assert(ws[c].id == id);
                    assert(ids_unique(ws));
                    if c != k as int {
                        assert(ws[c].id != ws[k as int].id);
                    }
                }
                return Some(k);
            }
            k = k + 1;
        }
        None
    }

    /// Handles one window event: updates the scheduler and returns the
    /// actions to carry out, in order. `quit` says whether quitting has been
    /// requested; `now` is the time in nanoseconds.
    pub fn on_window_event(&mut self, quit: bool, window: u64, kind: WindowEventKind, now: u64) -> (actions: Vec<Action>)
        requires
            old(self).wf(),
        ensures
            final(self).wf(),
            (final(self)@, actions@) == old(self)@.step(ScheduledEvent { quit, window, kind, now }),
    {
        let ghost e = ScheduledEvent { quit, window, kind, now };
        let mut actions: Vec<Action> = Vec::new();
        if quit {
            actions.push(Action::ExitLoop);
            self.close_all(&mut actions);
            self.exiting = true;
            return actions;
        }
        let found = self.find_window(window);
        let k = match found {
            Some(k) => k,
            None => {
                return actions;
            },
        };
        let w = self.windows[k];
        if w.closed {
            return actions;
        }
        match kind {
            WindowEventKind::Resized { width, height } => {
                actions.push(Action::ResizeSurface { window: k, width, height });
            },
            WindowEventKind::CloseRequested => {
                self.windows.set(k, WindowRecord { closed: true, ..w });
                self.exiting = true;
                actions.push(Action::NotifyClosed(k));
                actions.push(Action::ExitLoop);
            },
            WindowEventKind::Focused(focused) => {
                actions.push(Action::NotifyFocus { window: k, focused });
            },
            WindowEventKind::RedrawRequested => {
                if self.frame_due(w, now) {
                    self.windows.set(k, WindowRecord { has_frame: true, last_frame: now, ..w });
                    actions.push(Action::RunFrame(k));
                } else {
                    actions.push(Action::RequestRedraw(k));
                }
            },
            WindowEventKind::Other => {},
        }
        actions.push(Action::ForwardEvent(k));
        proof {
            assert(actions@ =~= old(self)@.step(e).1);
            assert(self@.windows =~= old(self)@.step(e).0.windows);
            lemma_update_keeps_ids_unique(old(self)@.windows, k as int, self@.windows[k as int]);
        }
        actions
    }

    fn frame_due(&self, w: WindowRecord, now: u64) -> (r: bool)
        ensures
            r == frame_due(self.vsync, self.max_framerate, w.has_frame, w.last_frame, now),
    {
        if self.vsync || !w.has_frame {
            return true;
        }
        match self.max_framerate {
            None => true,
            Some(cap) => {
                let gap: u64 = if now >= w.last_frame {
                    now - w.last_frame
                } else {
                    0
                };
                proof {
                    assert((gap as u128) * (cap as u128) <= (u64::MAX as u128) * (u32::MAX as u128))
                        by (nonlinear_arith)
                        requires
                            gap <= u64::MAX,
                            cap <= u32::MAX,
                    ;
                }
                (gap as u128) * (cap as u128) >= NANOS_PER_SECOND as u128
            },
        }
    }

    fn close_all(&mut self, actions: &mut Vec<Action>)
        requires
            old(self).wf(),
            old(actions)@ == seq![Action::ExitLoop],
        ensures
            final(self)@ == old(self)@.with_windows(all_closed(old(self)@.windows)),
            final(actions)@ == seq![Action::ExitLoop] + close_actions(old(self)@.windows),
            final(self).wf(),
    {
        let ghost ws = self.windows@;
        let mut i: usize = 0;
        while i < self.windows.len()
            invariant
                i <= self.windows@.len(),
                self.windows@.len() == ws.len(),
                forall|j: int| 0 <= j < i ==> self.windows@[j] == all_closed(ws)[j],
                forall|j: int| i <= j < ws.len() ==> self.windows@[j] == ws[j],
                actions@ == seq![Action::ExitLoop] + close_actions(ws.subrange(0, i as int)),
                self.vsync == old(self).vsync,
                self.max_framerate == old(self).max_framerate,
                self.exiting == old(self).exiting,
            decreases ws.len() - i,
        {
            let w = self.windows[i];
            proof {
                let pre = ws.subrange(0, i + 1);
                assert(pre.drop_last() =~= ws.subrange(0, i as int));
                assert(pre.last() == ws[i as int]);
            }
            if !w.closed {
                actions.push(Action::NotifyClosed(i));
            }
            self.windows.set(i, WindowRecord { closed: true, ..w });
            i = i + 1;
            proof {
                assert(actions@ =~= seq![Action::ExitLoop] + close_actions(ws.subrange(0, i as int)));
            }
        }
        proof {
            assert(ws.subrange(0, ws.len() as int) =~= ws);
            assert(self.windows@ =~= all_closed(ws));
        }
    }
}

proof fn lemma_update_keeps_ids_unique(ws: Seq<WindowRecord>, k: int, w: WindowRecord)
    requires
        ids_unique(ws),
        0 <= k < ws.len(),
        w.id == ws[k].id,
    ensures
        ids_unique(ws.update(k, w)),
{
}

proof fn lemma_close_actions_only_close(ws: Seq<WindowRecord>, a: Action)
    requires
        close_actions(ws).contains(a),
    ensures
        a is NotifyClosed,
    decreases ws.len(),
{
    if ws.len() > 0 {
        let rest = close_actions(ws.drop_last());
        let tail = if ws.last().closed {
            Seq::<Action>::empty()
        } else {
            seq![Action::NotifyClosed((ws.len() - 1) as usize)]
        };
        let i = choose|i: int| 0 <= i < close_actions(ws).len() && close_actions(ws)[i] == a;
        if i < rest.len() {
            assert(close_actions(ws)[i] == rest[i]);
            lemma_close_actions_only_close(ws.drop_last(), a);
        } else {
            assert(close_actions(ws)[i] == tail[i - rest.len()]);
        }
    }
}

proof fn lemma_close_actions_count(ws: Seq<WindowRecord>, k: int)
    requires
        0 <= k < ws.len(),
        ws.len() <= usize::MAX,
    ensures
        close_actions(ws).to_multiset().count(Action::NotifyClosed(k as usize)) == if ws[k].closed {
            0nat
        } else {
            1nat
        },
    decreases ws.len(),
{
    broadcast use vstd::seq_lib::group_to_multiset_ensures;
    broadcast use vstd::seq_lib::lemma_multiset_commutative;

    let rest = ws.drop_last();
    let n = ws.len() - 1;
    let tail = if ws.last().closed {
        Seq::<Action>::empty()
    } else {
        seq![Action::NotifyClosed(n as usize)]
    };
    assert(close_actions(ws) == close_actions(rest) + tail);
    assert(Seq::<Action>::empty().to_multiset() =~= Multiset::empty());
    assert(seq![Action::NotifyClosed(n as usize)] =~= Seq::<Action>::empty().push(
        Action::NotifyClosed(n as usize),
    ));
    if k < n {
        lemma_close_actions_count(rest, k);
        assert(rest[k] == ws[k]);
        if !ws.last().closed {
            assert(Action::NotifyClosed(n as usize) != Action::NotifyClosed(k as usize));
        }
    } else {
        if n > 0 {
            assert(!close_actions(rest).contains(Action::NotifyClosed(k as usize))) by {
                if close_actions(rest).contains(Action::NotifyClosed(k as usize)) {
                    lemma_close_actions_never_past(rest, k);
                }
            }
        } else {
            assert(rest.len() == 0);
        }
    }
}

proof fn lemma_close_actions_never_past(ws: Seq<WindowRecord>, k: int)
    requires
        k >= ws.len(),
        k <= usize::MAX,
    ensures
        !close_actions(ws).contains(Action::NotifyClosed(k as usize)),
    decreases ws.len(),
{
    if ws.len() > 0 {
        lemma_close_actions_never_past(ws.drop_last(), k);
        let rest = close_actions(ws.drop_last());
        let tail = if ws.last().closed {
            Seq::<Action>::empty()
        } else {
            seq![Action::NotifyClosed((ws.len() - 1) as usize)]
        };
        if close_actions(ws).contains(Action::NotifyClosed(k as usize)) {
            let i = choose|i: int|
                0 <= i < close_actions(ws).len() && close_actions(ws)[i] == Action::NotifyClosed(
                    k as usize,
                );
            if i < rest.len() {
                assert(close_actions(ws)[i] == rest[i]);
            } else {
                assert(close_actions(ws)[i] == tail[i - rest.len()]);
            }
        }
    }
}

/// What one event leaves of a window's record, and whether it runs or
/// announces its closing.
proof fn lemma_step_record(m: SchedulerModel, e: ScheduledEvent, k: int)
    requires
        m.wf(),
        0 <= k < m.windows.len(),
    ensures
        m.step(e).0.wf(),
        m.step(e).0.windows.len() == m.windows.len(),
        m.step(e).0.windows[k].id == m.windows[k].id,
        m.step(e).0.vsync == m.vsync,
        m.step(e).0.max_framerate == m.max_framerate,
        m.windows[k].closed ==> m.step(e).0.windows[k].closed,
        m.windows[k].closed ==> !m.step(e).1.contains(Action::RunFrame(k as usize)),
        !m.step(e).1.contains(Action::RunFrame(k as usize)) ==> m.step(e).0.windows[k].has_frame
            == m.windows[k].has_frame && m.step(e).0.windows[k].last_frame
            == m.windows[k].last_frame,
        m.step(e).1.contains(Action::RunFrame(k as usize)) ==> m.step(e).0.windows[k].has_frame
            && m.step(e).0.windows[k].last_frame == e.now && frame_due(
            m.vsync,
            m.max_framerate,
            m.windows[k].has_frame,
            m.windows[k].last_frame,
            e.now,
        ),
        m.step(e).1.to_multiset().count(Action::NotifyClosed(k as usize)) == if !m.windows[k].closed
            && m.step(e).0.windows[k].closed {
            1nat
        } else {
            0nat
        },
        e.quit ==> forall|j: int| 0 <= j < m.windows.len() ==> #[trigger] m.step(e).0.windows[j].closed,
{
    broadcast use vstd::seq_lib::group_to_multiset_ensures;
    broadcast use vstd::seq_lib::lemma_multiset_commutative;

    let ws = m.windows;
    let (m2, acts) = m.step(e);
    assert(Seq::<Action>::empty().to_multiset() =~= Multiset::empty());
    if e.quit {
        assert(acts == seq![Action::ExitLoop] + close_actions(ws));
        assert(seq![Action::ExitLoop] =~= Seq::<Action>::empty().push(Action::ExitLoop));
        lemma_close_actions_count(ws, k);
        if acts.contains(Action::RunFrame(k as usize)) {
            let i = choose|i: int| 0 <= i < acts.len() && acts[i] == Action::RunFrame(k as usize);
            if i > 0 {
                assert(acts[i] == close_actions(ws)[i - 1]);
                lemma_close_actions_only_close(ws, Action::RunFrame(k as usize));
            }
        }
        assert(m2.windows == all_closed(ws));
    } else if has_window(ws, e.window) {
        let c = window_index(ws, e.window);
        assert(0 <= c < ws.len() && ws[c].id == e.window);
        let cu = c as usize;
        assert(cu as int == c);
        if !ws[c].closed {
            match e.kind {
                WindowEventKind::CloseRequested => {
                    assert(acts =~= Seq::<Action>::empty().push(Action::NotifyClosed(cu)).push(
                        Action::ExitLoop,
                    ).push(Action::ForwardEvent(cu)));
                },
                WindowEventKind::RedrawRequested => {
                    if frame_due(m.vsync, m.max_framerate, ws[c].has_frame, ws[c].last_frame, e.now) {
                        assert(acts =~= Seq::<Action>::empty().push(Action::RunFrame(cu)).push(
                            Action::ForwardEvent(cu),
                        ));
                        if c != k {
                            assert(Action::RunFrame(cu) != Action::RunFrame(k as usize));
                            assert(acts[0] != Action::RunFrame(k as usize));
                            assert(acts[1] != Action::RunFrame(k as usize));
                        } else {
                            assert(acts[0] == Action::RunFrame(k as usize));
                        }
                    } else {
                        assert(acts =~= Seq::<Action>::empty().push(Action::RequestRedraw(cu)).push(
                            Action::ForwardEvent(cu),
                        ));
                        assert(acts[0] != Action::RunFrame(k as usize));
                        assert(acts[1] != Action::RunFrame(k as usize));
                    }
                },
                WindowEventKind::Resized { width, height } => {
                    assert(acts =~= Seq::<Action>::empty().push(
                        Action::ResizeSurface { window: cu, width, height },
                    ).push(Action::ForwardEvent(cu)));
                    assert(acts[0] != Action::RunFrame(k as usize));
                    assert(acts[1] != Action::RunFrame(k as usize));
                },
                WindowEventKind::Focused(focused) => {
                    assert(acts =~= Seq::<Action>::empty().push(
                        Action::NotifyFocus { window: cu, focused },
                    ).push(Action::ForwardEvent(cu)));
                    assert(acts[0] != Action::RunFrame(k as usize));
                    assert(acts[1] != Action::RunFrame(k as usize));
                },
                WindowEventKind::Other => {
                    assert(acts =~= Seq::<Action>::empty().push(Action::ForwardEvent(cu)));
                    assert(acts[0] != Action::RunFrame(k as usize));
                },
            }
        }
    }
}

/// The scheduler keeps its invariant, its windows and its settings over any
/// sequence of events.
proof fn lemma_run_keeps_shape(m: SchedulerModel, events: Seq<ScheduledEvent>)
    requires
        m.wf(),
    ensures
        m.run(events).wf(),
        m.run(events).windows.len() == m.windows.len(),
        m.run(events).vsync == m.vsync,
        m.run(events).max_framerate == m.max_framerate,
    decreases events.len(),
{
    if events.len() > 0 {
        lemma_run_keeps_shape(m, events.drop_last());
        let r = m.run(events.drop_last());
        if r.windows.len() > 0 {
            lemma_step_record(r, events.last(), 0);
        } else {
            let (r2, _) = r.step(events.last());
            if events.last().quit {
                assert(r2.windows =~= r.windows);
            }
        }
    }
}

proof fn lemma_run_without_frame(m: SchedulerModel, events: Seq<ScheduledEvent>, k: int)
    requires
        m.wf(),
        0 <= k < m.windows.len(),
        !m.run_actions(events).contains(Action::RunFrame(k as usize)),
    ensures
        m.run(events).windows[k].has_frame == m.windows[k].has_frame,
        m.run(events).windows[k].last_frame == m.windows[k].last_frame,
    decreases events.len(),
{
    if events.len() > 0 {
        let prev = events.drop_last();
        let before = m.run_actions(prev);
        let r = m.run(prev);
        let last = r.step(events.last()).1;
        assert(m.run_actions(events) == before + last);
        assert(!before.contains(Action::RunFrame(k as usize))) by {
            if before.contains(Action::RunFrame(k as usize)) {
                let i = choose|i: int| 0 <= i < before.len() && before[i] == Action::RunFrame(k as usize);
                assert((before + last)[i] == before[i]);
            }
        }
        assert(!last.contains(Action::RunFrame(k as usize))) by {
            if last.contains(Action::RunFrame(k as usize)) {
                let i = choose|i: int| 0 <= i < last.len() && last[i] == Action::RunFrame(k as usize);
                assert((before + last)[before.len() + i] == last[i]);
            }
        }
        lemma_run_without_frame(m, prev, k);
        lemma_run_keeps_shape(m, prev);
        lemma_step_record(r, events.last(), k);
    }
}

/// With vsync off and a cap of `cap` frames per second, two consecutive
/// frames of a window are at least `1 / cap` seconds apart: after a frame at
/// `first.now`, whatever events come between without running one, the next
/// frame comes at `second.now` no earlier than that.
pub proof fn lemma_frames_spaced_by_cap(
    m: SchedulerModel,
    first: ScheduledEvent,
    between: Seq<ScheduledEvent>,
    second: ScheduledEvent,
    k: usize,
    cap: u32,
)
    requires
        m.wf(),
        k < m.windows.len(),
        !m.vsync,
        m.max_framerate == Some(cap),
        m.step(first).1.contains(Action::RunFrame(k)),
        !m.step(first).0.run_actions(between).contains(Action::RunFrame(k)),
        m.step(first).0.run(between).step(second).1.contains(Action::RunFrame(k)),
    ensures
        second.now > first.now,
        (second.now - first.now) * cap >= NANOS_PER_SECOND,
{
    let m1 = m.step(first).0;
    lemma_step_record(m, first, k as int);
    lemma_run_without_frame(m1, between, k as int);
    lemma_run_keeps_shape(m1, between);
    let m2 = m1.run(between);
    lemma_step_record(m2, second, k as int);
    assert(elapsed(first.now, second.now) * cap >= NANOS_PER_SECOND);
    if second.now <= first.now {
        assert(elapsed(first.now, second.now) == 0);
    }
}

/// With vsync on, the scheduler never holds a frame back: a redraw of an open
/// window always runs one.
pub proof fn lemma_vsync_never_skips(m: SchedulerModel, e: ScheduledEvent)
    requires
        m.wf(),
        m.vsync,
        !e.quit,
        has_window(m.windows, e.window),
        !m.windows[window_index(m.windows, e.window)].closed,
        e.kind == WindowEventKind::RedrawRequested,
    ensures
        m.step(e).1.contains(Action::RunFrame(window_index(m.windows, e.window) as usize)),
{
    let k = window_index(m.windows, e.window);
    assert(m.step(e).1[0] == Action::RunFrame(k as usize));
}

/// Over any sequence of events, a window that starts open is told of its
/// closing exactly once if it ends closed and never otherwise; a quit request
/// closes every window, and a closed window runs no frame.
pub proof fn lemma_close_notified_once(m: SchedulerModel, events: Seq<ScheduledEvent>, k: usize)
    requires
        m.wf(),
        k < m.windows.len(),
        !m.windows[k as int].closed,
    ensures
        m.run_actions(events).to_multiset().count(Action::NotifyClosed(k)) == if m.run(
            events,
        ).windows[k as int].closed {
            1nat
        } else {
            0nat
        },
        (exists|i: int| 0 <= i < events.len() && events[i].quit) ==> m.run(
            events,
        ).windows[k as int].closed,
    decreases events.len(),
{
    broadcast use vstd::seq_lib::group_to_multiset_ensures;
    broadcast use vstd::seq_lib::lemma_multiset_commutative;

    if events.len() == 0 {
        assert(Seq::<Action>::empty().to_multiset() =~= Multiset::empty());
    } else {
        let prev = events.drop_last();
        lemma_close_notified_once(m, prev, k);
        lemma_run_keeps_shape(m, prev);
        let r = m.run(prev);
        lemma_step_record(r, events.last(), k as int);
        if exists|i: int| 0 <= i < events.len() && events[i].quit {
            let i = choose|i: int| 0 <= i < events.len() && events[i].quit;
            if i < events.len() - 1 {
                assert(prev[i] == events[i]);
            }
        }
    }
}

/// A closed window runs no frame, whatever event comes for it.
pub proof fn lemma_closed_window_runs_no_frame(m: SchedulerModel, e: ScheduledEvent, k: usize)
    requires
        m.wf(),
        k < m.windows.len(),
        m.windows[k as int].closed,
    ensures
        !m.step(e).1.contains(Action::RunFrame(k)),
        m.step(e).0.windows[k as int].closed,
{
    lemma_step_record(m, e, k as int);
}

/// The steps of startup for `n` windows, in order.
pub fn startup_steps(n: usize) -> (r: Vec<StartupStep>)
    ensures
        r@ == startup_order(n as nat),
{
    let mut r: Vec<StartupStep> = Vec::new();
    let mut i: usize = 0;
    while i < n
        invariant
            i <= n,
            r@ == Seq::new(i as nat, |j: int| StartupStep::CreateWindow(j as usize)),
        decreases n - i,
    {
        r.push(StartupStep::CreateWindow(i));
        i = i + 1;
        proof {
            assert(r@ =~= Seq::new(i as nat, |j: int| StartupStep::CreateWindow(j as usize)));
        }
    }
    let ghost a = r@;
    let mut i: usize = 0;
    while i < n
        invariant
            i <= n,
            r@ == a + Seq::new(i as nat, |j: int| StartupStep::ConfigureSurface(j as usize)),
        decreases n - i,
    {
        r.push(StartupStep::ConfigureSurface(i));
        i = i + 1;
        proof {
            assert(r@ =~= a + Seq::new(i as nat, |j: int| StartupStep::ConfigureSurface(j as usize)));
        }
    }
    let ghost b = r@;
    let mut i: usize = 0;
    while i < n
        invariant
            i <= n,
            r@ == b + Seq::new(i as nat, |j: int| StartupStep::DeviceInit(j as usize)),
        decreases n - i,
    {
        r.push(StartupStep::DeviceInit(i));
        i = i + 1;
        proof {
            assert(r@ =~= b + Seq::new(i as nat, |j: int| StartupStep::DeviceInit(j as usize)));
        }
    }
    let ghost c = r@;
    let mut i: usize = 0;
    while i < n
        invariant
            i <= n,
            r@ == c + Seq::new(i as nat, |j: int| StartupStep::RequestRedraw(j as usize)),
        decreases n - i,
    {
        r.push(StartupStep::RequestRedraw(i));
        i = i + 1;
        proof {
            assert(r@ =~= c + Seq::new(i as nat, |j: int| StartupStep::RequestRedraw(j as usize)));
        }
    }
    r
}

} // verus!
