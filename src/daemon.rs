use vstd::prelude::*;

use crate::config::{BindView, Config};
use crate::grab::{grab_requests, plan_grabs, GrabRequest, GrabSet, KeyboardMapping};
use crate::text::views;

verus! {

/// The two requests that the signal side can raise.
#[derive(Clone, Copy, Debug, PartialEq, Eq, Structural)]
pub struct ControlFlags {
    pub reload_requested: bool,
    pub terminate_requested: bool,
}

/// What the loop does next, before it waits for an event.
#[derive(Clone, Copy, Debug, PartialEq, Eq, Structural)]
pub enum LoopStep {
    Terminate,
    Reload,
    WaitForEvent,
}

/// The step that the flags call for: termination first, then reload, and
/// only then waiting for the next event.
pub open spec fn step_for(flags: ControlFlags) -> LoopStep {
    if flags.terminate_requested {
        LoopStep::Terminate
    } else if flags.reload_requested {
        LoopStep::Reload
    } else {
        LoopStep::WaitForEvent
    }
}

/// Picks the next step of the loop from the pending requests.
pub fn next_step(flags: ControlFlags) -> (r: LoopStep)
    ensures
        r == step_for(flags),
{
    if flags.terminate_requested {
        LoopStep::Terminate
    } else if flags.reload_requested {
        LoopStep::Reload
    } else {
        LoopStep::WaitForEvent
    }
}

/// What a triggered rule asks for: a process to start, or nothing, when the
/// rule has no command.
pub enum Launch {
    Spawn(Vec<String>),
    NoCommand,
}

/// What a `Launch` holds, as mathematical values.
pub enum LaunchView {
    Spawn(Seq<Seq<char>>),
    NoCommand,
}

impl View for Launch {
    type V = LaunchView;

    open spec fn view(&self) -> LaunchView {
        match self {
            Launch::Spawn(argv) => LaunchView::Spawn(views(argv@)),
            Launch::NoCommand => LaunchView::NoCommand,
        }
    }
}

/// The views of a sequence of launches.
pub open spec fn launch_views(v: Seq<Launch>) -> Seq<LaunchView> {
    v.map_values(|l: Launch| l@)
}

/// The launch of a rule: its argument vector when it has a non-empty one.
pub open spec fn launch_of(b: BindView) -> LaunchView {
    match b.cmd {
        Some(argv) => if argv.len() > 0 {
            LaunchView::Spawn(argv)
        } else {
            LaunchView::NoCommand
        },
        None => LaunchView::NoCommand,
    }
}

/// A rule fires on a key press whose modifier state and symbol are its own.
pub open spec fn fires(b: BindView, state: u16, sym: u32) -> bool {
    b.keybutmask == state && b.key == sym
}

/// The launches of every rule of the table that fires, in table order.
pub open spec fn triggered(binds: Seq<BindView>, state: u16, sym: u32) -> Seq<LaunchView>
    decreases binds.len(),
{
    if binds.len() == 0 {
        Seq::empty()
    } else {
        let prev = triggered(binds.drop_last(), state, sym);
        if fires(binds.last(), state, sym) {
            prev.push(launch_of(binds.last()))
        } else {
            prev
        }
    }
}

/// An event of the windowing connection, with the pressed key already
/// resolved to a symbol under the live keyboard state.
pub enum InputEvent {
    StateNotify { device_id: i32 },
    MappingNotify,
    KeyPress { state: u16, sym: u32 },
    Other,
}

/// What the loop does with an event.
pub enum Response {
    UpdateState,
    RebuildMapping,
    Run(Vec<Launch>),
    Ignore,
}

/// Copies an argument vector.
fn copy_words(v: &Vec<String>) -> (r: Vec<String>)
    ensures
        views(r@) == views(v@),
{
    let mut r: Vec<String> = Vec::new();
    let mut i: usize = 0;
    while i < v.len()
        invariant
            i <= v.len(),
            views(r@) == views(v@).take(i as int),
        decreases v.len() - i,
    {
        let ghost before = r@;
        r.push(v[i].clone());
        proof {
            assert(views(r@) =~= views(before).push(v@[i as int]@));
            assert(views(v@).take(i as int + 1) =~= views(v@).take(i as int).push(v@[i as int]@));
        }
        i = i + 1;
    }
    proof {
        assert(views(v@).take(v.len() as int) =~= views(v@));
    }
    r
}

/// The running daemon's state: the rule table, the keyboard snapshot, the
/// keyboard device it follows, and the grabs it holds.
pub struct Daemon {
    pub config: Config,
    pub mapping: KeyboardMapping,
    pub device_id: i32,
    pub grabs: GrabSet,
}

impl Daemon {
    /// The grabs that the daemon holds.
    pub open spec fn grabbed(&self) -> Set<GrabRequest> {
        self.grabs@
    }

    /// A daemon with no grab yet.
    pub fn new(config: Config, mapping: KeyboardMapping, device_id: i32) -> (r: Daemon)
        requires
            mapping@.wf(),
        ensures
            r.config@ == config@,
            r.mapping@ == mapping@,
            r.device_id == device_id,
            r.grabbed() == Set::<GrabRequest>::empty(),
    {
        Daemon { config, mapping, device_id, grabs: GrabSet::new() }
    }

    /// Tells whether the daemon holds no grab.
    pub fn holds_no_grab(&self) -> (r: bool)
        ensures
            r == (self.grabbed() == Set::<GrabRequest>::empty()),
    {
        self.grabs.is_empty()
    }

    /// Grabs every keycode that a rule of the table needs; returns the grabs
    /// to request from the server.
    pub fn grab_all_binds(&mut self) -> (r: Vec<GrabRequest>)
        requires
            old(self).mapping@.wf(),
        ensures
            r@ == grab_requests(old(self).config@, old(self).mapping@),
            final(self).grabbed() == old(self).grabbed().union(r@.to_set()),
            final(self).config == old(self).config,
            final(self).mapping == old(self).mapping,
            final(self).device_id == old(self).device_id,
    {
        let reqs = plan_grabs(&self.config, &self.mapping);
        self.grabs.install(&reqs);
        reqs
    }

    /// Releases every grab of the table; returns the ungrabs to request.
    pub fn ungrab_all_binds(&mut self) -> (r: Vec<GrabRequest>)
        requires
            old(self).mapping@.wf(),
        ensures
            r@ == grab_requests(old(self).config@, old(self).mapping@),
            final(self).grabbed() == old(self).grabbed().difference(r@.to_set()),
            final(self).config == old(self).config,
            final(self).mapping == old(self).mapping,
            final(self).device_id == old(self).device_id,
    {
        let reqs = plan_grabs(&self.config, &self.mapping);
        self.grabs.uninstall(&reqs);
        reqs
    }

    /// Swaps in a new rule table: releases the old table's grabs, installs
    /// the new table and grabs for it, all in one step. Returns the ungrabs
    /// and then the grabs to request.
    pub fn reload(&mut self, new_config: Config) -> (r: (Vec<GrabRequest>, Vec<GrabRequest>))
        requires
            old(self).mapping@.wf(),
        ensures
            r.0@ == grab_requests(old(self).config@, old(self).mapping@),
            r.1@ == grab_requests(new_config@, old(self).mapping@),
            final(self).config@ == new_config@,
            final(self).grabbed() == old(self).grabbed().difference(r.0@.to_set()).union(r.1@.to_set()),
            final(self).mapping == old(self).mapping,
            final(self).device_id == old(self).device_id,
    {
        let released = self.ungrab_all_binds();
        self.config = new_config;
        let taken = self.grab_all_binds();
        (released, taken)
    }

    /// Replaces the keyboard snapshot after a layout change: the grabs are
    /// released under the old snapshot and taken again under the new one.
    pub fn replace_mapping(&mut self, mapping: KeyboardMapping) -> (r: (Vec<GrabRequest>, Vec<GrabRequest>))
        requires
            old(self).mapping@.wf(),
            mapping@.wf(),
        ensures
            r.0@ == grab_requests(old(self).config@, old(self).mapping@),
            r.1@ == grab_requests(old(self).config@, mapping@),
            final(self).mapping@ == mapping@,
            final(self).grabbed() == old(self).grabbed().difference(r.0@.to_set()).union(r.1@.to_set()),
            final(self).config == old(self).config,
            final(self).device_id == old(self).device_id,
    {
        let released = self.ungrab_all_binds();
        self.mapping = mapping;
        let taken = self.grab_all_binds();
        (released, taken)
    }

    /// Shuts down: releases every grab. Returns the ungrabs to request.
    pub fn terminate(&mut self) -> (r: Vec<GrabRequest>)
        requires
            old(self).mapping@.wf(),
        ensures
            r@ == grab_requests(old(self).config@, old(self).mapping@),
            final(self).grabbed() == old(self).grabbed().difference(r@.to_set()),
            final(self).config == old(self).config,
    {
        self.ungrab_all_binds()
    }

    /// The launches for a key press with modifier state `state` and symbol
    /// `sym`: one for every rule of the table that fires, in table order.
    pub fn key_press(&self, state: u16, sym: u32) -> (r: Vec<Launch>)
        ensures
            launch_views(r@) == triggered(self.config@, state, sym),
    {
        let binds = &self.config.binds;
        let mut out: Vec<Launch> = Vec::new();
        let mut i: usize = 0;
        while i < binds.len()
            invariant
                i <= binds.len(),
                binds == &self.config.binds,
                launch_views(out@) == triggered(self.config@.take(i as int), state, sym),
            decreases binds.len() - i,
        {
            let b = &binds[i];
            proof {
                assert(self.config@.take(i as int + 1).drop_last() =~= self.config@.take(i as int));
                assert(self.config@[i as int] == b@);
            }
            if b.keybutmask == state && b.key == sym {
                let launch = match &b.cmd {
                    Some(argv) => if argv.len() > 0 {
                        Launch::Spawn(copy_words(argv))
                    } else {
                        Launch::NoCommand
                    },
                    None => Launch::NoCommand,
                };
                let ghost before = out@;
                out.push(launch);
                proof {
                    assert(launch_views(out@) =~= launch_views(before).push(launch@));
                }
            }
            i = i + 1;
        }
        proof {
            assert(self.config@.take(binds.len() as int) =~= self.config@);
        }
        out
    }

    /// Decides what to do with an event: follow state changes of the bound
    /// keyboard, rebuild the snapshot on a layout change, run the launches of
    /// a key press, ignore the rest.
    pub fn respond(&self, event: &InputEvent) -> (r: Response)
        ensures
            match *event {
                InputEvent::StateNotify { device_id } => if device_id == self.device_id {
                    r is UpdateState
                } else {
                    r is Ignore
                },
                InputEvent::MappingNotify => r is RebuildMapping,
                InputEvent::KeyPress { state, sym } => match r {
                    Response::Run(v) => launch_views(v@) == triggered(self.config@, state, sym),
                    _ => false,
                },
                InputEvent::Other => r is Ignore,
            },
    {
        match event {
            InputEvent::StateNotify { device_id } => if *device_id == self.device_id {
                Response::UpdateState
            } else {
                Response::Ignore
            },
            InputEvent::MappingNotify => Response::RebuildMapping,
            InputEvent::KeyPress { state, sym } => Response::Run(self.key_press(*state, *sym)),
            InputEvent::Other => Response::Ignore,
        }
    }
}

} // verus!
