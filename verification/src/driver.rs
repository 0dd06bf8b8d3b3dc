//! The driver of an interactive session.
//!
//! The driver owns the viewport and the image on display. It turns input
//! events into changes of the viewport, asks for a new build whenever the
//! viewport changes, and takes in the progress and the result of builds.
//! Builds carry a generation number; only the latest one is current, and
//! what an earlier one reports or delivers is dropped.

use crate::builder::{Job, JobModel};
use crate::image::{ImageSize, PixelBuffer};
use crate::palette::Rgba;
use crate::viewport::{lemma_select_wf, lemma_zoom_width_bounds, Viewport, ViewportModel};
use vstd::prelude::*;

verus! {

/// The time between two frames, in nanoseconds: a sixtieth of a second.
pub const TICK_NANOS: u32 = 1_000_000_000 / 60;

/// One event from the input source.
#[derive(Clone, Copy, Debug, PartialEq, Eq)]
pub enum InputEvent {
    /// The user asked to leave.
    Quit,
    /// The primary button went down.
    ButtonPress,
    /// The primary button came up.
    ButtonRelease,
    /// The pointer moved by `(dx, dy)` pixels.
    PointerMotion { dx: i32, dy: i32 },
    /// The wheel turned by `ticks`: outward when positive.
    Scroll { ticks: i32 },
    /// The user dragged a rectangle from pixel `(x0, y0)` to `(x1, y1)`.
    Select { x0: u32, y0: u32, x1: u32, y1: u32 },
}

/// A request to build an image.
#[derive(Clone, Copy, Debug, PartialEq, Eq)]
pub struct BuildRequest {
    /// The number by which the driver knows the build.
    pub generation: u64,
    /// What to render.
    pub job: Job,
}

/// What the driver asks of its surroundings after an event.
#[derive(Clone, Copy, Debug, PartialEq, Eq)]
pub enum Action {
    /// Nothing.
    Idle,
    /// End the session.
    Quit,
    /// Start the build, which supersedes every earlier one.
    Rebuild(BuildRequest),
}

/// The mathematical content of a [`Driver`].
pub struct DriverModel {
    /// What the current build renders.
    pub job: JobModel,
    /// The number of the current build.
    pub generation: nat,
    /// Whether the primary button is down.
    pub pressed: bool,
    /// Whether the session goes on.
    pub running: bool,
    /// The number of rows of the current build known to be complete.
    pub progress: nat,
    /// Whether the current build has delivered its image.
    pub delivered: bool,
    /// The pixels on display.
    pub displayed: Option<Seq<Rgba>>,
}

impl DriverModel {
    /// The job is well-formed, the progress is within the image, and an
    /// image on display has the size of the job.
    pub open spec fn wf(self) -> bool {
        &&& self.job.wf()
        &&& self.generation <= u64::MAX
        &&& self.progress <= self.job.side
        &&& self.displayed matches Some(pixels) ==> pixels.len() == self.job.side * self.job.side
    }

    /// The state at the start of a session, with build number zero under
    /// way.
    pub open spec fn start(job: JobModel) -> DriverModel {
        DriverModel {
            job,
            generation: 0,
            pressed: false,
            running: true,
            progress: 0,
            delivered: false,
            displayed: None,
        }
    }

    /// The state after a new build for `viewport` was started: it is the
    /// current one, and none of its rows is complete. The image on display
    /// stays until the new one arrives.
    pub open spec fn restart(self, viewport: ViewportModel) -> DriverModel {
        DriverModel {
            job: JobModel { viewport, ..self.job },
            generation: self.generation + 1,
            progress: 0,
            delivered: false,
            ..self
        }
    }

    /// The state after the viewport was asked to become `viewport`: a new
    /// build starts if that is a change and a generation number is left.
    pub open spec fn retarget(self, viewport: ViewportModel) -> DriverModel {
        if viewport != self.job.viewport && self.generation < u64::MAX {
            self.restart(viewport)
        } else {
            self
        }
    }

    /// The state after an input event. A session that has ended takes no
    /// more events. A drag moves the centre while the button is down, a
    /// scroll scales the width, and a selection replaces the viewport.
    pub open spec fn handle(self, event: InputEvent) -> DriverModel {
        if !self.running {
            self
        } else {
            match event {
                InputEvent::Quit => DriverModel { running: false, ..self },
                InputEvent::ButtonPress => DriverModel { pressed: true, ..self },
                InputEvent::ButtonRelease => DriverModel { pressed: false, ..self },
                InputEvent::PointerMotion { dx, dy } => if self.pressed {
                    self.retarget(self.job.viewport.pan(dx as int, dy as int, self.job.side))
                } else {
                    self
                },
                InputEvent::Scroll { ticks } => self.retarget(
                    self.job.viewport.zoom(ticks as int).deepen(),
                ),
                InputEvent::Select { x0, y0, x1, y1 } => if x0 < self.job.side && y0
                    < self.job.side && x1 < self.job.side && y1 < self.job.side {
                    match self.job.viewport.select(
                        self.job.side,
                        x0 as nat,
                        y0 as nat,
                        x1 as nat,
                        y1 as nat,
                    ) {
                        Some(chosen) => self.retarget(chosen.deepen()),
                        None => self,
                    }
                } else {
                    self
                },
            }
        }
    }

    /// Whether a report or a delivery of build `generation` concerns the
    /// build that is current and still under way.
    pub open spec fn awaits(self, generation: nat) -> bool {
        generation == self.generation && !self.delivered
    }

    /// The state after build `generation` reported `completed` rows: the
    /// progress rises to that count if the build is awaited and the count is
    /// no step back; otherwise nothing changes.
    pub open spec fn observe(self, generation: nat, completed: nat) -> DriverModel {
        if self.awaits(generation) && self.progress <= completed <= self.job.side {
            DriverModel { progress: completed, ..self }
        } else {
            self
        }
    }

    /// Whether a delivery of `pixels` by build `generation` is applied.
    pub open spec fn applies(self, generation: nat, pixels: Seq<Rgba>) -> bool {
        self.awaits(generation) && pixels.len() == self.job.side * self.job.side
    }

    /// The state after build `generation` delivered `pixels`: they go on
    /// display if the build is awaited and the image has the size of the
    /// job; otherwise nothing changes.
    pub open spec fn deliver(self, generation: nat, pixels: Seq<Rgba>) -> DriverModel {
        if self.applies(generation, pixels) {
            DriverModel {
                progress: self.job.side,
                delivered: true,
                displayed: Some(pixels),
                ..self
            }
        } else {
            self
        }
    }
}

/// Whether `action` is what the step from `before` to `after` calls for:
/// to quit when the session ended, to rebuild when a new build became
/// current, and nothing otherwise.
pub open spec fn action_for(action: Action, before: DriverModel, after: DriverModel) -> bool {
    match action {
        Action::Quit => before.running && !after.running,
        Action::Rebuild(request) => {
            &&& before.running == after.running
            &&& after.generation == before.generation + 1
            &&& request.generation == after.generation
            &&& request.job@ == after.job
        },
        Action::Idle => before.running == after.running && after.generation == before.generation,
    }
}

/// Every event leaves the driver well-formed. The generation never goes
/// down and the precision of the viewport never goes down.
pub proof fn lemma_handle_keeps_wf(driver: DriverModel, event: InputEvent)
    requires
        driver.wf(),
    ensures
        driver.handle(event).wf(),
        driver.handle(event).generation >= driver.generation,
        driver.handle(event).job.viewport.precision >= driver.job.viewport.precision,
        driver.handle(event).job.side == driver.job.side,
        driver.handle(event).job.max_iterations == driver.job.max_iterations,
        driver.handle(event).displayed == driver.displayed,
{
    match event {
        InputEvent::Scroll { ticks } => {
            lemma_zoom_width_bounds(driver.job.viewport.width, ticks as int);
        },
        InputEvent::Select { x0, y0, x1, y1 } => {
            if x0 < driver.job.side && y0 < driver.job.side && x1 < driver.job.side && y1
                < driver.job.side {
                lemma_select_wf(
                    driver.job.viewport,
                    driver.job.side,
                    x0 as nat,
                    y0 as nat,
                    x1 as nat,
                    y1 as nat,
                );
            }
        },
        _ => {},
    }
}

/// What a build that is not the current one delivers is dropped.
pub proof fn lemma_stale_delivery_is_dropped(
    driver: DriverModel,
    generation: nat,
    pixels: Seq<Rgba>,
)
    requires
        generation != driver.generation,
    ensures
        driver.deliver(generation, pixels) == driver,
        driver.observe(generation, pixels.len()) == driver,
{
}

/// When an event starts a second build while the first is the current one,
/// the first is superseded: whenever its image arrives, before or after
/// that of the second, nothing changes, and once both have delivered the
/// display shows the image of the second.
pub proof fn lemma_superseded_build_is_discarded(
    driver: DriverModel,
    event: InputEvent,
    first_pixels: Seq<Rgba>,
    second_pixels: Seq<Rgba>,
)
    requires
        driver.wf(),
        driver.handle(event).generation != driver.generation,
        second_pixels.len() == driver.job.side * driver.job.side,
    ensures
        ({
            let first = driver.generation;
            let next = driver.handle(event);
            let second = next.generation;
            &&& second == first + 1
            &&& next.deliver(first, first_pixels) == next
            &&& next.deliver(first, first_pixels).deliver(second, second_pixels).displayed == Some(
                second_pixels,
            )
            &&& next.deliver(second, second_pixels).deliver(first, first_pixels).displayed == Some(
                second_pixels,
            )
        }),
{
    lemma_handle_keeps_wf(driver, event);
}

/// The progress that the driver shows for a build never decreases: a report
/// raises it or leaves it, a delivery brings it to the number of rows, and
/// after the delivery neither changes it any more.
pub proof fn lemma_progress_never_decreases(
    driver: DriverModel,
    generation: nat,
    completed: nat,
    pixels: Seq<Rgba>,
)
    requires
        driver.wf(),
    ensures
        driver.observe(generation, completed).wf(),
        driver.deliver(generation, pixels).wf(),
        driver.observe(generation, completed).generation == driver.generation,
        driver.deliver(generation, pixels).generation == driver.generation,
        driver.progress <= driver.observe(generation, completed).progress <= driver.job.side,
        driver.progress <= driver.deliver(generation, pixels).progress <= driver.job.side,
        driver.applies(generation, pixels) ==> driver.deliver(generation, pixels).progress
            == driver.job.side,
        driver.delivered ==> driver.observe(generation, completed) == driver && driver.deliver(
            generation,
            pixels,
        ) == driver,
{
}

/// The pixels of an image on display, if there is one.
pub open spec fn shown(displayed: Option<PixelBuffer>) -> Option<Seq<Rgba>> {
    match displayed {
        Some(buffer) => Some(buffer@),
        None => None,
    }
}

/// The state of an interactive session.
#[derive(Debug)]
pub struct Driver {
    job: Job,
    generation: u64,
    pressed: bool,
    running: bool,
    progress: u32,
    delivered: bool,
    displayed: Option<PixelBuffer>,
}

impl View for Driver {
    type V = DriverModel;

    closed spec fn view(&self) -> DriverModel {
        DriverModel {
            job: self.job@,
            generation: self.generation as nat,
            pressed: self.pressed,
            running: self.running,
            progress: self.progress as nat,
            delivered: self.delivered,
            displayed: shown(self.displayed),
        }
    }
}

impl Driver {
    #[verifier::type_invariant]
    pub open spec fn wf(&self) -> bool {
        self@.wf()
    }

    /// Starts a session that shows `viewport` in an image of size
    /// `image_size`, with `max_iterations` per pixel, and asks for the first
    /// build.
    pub fn new(viewport: Viewport, image_size: ImageSize, max_iterations: u32) -> (started: (
        Driver,
        BuildRequest,
    ))
        ensures
            started.0@ == DriverModel::start(
                (Job { viewport, size: image_size, max_iterations })@,
            ),
            started.1 == (BuildRequest {
                generation: 0,
                job: Job { viewport, size: image_size, max_iterations },
            }),
    {
        proof {
            use_type_invariant(viewport);
            use_type_invariant(image_size);
        }
        let job = Job { viewport, size: image_size, max_iterations };
        let driver = Driver {
            job,
            generation: 0,
            pressed: false,
            running: true,
            progress: 0,
            delivered: false,
            displayed: None,
        };
        (driver, BuildRequest { generation: 0, job })
    }

    fn retarget(&mut self, viewport: Viewport) -> (action: Action)
        requires
            old(self)@.running,
        ensures
            final(self)@ == old(self)@.retarget(viewport@),
            action_for(action, old(self)@, final(self)@),
    {
        proof {
            use_type_invariant(&*self);
            use_type_invariant(viewport);
        }
        if viewport.same(&self.job.viewport) || self.generation == u64::MAX {
            Action::Idle
        } else {
            self.job.viewport = viewport;
            self.generation = self.generation + 1;
            self.progress = 0;
            self.delivered = false;
            Action::Rebuild(BuildRequest { generation: self.generation, job: self.job })
        }
    }

    /// Takes one input event, and says what is to be done about it.
    pub fn handle(&mut self, event: InputEvent) -> (action: Action)
        ensures
            final(self)@ == old(self)@.handle(event),
            action_for(action, old(self)@, final(self)@),
    {
        proof {
            use_type_invariant(&*self);
        }
        if !self.running {
            return Action::Idle;
        }
        match event {
            InputEvent::Quit => {
                self.running = false;
                Action::Quit
            },
            InputEvent::ButtonPress => {
                self.pressed = true;
                Action::Idle
            },
            InputEvent::ButtonRelease => {
                self.pressed = false;
                Action::Idle
            },
            InputEvent::PointerMotion { dx, dy } => {
                if self.pressed {
                    let moved = self.job.viewport.panned(dx, dy, self.job.size);
                    self.retarget(moved)
                } else {
                    Action::Idle
                }
            },
            InputEvent::Scroll { ticks } => {
                let scaled = self.job.viewport.zoomed(ticks).deepened();
                self.retarget(scaled)
            },
            InputEvent::Select { x0, y0, x1, y1 } => {
                match self.job.viewport.selected(self.job.size, x0, y0, x1, y1) {
                    Some(chosen) => {
                        let deeper = chosen.deepened();
                        self.retarget(deeper)
                    },
                    None => Action::Idle,
                }
            },
        }
    }

    /// Takes the report that build `generation` has `completed` rows, and
    /// says whether it raised or confirmed the progress on show.
    pub fn observe(&mut self, generation: u64, completed: u32) -> (noted: bool)
        ensures
            final(self)@ == old(self)@.observe(generation as nat, completed as nat),
            noted == (old(self)@.awaits(generation as nat) && old(self)@.progress <= completed
                <= old(self)@.job.side),
    {
        proof {
            use_type_invariant(&*self);
        }
        if generation == self.generation && !self.delivered && self.progress <= completed
            && completed <= self.job.size.side() {
            self.progress = completed;
            true
        } else {
            false
        }
    }

    /// Takes the image that build `generation` delivers. It goes on display
    /// if the build is the current one, has not delivered before, and the
    /// image has the size of the job; otherwise it is dropped. Says whether
    /// it went on display.
    pub fn deliver(&mut self, generation: u64, buffer: PixelBuffer) -> (applied: bool)
        ensures
            final(self)@ == old(self)@.deliver(generation as nat, buffer@),
            applied == old(self)@.applies(generation as nat, buffer@),
    {
        proof {
            use_type_invariant(&*self);
            use_type_invariant(&buffer);
            use_type_invariant(self.job.size);
            lemma_square_determines_side(buffer.side(), self.job.size@);
        }
        if generation == self.generation && !self.delivered && buffer.size().same(
            &self.job.size,
        ) {
            self.displayed = Some(buffer);
            self.progress = self.job.size.side();
            self.delivered = true;
            true
        } else {
            false
        }
    }

    /// The image on display, if any has arrived.
    pub fn displayed(&self) -> (displayed: Option<&PixelBuffer>)
        ensures
            displayed is Some <==> self@.displayed is Some,
            displayed matches Some(buffer) ==> self@.displayed == Some(buffer@),
    {
        self.displayed.as_ref()
    }

    /// The viewport that the current build renders.
    pub fn viewport(&self) -> (viewport: Viewport)
        ensures
            viewport@ == self@.job.viewport,
    {
        self.job.viewport
    }

    /// What the current build renders.
    pub fn job(&self) -> (job: Job)
        ensures
            job@ == self@.job,
    {
        self.job
    }

    /// The number of the current build.
    pub fn generation(&self) -> (generation: u64)
        ensures
            generation == self@.generation,
    {
        self.generation
    }

    /// The number of rows of the current build known to be complete.
    pub fn progress(&self) -> (progress: u32)
        ensures
            progress == self@.progress,
            progress <= self@.job.side,
    {
        proof {
            use_type_invariant(self);
        }
        self.progress
    }

    /// Whether the session goes on.
    pub fn is_running(&self) -> (running: bool)
        ensures
            running == self@.running,
    {
        self.running
    }

    /// Whether the primary button is down.
    pub fn is_pressed(&self) -> (pressed: bool)
        ensures
            pressed == self@.pressed,
    {
        self.pressed
    }
}

/// Two side lengths with the same square are the same.
proof fn lemma_square_determines_side(a: nat, b: nat)
    ensures
        a * a == b * b <==> a == b,
{
    assert(a * a == b * b <==> a == b) by (nonlinear_arith);
}

} // verus!
