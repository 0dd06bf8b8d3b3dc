//! Building an image row by row.
//!
//! A [`Job`] fixes what is rendered. Its rows do not depend on each other,
//! so they may be rendered in any order and by anyone: [`render_row`]
//! produces one, and a [`Build`] collects them, counts them, and hands out
//! the image once it has them all.

use crate::evaluator::{escape_time, evaluate, lemma_conjugate_symmetry, IterationResult};
use crate::image::{ImageSize, PixelBuffer, MAX_SIDE};
use crate::palette::{color_of, palette, Rgba};
use crate::viewport::{lemma_pixel_offset_mirror, pixel_to_point, Viewport, ViewportModel};
use vstd::arithmetic::div_mod::{
    lemma_div_is_ordered, lemma_fundamental_div_mod, lemma_fundamental_div_mod_converse,
};
use vstd::prelude::*;

verus! {

/// The mathematical content of a [`Job`].
pub struct JobModel {
    pub viewport: ViewportModel,
    pub side: nat,
    pub max_iterations: u32,
}

impl JobModel {
    /// The viewport is well-formed and the side length admissible.
    pub open spec fn wf(self) -> bool {
        &&& self.viewport.wf()
        &&& 1 <= self.side <= MAX_SIDE
    }

    /// The colour of pixel `(x, y)`.
    pub open spec fn pixel(self, x: nat, y: nat) -> Rgba {
        let point = self.viewport.sample_point(self.side, x, y);
        let result = IterationResult::of(escape_time(point, self.max_iterations as nat));
        palette(result.escape_iteration, self.max_iterations)
    }

    /// The pixels of row `y`, from left to right.
    pub open spec fn row(self, y: nat) -> Seq<Rgba> {
        Seq::new(self.side, |x: int| self.pixel(x as nat, y))
    }

    /// The pixels of the whole image, row after row.
    pub open spec fn image(self) -> Seq<Rgba> {
        Seq::new(
            self.side * self.side,
            |k: int| self.pixel((k % self.side as int) as nat, (k / self.side as int) as nat),
        )
    }
}

/// What to render: a viewport, the size of the image, and the iteration
/// budget per pixel.
#[derive(Clone, Copy, Debug, PartialEq, Eq)]
pub struct Job {
    pub viewport: Viewport,
    pub size: ImageSize,
    pub max_iterations: u32,
}

impl View for Job {
    type V = JobModel;

    open spec fn view(&self) -> JobModel {
        JobModel {
            viewport: self.viewport@,
            side: self.size@,
            max_iterations: self.max_iterations,
        }
    }
}

impl Job {
    /// Whether two jobs ask for the same image.
    pub fn same(&self, other: &Job) -> (same: bool)
        ensures
            same == (self@ == other@),
    {
        self.viewport.same(&other.viewport) && self.size.same(&other.size) && self.max_iterations
            == other.max_iterations
    }
}

/// The pixel in column `x` of row `y` of the image stands at `y * side + x`.
pub proof fn lemma_image_index(job: JobModel, x: nat, y: nat)
    requires
        job.side >= 1,
        x < job.side,
        y < job.side,
    ensures
        0 <= y * job.side + x < job.image().len(),
        job.image()[(y * job.side + x) as int] == job.pixel(x, y),
        job.image()[(y * job.side + x) as int] == job.row(y)[x as int],
{
    let side = job.side as int;
    assert(0 <= y * side + x < side * side) by (nonlinear_arith)
        requires
            0 <= x < side,
            0 <= y < side,
    ;
    lemma_fundamental_div_mod_converse(y * side + x, side, y as int, x as int);
}

/// The image of a viewport centred on the real axis is its own mirror image:
/// the rows at the same distance from the top and from the bottom are alike.
pub proof fn lemma_image_mirror(job: JobModel, x: nat, y: nat)
    requires
        job.wf(),
        job.viewport.center_im == 0,
        x < job.side,
        y < job.side,
    ensures
        job.pixel(x, (job.side - 1 - y) as nat) == job.pixel(x, y),
{
    let point = job.viewport.sample_point(job.side, x, y);
    let mirrored = job.viewport.sample_point(job.side, x, (job.side - 1 - y) as nat);
    lemma_pixel_offset_mirror(y as int, job.viewport.width, job.side as int);
    assert(mirrored == point.conjugate());
    lemma_conjugate_symmetry(point, job.max_iterations as nat);
}

/// Renders one pixel.
pub fn render_pixel(job: &Job, x: u32, y: u32) -> (color: Rgba)
    requires
        x < job@.side,
        y < job@.side,
    ensures
        color == job@.pixel(x as nat, y as nat),
{
    let point = pixel_to_point(x, y, job.viewport, job.size);
    let result = evaluate(point, job.max_iterations);
    color_of(result.escape_iteration, job.max_iterations)
}

/// The mathematical content of a [`Row`].
pub struct RowModel {
    pub job: JobModel,
    pub index: nat,
    pub pixels: Seq<Rgba>,
}

impl RowModel {
    /// The row lies in the image of its job and holds the pixels that the
    /// job asks for there.
    pub open spec fn wf(self) -> bool {
        &&& self.job.wf()
        &&& self.index < self.job.side
        &&& self.pixels == self.job.row(self.index)
    }

    /// Row `index` of the image of `job`.
    pub open spec fn of(job: JobModel, index: nat) -> RowModel {
        RowModel { job, index, pixels: job.row(index) }
    }
}

/// One rendered row of the image of a job. Only [`render_row`] makes one, so
/// every row holds the pixels its job asks for.
#[derive(Debug)]
pub struct Row {
    job: Job,
    index: u32,
    pixels: Vec<Rgba>,
}

impl View for Row {
    type V = RowModel;

    closed spec fn view(&self) -> RowModel {
        RowModel { job: self.job@, index: self.index as nat, pixels: self.pixels@ }
    }
}

impl Row {
    #[verifier::type_invariant]
    pub open spec fn wf(&self) -> bool {
        self@.wf()
    }

    /// The job that the row belongs to.
    pub fn job(&self) -> (job: Job)
        ensures
            job@ == self@.job,
    {
        self.job
    }

    /// The index of the row in the image, counted from the top.
    pub fn index(&self) -> (index: u32)
        ensures
            index == self@.index,
            index < self@.job.side,
    {
        proof {
            use_type_invariant(self);
        }
        self.index
    }

    /// The pixels of the row, from left to right.
    pub fn pixels(&self) -> (pixels: &Vec<Rgba>)
        ensures
            pixels@ == self@.pixels,
            pixels@ == self@.job.row(self@.index),
    {
        proof {
            use_type_invariant(self);
        }
        &self.pixels
    }
}

fn render_row_within(job: &Job, index: u32) -> (row: Row)
    requires
        index < job@.side,
    ensures
        row@ == RowModel::of(job@, index as nat),
{
    proof {
        use_type_invariant(job.viewport);
        use_type_invariant(job.size);
    }
    let side: u32 = job.size.side();
    let mut pixels: Vec<Rgba> = Vec::new();
    let mut x: u32 = 0;
    while x < side
        invariant
            x <= side,
            side == job@.side,
            index < side,
            pixels@ == job@.row(index as nat).subrange(0, x as int),
        decreases side - x,
    {
        let color = render_pixel(job, x, index);
        pixels.push(color);
        assert(pixels@ =~= job@.row(index as nat).subrange(0, x + 1));
        x = x + 1;
    }
    assert(job@.row(index as nat).subrange(0, side as int) =~= job@.row(index as nat));
    Row { job: *job, index, pixels }
}

/// Renders row `index` of the image of `job`, or nothing when the image has
/// no such row.
pub fn render_row(job: &Job, index: u32) -> (row: Option<Row>)
    ensures
        row is Some <==> index < job@.side,
        row matches Some(r) ==> r@ == RowModel::of(job@, index as nat),
{
    if index < job.size.side() {
        Some(render_row_within(job, index))
    } else {
        None
    }
}

/// The number of rows that fall to worker `worker` when `workers` workers
/// share an image with `side` rows.
pub open spec fn share_len(side: nat, workers: nat, worker: nat) -> nat {
    if worker >= workers || worker >= side {
        0
    } else {
        ((side - 1 - worker) / workers as int + 1) as nat
    }
}

/// The rows that fall to worker `worker`: every row whose index leaves the
/// remainder `worker` when divided by `workers`, from the top down.
pub open spec fn share(side: nat, workers: nat, worker: nat) -> Seq<nat> {
    Seq::new(share_len(side, workers, worker), |k: int| (worker + k * workers) as nat)
}

/// The shares are rows of the image, and they partition it: every row falls
/// to exactly one worker, and occurs once in that worker's share.
pub proof fn lemma_shares_partition(side: nat, workers: nat, y: nat)
    requires
        workers >= 1,
        y < side,
    ensures
        y / workers < share_len(side, workers, y % workers),
        share(side, workers, y % workers)[(y / workers) as int] == y,
        forall|worker: nat, k: int|
            worker < workers && 0 <= k < share_len(side, workers, worker) && #[trigger] share(
                side,
                workers,
                worker,
            )[k] == y ==> worker == y % workers && k == y / workers,
        forall|worker: nat, k: int|
            0 <= k < share_len(side, workers, worker) ==> #[trigger] share(
                side,
                workers,
                worker,
            )[k] < side,
{
    let w = (y % workers) as int;
    let q = (y / workers) as int;
    let d = workers as int;
    lemma_fundamental_div_mod(y as int, d);
    assert(q * d == d * q) by (nonlinear_arith);
    assert(q <= (side - 1 - w) / d) by {
        lemma_fundamental_div_mod_converse(q * d, d, q, 0);
        lemma_div_is_ordered(q * d, side - 1 - w, d);
    }
    assert forall|worker: nat, k: int|
        worker < workers && 0 <= k < share_len(side, workers, worker) && #[trigger] share(
            side,
            workers,
            worker,
        )[k] == y implies worker == y % workers && k == y / workers by {
        lemma_fundamental_div_mod_converse(y as int, workers as int, k, worker as int);
    }
    assert forall|worker: nat, k: int| 0 <= k < share_len(side, workers, worker) implies #[trigger] share(
        side,
        workers,
        worker,
    )[k] < side by {
        lemma_share_within(side, workers, worker, k);
    }
}

proof fn lemma_share_within(side: nat, workers: nat, worker: nat, k: int)
    requires
        0 <= k < share_len(side, workers, worker),
    ensures
        worker + k * workers < side,
        k * workers >= 0,
{
    let room = side - 1 - worker;
    lemma_fundamental_div_mod(room, workers as int);
    assert(k * workers <= (room / workers as int) * workers && k * workers >= 0)
        by (nonlinear_arith)
        requires
            0 <= k <= room / workers as int,
            workers >= 1,
    ;
    assert((room / workers as int) * workers == workers * (room / workers as int))
        by (nonlinear_arith);
}

/// The rows that worker `worker` of `workers` renders, from the top down.
/// A worker outside the team has no rows.
pub fn rows_of_worker(size: ImageSize, workers: u32, worker: u32) -> (rows: Vec<u32>)
    ensures
        rows@.len() == share_len(size@, workers as nat, worker as nat),
        forall|k: int|
            0 <= k < rows@.len() ==> #[trigger] rows@[k] == share(
                size@,
                workers as nat,
                worker as nat,
            )[k],
{
    let side: u32 = size.side();
    let mut rows: Vec<u32> = Vec::new();
    if worker >= workers || worker >= side {
        return rows;
    }
    let ghost room = side - 1 - worker;
    let mut y: u64 = worker as u64;
    while y < side as u64
        invariant
            1 <= workers,
            worker < workers,
            worker < side,
            side == size@,
            side <= MAX_SIDE,
            room == side - 1 - worker,
            y == worker + rows@.len() * workers,
            rows@.len() <= room / workers as int + 1,
            y >= side ==> rows@.len() == room / workers as int + 1,
            forall|k: int| 0 <= k < rows@.len() ==> #[trigger] rows@[k] == worker + k * workers,
        decreases side + workers - y,
    {
        let ghost k = rows@.len() as int;
        proof {
            lemma_fundamental_div_mod(room, workers as int);
            assert(k <= room / workers as int) by {
                assert(k * workers <= room);
                lemma_fundamental_div_mod_converse(k * workers, workers as int, k, 0);
                lemma_div_is_ordered(k * workers, room, workers as int);
            }
            assert((k + 1) * workers == k * workers + workers) by (nonlinear_arith);
            if y + workers >= side {
                assert(room / workers as int <= k) by {
                    lemma_fundamental_div_mod_converse(
                        room,
                        workers as int,
                        k,
                        room - k * workers,
                    );
                }
            }
        }
        rows.push(y as u32);
        y = y + workers as u64;
    }
    rows
}

/// The number of rows that are present.
pub open spec fn count_done(rows: Seq<Option<Seq<Rgba>>>) -> nat
    decreases rows.len(),
{
    if rows.len() == 0 {
        0
    } else {
        count_done(rows.drop_last()) + if rows.last() is Some {
            1nat
        } else {
            0nat
        }
    }
}

/// No more rows are present than there are, and all of them are present
/// exactly when their number says so.
pub proof fn lemma_count_done_bounds(rows: Seq<Option<Seq<Rgba>>>)
    ensures
        count_done(rows) <= rows.len(),
        count_done(rows) == rows.len() <==> forall|y: int|
            0 <= y < rows.len() ==> (#[trigger] rows[y]) is Some,
    decreases rows.len(),
{
    if rows.len() > 0 {
        let front = rows.drop_last();
        lemma_count_done_bounds(front);
        if count_done(rows) == rows.len() {
            assert forall|y: int| 0 <= y < rows.len() implies (#[trigger] rows[y]) is Some by {
                if y < front.len() {
                    assert(front[y] == rows[y]);
                }
            }
        }
        if forall|y: int| 0 <= y < rows.len() ==> (#[trigger] rows[y]) is Some {
            assert forall|y: int| 0 <= y < front.len() implies (#[trigger] front[y]) is Some by {
                assert(front[y] == rows[y]);
            }
        }
    }
}

/// Filling a missing row raises the count by one.
pub proof fn lemma_count_done_fill(rows: Seq<Option<Seq<Rgba>>>, y: int, pixels: Seq<Rgba>)
    requires
        0 <= y < rows.len(),
        rows[y] is None,
    ensures
        count_done(rows.update(y, Some(pixels))) == count_done(rows) + 1,
    decreases rows.len(),
{
    let filled = rows.update(y, Some(pixels));
    if y == rows.len() - 1 {
        assert(filled.drop_last() =~= rows.drop_last());
    } else {
        assert(filled.drop_last() =~= rows.drop_last().update(y, Some(pixels)));
        lemma_count_done_fill(rows.drop_last(), y, pixels);
    }
}

/// The mathematical content of a [`Build`]: for each row of the image, its
/// pixels once it has arrived.
pub struct BuildModel {
    pub job: JobModel,
    pub rows: Seq<Option<Seq<Rgba>>>,
}

impl BuildModel {
    /// There is a place for each row of the image, and each row that has
    /// arrived holds the pixels that the job asks for.
    pub open spec fn wf(self) -> bool {
        &&& self.job.wf()
        &&& self.rows.len() == self.job.side
        &&& forall|y: int|
            0 <= y < self.rows.len() ==> ((#[trigger] self.rows[y]) matches Some(pixels)
                ==> pixels == self.job.row(y as nat))
    }

    /// The build of `job` before any row has arrived.
    pub open spec fn start(job: JobModel) -> BuildModel {
        BuildModel { job, rows: Seq::new(job.side, |y: int| None) }
    }

    /// The number of rows that have arrived.
    pub open spec fn completed(self) -> nat {
        count_done(self.rows)
    }

    /// Whether every row has arrived.
    pub open spec fn is_complete(self) -> bool {
        self.completed() == self.job.side
    }

    /// Whether `row` is a row of this build's job that has not arrived yet.
    pub open spec fn accepts(self, row: RowModel) -> bool {
        &&& row.job == self.job
        &&& row.index < self.rows.len()
        &&& self.rows[row.index as int] is None
    }

    /// The build after `row` was offered: it takes its place if the build
    /// accepts it, and nothing changes if not.
    pub open spec fn accept(self, row: RowModel) -> BuildModel {
        if self.accepts(row) {
            BuildModel { rows: self.rows.update(row.index as int, Some(row.pixels)), ..self }
        } else {
            self
        }
    }

    /// The build after the rows of `offered` were offered one after the
    /// other.
    pub open spec fn accept_all(self, offered: Seq<RowModel>) -> BuildModel
        decreases offered.len(),
    {
        if offered.len() == 0 {
            self
        } else {
            self.accept_all(offered.drop_last()).accept(offered.last())
        }
    }

    /// Whether every row below `y` has arrived and row `y` has not.
    pub open spec fn lowest_missing(self, y: nat) -> bool {
        &&& y < self.rows.len()
        &&& self.rows[y as int] is None
        &&& forall|above: int| 0 <= above < y ==> (#[trigger] self.rows[above]) is Some
    }

    /// The rows one after the other, from the top.
    pub open spec fn assembled(self) -> Seq<Rgba> {
        Seq::new(
            self.job.side * self.job.side,
            |k: int| self.rows[k / self.job.side as int].unwrap()[k % self.job.side as int],
        )
    }

    /// The image, once every row has arrived.
    pub open spec fn finish(self) -> Option<Seq<Rgba>> {
        if self.is_complete() {
            Some(self.assembled())
        } else {
            None
        }
    }
}

/// A fresh build is well-formed and has no rows.
pub proof fn lemma_start_is_empty(job: JobModel)
    requires
        job.wf(),
    ensures
        BuildModel::start(job).wf(),
        BuildModel::start(job).completed() == 0,
{
    let rows = BuildModel::start(job).rows;
    lemma_count_done_bounds(rows);
    lemma_count_none(rows);
}

proof fn lemma_count_none(rows: Seq<Option<Seq<Rgba>>>)
    requires
        forall|y: int| 0 <= y < rows.len() ==> (#[trigger] rows[y]) is None,
    ensures
        count_done(rows) == 0,
    decreases rows.len(),
{
    if rows.len() > 0 {
        assert forall|y: int| 0 <= y < rows.drop_last().len() implies (
        #[trigger] rows.drop_last()[y]) is None by {
            assert(rows.drop_last()[y] == rows[y]);
        }
        lemma_count_none(rows.drop_last());
    }
}

/// Offering a row keeps a build well-formed. The count of completed rows
/// never goes down: it goes up by one when the row is accepted and stays
/// otherwise, and it never passes the number of rows of the image. A
/// complete build accepts nothing, so the count reaches the number of rows
/// once and stays there.
pub proof fn lemma_accept_progress(build: BuildModel, row: RowModel)
    requires
        build.wf(),
        row.wf(),
    ensures
        build.accept(row).wf(),
        build.accept(row).job == build.job,
        build.accepts(row) ==> build.accept(row).completed() == build.completed() + 1,
        !build.accepts(row) ==> build.accept(row) == build,
        build.completed() <= build.accept(row).completed() <= build.job.side,
        build.is_complete() ==> !build.accepts(row),
{
    lemma_count_done_bounds(build.rows);
    lemma_count_done_bounds(build.accept(row).rows);
    if build.accepts(row) {
        lemma_count_done_fill(build.rows, row.index as int, row.pixels);
    }
}

/// Along any sequence of offered rows the build stays well-formed, and the
/// count of completed rows after `j` offers is no larger than after `k`
/// offers, for `j <= k`, and never passes the number of rows. Once it has
/// reached that number, nothing that is offered changes the build: the
/// count reaches the number of rows only once.
pub proof fn lemma_accept_all_progress(build: BuildModel, offered: Seq<RowModel>, j: int, k: int)
    requires
        build.wf(),
        forall|i: int| 0 <= i < offered.len() ==> (#[trigger] offered[i]).wf(),
        0 <= j <= k <= offered.len(),
    ensures
        build.accept_all(offered.take(k)).wf(),
        build.accept_all(offered.take(k)).job == build.job,
        build.accept_all(offered.take(j)).completed() <= build.accept_all(
            offered.take(k),
        ).completed() <= build.job.side,
        build.accept_all(offered.take(j)).is_complete() ==> build.accept_all(offered.take(k))
            == build.accept_all(offered.take(j)),
    decreases k,
{
    lemma_count_done_bounds(build.rows);
    let upto = offered.take(k);
    if k == 0 {
        assert(offered.take(j) =~= upto);
    } else if j == k {
        lemma_accept_all_progress(build, offered, j - 1, k - 1);
        assert(upto.drop_last() =~= offered.take(k - 1));
        lemma_accept_progress(build.accept_all(offered.take(k - 1)), upto.last());
    } else {
        lemma_accept_all_progress(build, offered, j, k - 1);
        assert(upto.drop_last() =~= offered.take(k - 1));
        lemma_accept_progress(build.accept_all(offered.take(k - 1)), upto.last());
    }
}

/// A row that was offered has arrived, whatever was offered before and
/// after it.
pub proof fn lemma_offered_row_arrives(build: BuildModel, offered: Seq<RowModel>, i: int)
    requires
        build.wf(),
        forall|j: int| 0 <= j < offered.len() ==> (#[trigger] offered[j]).wf(),
        0 <= i < offered.len(),
        offered[i].job == build.job,
    ensures
        build.accept_all(offered).rows[offered[i].index as int] is Some,
    decreases offered.len(),
{
    let front = offered.drop_last();
    assert(front.take(front.len() as int) =~= front);
    lemma_accept_all_progress(build, front, 0, front.len() as int);
    if i < front.len() {
        assert(front[i] == offered[i]);
        lemma_offered_row_arrives(build, front, i);
    }
}

/// A complete build holds the image of its job, whatever the order in which
/// its rows arrived.
pub proof fn lemma_complete_build_is_image(build: BuildModel)
    requires
        build.wf(),
        build.is_complete(),
    ensures
        build.finish() == Some(build.job.image()),
{
    let side = build.job.side as int;
    lemma_count_done_bounds(build.rows);
    assert forall|k: int| 0 <= k < side * side implies build.assembled()[k]
        == build.job.image()[k] by {
        let y = k / side;
        let x = k % side;
        assert(0 <= y < side && 0 <= x < side && k == y * side + x) by (nonlinear_arith)
            requires
                0 <= k < side * side,
                side >= 1,
                y == k / side,
                x == k % side,
        ;
        assert(build.rows[y] is Some);
    }
    assert(build.assembled() =~= build.job.image());
}

/// Two complete builds of the same job hold the same image.
pub proof fn lemma_builds_agree(first: BuildModel, second: BuildModel)
    requires
        first.wf(),
        second.wf(),
        first.job == second.job,
        first.is_complete(),
        second.is_complete(),
    ensures
        first.finish() == second.finish(),
{
    lemma_complete_build_is_image(first);
    lemma_complete_build_is_image(second);
}

/// Whether row `y` occurs among the offered rows.
pub open spec fn offers(offered: Seq<RowModel>, y: nat) -> bool {
    exists|i: int| 0 <= i < offered.len() && (#[trigger] offered[i]).index == y
}

/// Offering every row of a job to a fresh build, in any order and with any
/// repetitions, completes it with the image of the job.
pub proof fn lemma_any_order_builds_image(job: JobModel, offered: Seq<RowModel>)
    requires
        job.wf(),
        forall|i: int| 0 <= i < offered.len() ==> (#[trigger] offered[i]).wf(),
        forall|i: int| 0 <= i < offered.len() ==> (#[trigger] offered[i]).job == job,
        forall|y: nat| y < job.side ==> #[trigger] offers(offered, y),
    ensures
        BuildModel::start(job).accept_all(offered).finish() == Some(job.image()),
{
    let fresh = BuildModel::start(job);
    lemma_start_is_empty(job);
    assert(offered.take(offered.len() as int) =~= offered);
    lemma_accept_all_progress(fresh, offered, 0, offered.len() as int);
    let end = fresh.accept_all(offered);
    assert forall|y: int| 0 <= y < end.rows.len() implies (#[trigger] end.rows[y]) is Some by {
        assert(offers(offered, y as nat));
        let i = choose|i: int| 0 <= i < offered.len() && (#[trigger] offered[i]).index == y as nat;
        lemma_offered_row_arrives(fresh, offered, i);
    }
    lemma_count_done_bounds(end.rows);
    lemma_complete_build_is_image(end);
}

/// One notification of a build's progress.
#[derive(Clone, Copy, Debug, PartialEq, Eq)]
pub enum Progress {
    /// Row `index` has arrived, which makes `completed` rows in all.
    Row { index: u32, completed: u32 },
    /// Every row has arrived: no further notification follows.
    End,
}

/// The pixels of a row as a sequence, if the row is there.
pub open spec fn row_view(row: Option<Vec<Rgba>>) -> Option<Seq<Rgba>> {
    match row {
        Some(pixels) => Some(pixels@),
        None => None,
    }
}

/// A build in flight: the rows of one job that have arrived so far.
#[derive(Debug)]
pub struct Build {
    job: Job,
    rows: Vec<Option<Vec<Rgba>>>,
    completed: u32,
    cursor: u32,
}

impl View for Build {
    type V = BuildModel;

    closed spec fn view(&self) -> BuildModel {
        BuildModel {
            job: self.job@,
            rows: Seq::new(self.rows@.len(), |y: int| row_view(self.rows@[y])),
        }
    }
}

impl Build {
    /// The rows that have arrived are those of the job, and the count of
    /// completed rows is their number.
    pub closed spec fn wf(&self) -> bool {
        &&& self@.wf()
        &&& self.completed == self@.completed()
        &&& self.cursor <= self.rows@.len()
        &&& forall|y: int| 0 <= y < self.cursor ==> (#[trigger] self.rows@[y]) is Some
    }

    /// What a well-formed build holds is well-formed, so that what is
    /// proved of every well-formed [`BuildModel`] holds of it.
    pub proof fn lemma_model_wf(&self)
        requires
            self.wf(),
        ensures
            self@.wf(),
            self@.completed() <= self@.job.side,
    {
        lemma_count_done_bounds(self@.rows);
    }

    /// The job that is being built.
    pub fn job(&self) -> (job: Job)
        ensures
            job@ == self@.job,
    {
        self.job
    }

    /// The number of rows that have arrived.
    pub fn completed(&self) -> (completed: u32)
        requires
            self.wf(),
        ensures
            completed == self@.completed(),
            completed <= self@.job.side,
    {
        proof {
            lemma_count_done_bounds(self@.rows);
        }
        self.completed
    }

    /// Whether every row has arrived.
    pub fn is_complete(&self) -> (complete: bool)
        requires
            self.wf(),
        ensures
            complete == self@.is_complete(),
    {
        self.completed == self.job.size.side()
    }

    /// Offers a rendered row. The build takes it if it is a row of the
    /// build's job that has not arrived yet, and reports the new count of
    /// completed rows; otherwise nothing changes and nothing is reported.
    pub fn accept(&mut self, row: Row) -> (progress: Option<Progress>)
        requires
            old(self).wf(),
        ensures
            final(self).wf(),
            final(self)@ == old(self)@.accept(row@),
            final(self)@.completed() == old(self)@.completed() + (if old(self)@.accepts(row@) {
                1nat
            } else {
                0nat
            }),
            final(self)@.completed() <= final(self)@.job.side,
            progress == (if old(self)@.accepts(row@) {
                Some(
                    Progress::Row {
                        index: row@.index as u32,
                        completed: (old(self)@.completed() + 1) as u32,
                    },
                )
            } else {
                None
            }),
    {
        proof {
            use_type_invariant(&row);
            lemma_accept_progress(self@, row@);
        }
        let index: u32 = row.index;
        if !row.job.same(&self.job) || self.rows[index as usize].is_some() {
            return None;
        }
        let ghost before = self@;
        let ghost offered = row@;
        let Row { job: _, index: _, pixels } = row;
        self.rows.set(index as usize, Some(pixels));
        self.completed = self.completed + 1;
        proof {
            assert(self@.rows =~= before.accept(offered).rows);
            assert forall|y: int| 0 <= y < self.cursor implies (#[trigger] self.rows@[y]) is Some by {
                assert(old(self).rows@[y] is Some);
            }
        }
        Some(Progress::Row { index, completed: self.completed })
    }

    /// Renders the topmost row that has not arrived yet and reports it, or
    /// reports the end when no row is missing.
    ///
    /// On a build that receives its rows in no other way, the calls report
    /// the rows from the top down, one per row of the image, and then the
    /// end.
    pub fn advance(&mut self) -> (progress: Progress)
        requires
            old(self).wf(),
        ensures
            final(self).wf(),
            match progress {
                Progress::Row { index, completed } => {
                    &&& old(self)@.lowest_missing(index as nat)
                    &&& final(self)@ == old(self)@.accept(
                        RowModel::of(old(self)@.job, index as nat),
                    )
                    &&& completed == old(self)@.completed() + 1
                    &&& completed == final(self)@.completed()
                },
                Progress::End => old(self)@.is_complete() && final(self)@ == old(self)@,
            },
            progress is End <==> old(self)@.is_complete(),
            final(self)@.completed() <= final(self)@.job.side,
    {
        proof {
            use_type_invariant(self.job.size);
            use_type_invariant(self.job.viewport);
            lemma_count_done_bounds(self@.rows);
        }
        let side: u32 = self.job.size.side();
        while self.cursor < side && self.rows[self.cursor as usize].is_some()
            invariant
                self.job == old(self).job,
                self.rows == old(self).rows,
                self.completed == old(self).completed,
                side == self.rows@.len(),
                self.cursor <= side,
                forall|y: int| 0 <= y < self.cursor ==> (#[trigger] self.rows@[y]) is Some,
            decreases side - self.cursor,
        {
            self.cursor = self.cursor + 1;
        }
        if self.cursor >= side {
            assert(self@ == old(self)@);
            assert forall|y: int| 0 <= y < self@.rows.len() implies (
            #[trigger] self@.rows[y]) is Some by {
                assert(self.rows@[y] is Some);
            }
            return Progress::End;
        }
        let index: u32 = self.cursor;
        let ghost before = self@;
        assert(before == old(self)@);
        assert(before.lowest_missing(index as nat)) by {
            assert forall|above: int| 0 <= above < index implies (
            #[trigger] before.rows[above]) is Some by {
                assert(self.rows@[above] is Some);
            }
        }
        let row = render_row_within(&self.job, index);
        proof {
            use_type_invariant(&row);
            lemma_accept_progress(before, row@);
        }
        let Row { job: _, index: _, pixels } = row;
        self.rows.set(index as usize, Some(pixels));
        self.completed = self.completed + 1;
        proof {
            assert(self@.rows =~= before.accept(RowModel::of(before.job, index as nat)).rows);
            assert forall|y: int| 0 <= y < self.cursor implies (#[trigger] self.rows@[y]) is Some by {
                assert(old(self).rows@[y] is Some);
            }
        }
        Progress::Row { index, completed: self.completed }
    }

    /// The image of a complete build.
    fn assemble(&self) -> (buffer: PixelBuffer)
        requires
            self.wf(),
            self@.is_complete(),
        ensures
            self@.finish() == Some(buffer@),
            buffer@ == self@.job.image(),
            buffer.side() == self@.job.side,
    {
        proof {
            use_type_invariant(self.job.size);
            lemma_complete_build_is_image(self@);
        }
        let side: u32 = self.job.size.side();
        let ghost image = self@.job.image();
        let mut pixels: Vec<Rgba> = Vec::new();
        let mut y: u32 = 0;
        while y < side
            invariant
                self.wf(),
                self@.is_complete(),
                side == self@.job.side,
                1 <= side <= MAX_SIDE,
                image == self@.job.image(),
                y <= side,
                pixels@ == image.subrange(0, y * side),
            decreases side - y,
        {
            proof {
                lemma_count_done_bounds(self@.rows);
                assert(self@.rows[y as int] is Some);
                assert(0 <= y * side && y * side + side <= side * side) by (nonlinear_arith)
                    requires
                        0 <= y < side,
                ;
            }
            let row: &Vec<Rgba> = self.rows[y as usize].as_ref().unwrap();
            let mut x: u32 = 0;
            while x < side
                invariant
                    side == self@.job.side,
                    1 <= side <= MAX_SIDE,
                    image == self@.job.image(),
                    y < side,
                    x <= side,
                    row@ == self@.job.row(y as nat),
                    0 <= y * side,
                    y * side + side <= side * side,
                    pixels@ == image.subrange(0, y * side + x),
                decreases side - x,
            {
                proof {
                    lemma_image_index(self@.job, x as nat, y as nat);
                }
                pixels.push(row[x as usize]);
                assert(pixels@ =~= image.subrange(0, y * side + x + 1));
                x = x + 1;
            }
            assert((y + 1) * side == y * side + side) by (nonlinear_arith);
            y = y + 1;
        }
        assert(image.subrange(0, side * side) =~= image);
        PixelBuffer::from_pixels(self.job.size, pixels).unwrap()
    }

    /// Hands out the image once every row has arrived; until then the build
    /// comes back unchanged.
    ///
    /// The image holds the rows from the top down, whatever the order in
    /// which they arrived.
    pub fn finish(self) -> (outcome: Result<PixelBuffer, Build>)
        requires
            self.wf(),
        ensures
            match outcome {
                Ok(buffer) => {
                    &&& self@.finish() == Some(buffer@)
                    &&& buffer@ == self@.job.image()
                    &&& buffer.side() == self@.job.side
                },
                Err(build) => self@.finish() is None && build == self,
            },
            outcome is Ok <==> self@.is_complete(),
    {
        if self.is_complete() {
            Ok(self.assemble())
        } else {
            Err(self)
        }
    }
}

/// Starts building the image that shows `viewport` with `image_size` pixels
/// in a row and a budget of `max_iterations` per pixel. No row has arrived
/// yet.
pub fn build(viewport: Viewport, image_size: ImageSize, max_iterations: u32) -> (build: Build)
    ensures
        build.wf(),
        build@ == BuildModel::start((Job { viewport, size: image_size, max_iterations })@),
        build@.completed() == 0,
        !build@.is_complete(),
{
    proof {
        use_type_invariant(viewport);
        use_type_invariant(image_size);
    }
    let job = Job { viewport, size: image_size, max_iterations };
    let side: u32 = image_size.side();
    let mut rows: Vec<Option<Vec<Rgba>>> = Vec::new();
    let mut y: u32 = 0;
    while y < side
        invariant
            y <= side,
            rows@.len() == y,
            forall|k: int| 0 <= k < y ==> (#[trigger] rows@[k]) is None,
        decreases side - y,
    {
        rows.push(None);
        y = y + 1;
    }
    let build = Build { job, rows, completed: 0, cursor: 0 };
    proof {
        lemma_start_is_empty(job@);
        assert(build@.rows =~= BuildModel::start(job@).rows);
    }
    build
}

/// Renders the whole image, row after row from the top.
pub fn render(viewport: Viewport, image_size: ImageSize, max_iterations: u32) -> (buffer:
    PixelBuffer)
    ensures
        buffer@ == (Job { viewport, size: image_size, max_iterations })@.image(),
        buffer.side() == image_size@,
{
    let mut pending = build(viewport, image_size, max_iterations);
    let ghost job = pending@.job;
    while !pending.is_complete()
        invariant
            pending.wf(),
            pending@.job == job,
        decreases job.side - pending@.completed(),
    {
        proof {
            lemma_count_done_bounds(pending@.rows);
        }
        let ghost before = pending@;
        let progress = pending.advance();
        proof {
            if let Progress::Row { index, completed } = progress {
                lemma_accept_progress(before, RowModel::of(before.job, index as nat));
            }
        }
    }
    pending.assemble()
}

} // verus!
