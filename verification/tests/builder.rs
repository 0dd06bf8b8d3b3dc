use mandelbrot::builder::{
    build, render, render_pixel, render_row, rows_of_worker, Job, Progress,
};
use mandelbrot::evaluator::evaluate;
use mandelbrot::image::{ImageSize, PixelBuffer};
use mandelbrot::palette::{color_of, Rgba};
use mandelbrot::viewport::{pixel_to_point, Viewport};

const P: u32 = 20;

fn whole_set() -> Viewport {
    Viewport::new(0, 0, 4 << P, P).unwrap()
}

fn job(side: u32, max_iterations: u32) -> Job {
    Job { viewport: whole_set(), size: ImageSize::new(side).unwrap(), max_iterations }
}

fn rgba(red: u8, green: u8, blue: u8) -> Rgba {
    Rgba { red, green, blue, alpha: 255 }
}

fn build_in_order(job: &Job, order: &[u32]) -> PixelBuffer {
    let mut pending = build(job.viewport, job.size, job.max_iterations);
    for &index in order {
        let row = render_row(job, index).unwrap();
        pending.accept(row);
    }
    pending.finish().expect("every row has arrived")
}

#[test]
fn small_image_has_the_expected_pixels() {
    let buffer = render(whole_set(), ImageSize::new(4).unwrap(), 50);
    let a = rgba(194, 250, 150);
    let b = rgba(185, 245, 147);
    let c = rgba(176, 240, 144);
    let d = rgba(158, 230, 138);
    let black = rgba(0, 0, 0);
    let expected = vec![a, b, b, a, c, black, d, b, c, black, d, b, a, b, b, a];
    assert_eq!(buffer.pixels(), &expected);
    assert_eq!(buffer.size().side(), 4);
}

#[test]
fn pixels_are_the_colours_of_their_sample_points() {
    let job = job(16, 100);
    let buffer = render(job.viewport, job.size, job.max_iterations);
    for y in 0..16 {
        for x in 0..16 {
            let point = pixel_to_point(x, y, job.viewport, job.size);
            let result = evaluate(point, 100);
            let expected = color_of(result.escape_iteration, 100);
            assert_eq!(render_pixel(&job, x, y), expected);
            assert_eq!(buffer.pixel(x, y), Some(expected));
        }
    }
}

#[test]
fn rows_hold_the_pixels_of_their_line() {
    let job = job(8, 60);
    let buffer = render(job.viewport, job.size, job.max_iterations);
    for index in 0..8 {
        let row = render_row(&job, index).unwrap();
        assert_eq!(row.index(), index);
        assert_eq!(row.job(), job);
        let expected: Vec<Rgba> = (0..8).map(|x| buffer.pixel(x, index).unwrap()).collect();
        assert_eq!(row.pixels(), &expected);
    }
    assert!(render_row(&job, 8).is_none());
    assert!(render_row(&job, u32::MAX).is_none());
}

#[test]
fn repeated_builds_are_identical() {
    let job = job(12, 80);
    let first = render(job.viewport, job.size, job.max_iterations);
    let second = render(job.viewport, job.size, job.max_iterations);
    assert_eq!(first, second);
    assert_eq!(first.to_rgba_bytes(), second.to_rgba_bytes());
}

#[test]
fn order_of_rows_does_not_change_the_image() {
    let job = job(6, 70);
    let expected = render(job.viewport, job.size, job.max_iterations);
    let orders: [[u32; 6]; 4] =
        [[0, 1, 2, 3, 4, 5], [5, 4, 3, 2, 1, 0], [3, 0, 5, 1, 4, 2], [2, 4, 0, 5, 3, 1]];
    for order in orders {
        let buffer = build_in_order(&job, &order);
        assert_eq!(buffer, expected);
        assert_eq!(buffer.to_rgba_bytes(), expected.to_rgba_bytes());
    }
}

#[test]
fn progress_counts_up_by_one_per_row() {
    let job = job(5, 40);
    let mut pending = build(job.viewport, job.size, job.max_iterations);
    assert_eq!(pending.completed(), 0);
    assert!(!pending.is_complete());
    let mut seen = Vec::new();
    for (count, index) in [4u32, 0, 2, 3, 1].into_iter().enumerate() {
        let progress = pending.accept(render_row(&job, index).unwrap());
        let completed = count as u32 + 1;
        assert_eq!(progress, Some(Progress::Row { index, completed }));
        assert_eq!(pending.completed(), completed);
        assert_eq!(pending.is_complete(), completed == 5);
        seen.push(pending.completed());
    }
    assert_eq!(seen, vec![1, 2, 3, 4, 5]);
    assert_eq!(seen.iter().filter(|&&count| count == 5).count(), 1);
    assert!(pending.finish().is_ok());
}

#[test]
fn repeated_rows_are_refused() {
    let job = job(3, 40);
    let mut pending = build(job.viewport, job.size, job.max_iterations);
    assert!(pending.accept(render_row(&job, 1).unwrap()).is_some());
    assert_eq!(pending.accept(render_row(&job, 1).unwrap()), None);
    assert_eq!(pending.completed(), 1);
    assert!(pending.accept(render_row(&job, 0).unwrap()).is_some());
    assert!(pending.accept(render_row(&job, 2).unwrap()).is_some());
    assert_eq!(pending.accept(render_row(&job, 0).unwrap()), None);
    assert_eq!(pending.completed(), 3);
    assert!(pending.is_complete());
}

#[test]
fn rows_of_another_job_are_refused() {
    let job = job(3, 40);
    let mut pending = build(job.viewport, job.size, job.max_iterations);
    let other_budget = Job { max_iterations: 41, ..job };
    let other_view = Job { viewport: job.viewport.zoomed(-1), ..job };
    let other_size = Job { size: ImageSize::new(4).unwrap(), ..job };
    assert_eq!(pending.accept(render_row(&other_budget, 0).unwrap()), None);
    assert_eq!(pending.accept(render_row(&other_view, 0).unwrap()), None);
    assert_eq!(pending.accept(render_row(&other_size, 0).unwrap()), None);
    assert_eq!(pending.accept(render_row(&other_size, 3).unwrap()), None);
    assert_eq!(pending.completed(), 0);
    assert_eq!(pending.job(), job);
}

#[test]
fn unfinished_build_hands_out_nothing() {
    let job = job(3, 40);
    let pending = build(job.viewport, job.size, job.max_iterations);
    let mut pending = pending.finish().expect_err("no row has arrived");
    pending.accept(render_row(&job, 0).unwrap());
    pending.accept(render_row(&job, 2).unwrap());
    let mut pending = pending.finish().expect_err("one row is missing");
    assert_eq!(pending.completed(), 2);
    pending.accept(render_row(&job, 1).unwrap());
    let buffer = pending.finish().expect("every row has arrived");
    assert_eq!(buffer, render(job.viewport, job.size, job.max_iterations));
}

#[test]
fn advance_reports_each_row_and_then_the_end() {
    let job = job(4, 30);
    let mut pending = build(job.viewport, job.size, job.max_iterations);
    let mut reports = Vec::new();
    loop {
        let progress = pending.advance();
        reports.push(progress);
        if progress == Progress::End {
            break;
        }
    }
    assert_eq!(
        reports,
        vec![
            Progress::Row { index: 0, completed: 1 },
            Progress::Row { index: 1, completed: 2 },
            Progress::Row { index: 2, completed: 3 },
            Progress::Row { index: 3, completed: 4 },
            Progress::End,
        ]
    );
    assert_eq!(pending.advance(), Progress::End);
    assert_eq!(pending.completed(), 4);
    let buffer = pending.finish().unwrap();
    assert_eq!(buffer, render(job.viewport, job.size, job.max_iterations));
}

#[test]
fn advance_fills_the_topmost_gap() {
    let job = job(5, 30);
    let mut pending = build(job.viewport, job.size, job.max_iterations);
    pending.accept(render_row(&job, 0).unwrap());
    pending.accept(render_row(&job, 2).unwrap());
    assert_eq!(pending.advance(), Progress::Row { index: 1, completed: 3 });
    pending.accept(render_row(&job, 4).unwrap());
    assert_eq!(pending.advance(), Progress::Row { index: 3, completed: 5 });
    assert_eq!(pending.advance(), Progress::End);
    assert_eq!(pending.accept(render_row(&job, 3).unwrap()), None);
    assert_eq!(pending.finish().unwrap(), render(job.viewport, job.size, job.max_iterations));
}

#[test]
fn a_fresh_build_starts_a_fresh_sequence() {
    let job = job(2, 30);
    let mut first = build(job.viewport, job.size, job.max_iterations);
    assert_eq!(first.advance(), Progress::Row { index: 0, completed: 1 });
    assert_eq!(first.advance(), Progress::Row { index: 1, completed: 2 });
    assert_eq!(first.advance(), Progress::End);
    let mut second = build(job.viewport, job.size, job.max_iterations);
    assert_eq!(second.completed(), 0);
    assert_eq!(second.advance(), Progress::Row { index: 0, completed: 1 });
}

#[test]
fn image_is_symmetric_about_the_real_axis() {
    let job = job(9, 90);
    let buffer = render(job.viewport, job.size, job.max_iterations);
    for y in 0..9 {
        for x in 0..9 {
            assert_eq!(buffer.pixel(x, y), buffer.pixel(x, 8 - y));
        }
    }
}

#[test]
fn single_pixel_image() {
    let buffer = render(whole_set(), ImageSize::new(1).unwrap(), 255);
    assert_eq!(buffer.pixels(), &vec![rgba(0, 0, 0)]);
    let far = Viewport::new(3 << P, 0, 1 << P, P).unwrap();
    let buffer = render(far, ImageSize::new(1).unwrap(), 255);
    assert_eq!(buffer.pixels(), &vec![rgba(247, 251, 253)]);
}

#[test]
fn jobs_compare_by_value() {
    let a = job(4, 30);
    assert!(a.same(&job(4, 30)));
    assert!(!a.same(&job(5, 30)));
    assert!(!a.same(&job(4, 31)));
    assert!(!a.same(&Job { viewport: a.viewport.panned(1, 1, a.size), ..a }));
}

#[test]
fn workers_take_every_row_in_turn() {
    let size = ImageSize::new(10).unwrap();
    assert_eq!(rows_of_worker(size, 3, 0), vec![0, 3, 6, 9]);
    assert_eq!(rows_of_worker(size, 3, 1), vec![1, 4, 7]);
    assert_eq!(rows_of_worker(size, 3, 2), vec![2, 5, 8]);
    assert_eq!(rows_of_worker(size, 1, 0), vec![0, 1, 2, 3, 4, 5, 6, 7, 8, 9]);
    assert_eq!(rows_of_worker(size, 10, 9), vec![9]);
    assert_eq!(rows_of_worker(size, u32::MAX, 4), vec![4]);
}

#[test]
fn workers_outside_the_team_or_the_image_take_nothing() {
    let size = ImageSize::new(10).unwrap();
    assert_eq!(rows_of_worker(size, 3, 3), Vec::<u32>::new());
    assert_eq!(rows_of_worker(size, 0, 0), Vec::<u32>::new());
    assert_eq!(rows_of_worker(size, 20, 10), Vec::<u32>::new());
    assert_eq!(rows_of_worker(size, u32::MAX, u32::MAX - 1), Vec::<u32>::new());
}

#[test]
fn shares_of_the_workers_partition_the_rows() {
    for side in [1u32, 2, 7, 16, 33] {
        let size = ImageSize::new(side).unwrap();
        for workers in [1u32, 2, 3, 5, 16, 40] {
            let mut seen = vec![0u32; side as usize];
            for worker in 0..workers {
                for row in rows_of_worker(size, workers, worker) {
                    assert_eq!(row % workers, worker);
                    seen[row as usize] += 1;
                }
            }
            assert_eq!(seen, vec![1u32; side as usize]);
        }
    }
}

#[test]
fn rows_rendered_by_shares_build_the_image() {
    let job = job(7, 60);
    let mut pending = build(job.viewport, job.size, job.max_iterations);
    for worker in [2u32, 0, 1] {
        for index in rows_of_worker(job.size, 3, worker) {
            assert!(pending.accept(render_row(&job, index).unwrap()).is_some());
        }
    }
    assert_eq!(pending.finish().unwrap(), render(job.viewport, job.size, job.max_iterations));
}
