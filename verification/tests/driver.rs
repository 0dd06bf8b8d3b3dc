use mandelbrot::builder::{render, Job};
use mandelbrot::driver::{Action, BuildRequest, Driver, InputEvent};
use mandelbrot::image::{ImageSize, PixelBuffer};
use mandelbrot::palette::Rgba;
use mandelbrot::viewport::Viewport;

const P: u32 = 40;
const SIDE: u32 = 8;

fn whole_set() -> Viewport {
    Viewport::new(0, 0, 4 << P, P).unwrap()
}

fn size() -> ImageSize {
    ImageSize::new(SIDE).unwrap()
}

fn start() -> (Driver, BuildRequest) {
    Driver::new(whole_set(), size(), 50)
}

fn plain(level: u8) -> PixelBuffer {
    let pixel = Rgba { red: level, green: level, blue: level, alpha: 255 };
    PixelBuffer::from_pixels(size(), vec![pixel; (SIDE * SIDE) as usize]).unwrap()
}

fn request_of(action: Action) -> BuildRequest {
    match action {
        Action::Rebuild(request) => request,
        other => panic!("expected a rebuild, got {:?}", other),
    }
}

#[test]
fn session_starts_with_the_first_build() {
    let (driver, request) = start();
    assert_eq!(request.generation, 0);
    assert_eq!(request.job, Job { viewport: whole_set(), size: size(), max_iterations: 50 });
    assert_eq!(driver.generation(), 0);
    assert_eq!(driver.job(), request.job);
    assert_eq!(driver.viewport(), whole_set());
    assert_eq!(driver.progress(), 0);
    assert!(driver.is_running());
    assert!(!driver.is_pressed());
    assert!(driver.displayed().is_none());
}

#[test]
fn superseded_build_is_discarded() {
    let (mut driver, first) = start();
    let second = request_of(driver.handle(InputEvent::Scroll { ticks: -1 }));
    assert_ne!(first.generation, second.generation);
    let first_image = render(first.job.viewport, first.job.size, first.job.max_iterations);
    let second_image = render(second.job.viewport, second.job.size, second.job.max_iterations);
    assert_ne!(first_image, second_image);
    assert!(!driver.deliver(first.generation, first_image.clone()));
    assert!(driver.displayed().is_none());
    assert!(driver.deliver(second.generation, second_image.clone()));
    assert_eq!(driver.displayed(), Some(&second_image));
}

#[test]
fn superseded_build_is_discarded_when_it_finishes_last() {
    let (mut driver, first) = start();
    let second = request_of(driver.handle(InputEvent::Scroll { ticks: 2 }));
    assert!(driver.deliver(second.generation, plain(2)));
    assert_eq!(driver.displayed(), Some(&plain(2)));
    assert!(!driver.deliver(first.generation, plain(1)));
    assert_eq!(driver.displayed(), Some(&plain(2)));
}

#[test]
fn display_keeps_the_last_image_until_the_next_arrives() {
    let (mut driver, first) = start();
    assert!(driver.deliver(first.generation, plain(1)));
    let second = request_of(driver.handle(InputEvent::Scroll { ticks: 1 }));
    assert_eq!(driver.displayed(), Some(&plain(1)));
    assert_eq!(driver.progress(), 0);
    let third = request_of(driver.handle(InputEvent::Scroll { ticks: 1 }));
    assert!(!driver.deliver(second.generation, plain(2)));
    assert_eq!(driver.displayed(), Some(&plain(1)));
    assert!(driver.deliver(third.generation, plain(3)));
    assert_eq!(driver.displayed(), Some(&plain(3)));
}

#[test]
fn a_build_delivers_once() {
    let (mut driver, first) = start();
    assert!(driver.deliver(first.generation, plain(1)));
    assert!(!driver.deliver(first.generation, plain(9)));
    assert_eq!(driver.displayed(), Some(&plain(1)));
}

#[test]
fn images_of_another_size_are_dropped() {
    let (mut driver, first) = start();
    let other = ImageSize::new(SIDE + 1).unwrap();
    let pixel = Rgba { red: 1, green: 2, blue: 3, alpha: 255 };
    let wrong = PixelBuffer::from_pixels(other, vec![pixel; 81]).unwrap();
    assert!(!driver.deliver(first.generation, wrong));
    assert!(driver.displayed().is_none());
    assert_eq!(driver.progress(), 0);
}

#[test]
fn progress_never_decreases_within_a_build() {
    let (mut driver, first) = start();
    let mut seen = vec![driver.progress()];
    for completed in [1, 3, 2, 3, 5, 4, 8, 7] {
        let noted = driver.observe(first.generation, completed);
        assert_eq!(noted, completed >= *seen.last().unwrap());
        seen.push(driver.progress());
    }
    assert_eq!(seen, vec![0, 1, 3, 3, 3, 5, 5, 8, 8]);
    assert!(seen.windows(2).all(|pair| pair[0] <= pair[1]));
    assert!(driver.deliver(first.generation, plain(1)));
    assert_eq!(driver.progress(), SIDE);
    assert!(!driver.observe(first.generation, SIDE));
    assert_eq!(driver.progress(), SIDE);
}

#[test]
fn progress_beyond_the_image_is_not_noted() {
    let (mut driver, first) = start();
    assert!(!driver.observe(first.generation, SIDE + 1));
    assert!(!driver.observe(first.generation, u32::MAX));
    assert_eq!(driver.progress(), 0);
    assert!(driver.observe(first.generation, SIDE));
    assert_eq!(driver.progress(), SIDE);
}

#[test]
fn progress_of_a_superseded_build_is_not_noted() {
    let (mut driver, first) = start();
    assert!(driver.observe(first.generation, 5));
    let second = request_of(driver.handle(InputEvent::Scroll { ticks: 1 }));
    assert_eq!(driver.progress(), 0);
    assert!(!driver.observe(first.generation, 6));
    assert_eq!(driver.progress(), 0);
    assert!(driver.observe(second.generation, 2));
    assert_eq!(driver.progress(), 2);
}

#[test]
fn quit_ends_the_session() {
    let (mut driver, _) = start();
    assert_eq!(driver.handle(InputEvent::Quit), Action::Quit);
    assert!(!driver.is_running());
    assert_eq!(driver.handle(InputEvent::Quit), Action::Idle);
    assert_eq!(driver.handle(InputEvent::Scroll { ticks: 1 }), Action::Idle);
    assert_eq!(driver.handle(InputEvent::ButtonPress), Action::Idle);
    assert!(!driver.is_pressed());
    assert_eq!(driver.viewport(), whole_set());
    assert_eq!(driver.generation(), 0);
}

#[test]
fn drag_pans_only_while_the_button_is_down() {
    let (mut driver, _) = start();
    assert_eq!(driver.handle(InputEvent::PointerMotion { dx: 2, dy: -1 }), Action::Idle);
    assert_eq!(driver.viewport(), whole_set());
    assert_eq!(driver.handle(InputEvent::ButtonPress), Action::Idle);
    assert!(driver.is_pressed());
    let request = request_of(driver.handle(InputEvent::PointerMotion { dx: 2, dy: -1 }));
    assert_eq!(request.generation, 1);
    assert_eq!(request.job.viewport, whole_set().panned(2, -1, size()));
    assert_eq!(driver.viewport().center_re(), -(1 << P));
    assert_eq!(driver.viewport().center_im(), 1 << (P - 1));
    assert_eq!(driver.handle(InputEvent::ButtonRelease), Action::Idle);
    assert!(!driver.is_pressed());
    assert_eq!(driver.handle(InputEvent::PointerMotion { dx: 2, dy: -1 }), Action::Idle);
    assert_eq!(driver.generation(), 1);
}

#[test]
fn motion_without_effect_starts_no_build() {
    let (mut driver, _) = start();
    driver.handle(InputEvent::ButtonPress);
    assert_eq!(driver.handle(InputEvent::PointerMotion { dx: 0, dy: 0 }), Action::Idle);
    assert_eq!(driver.handle(InputEvent::Scroll { ticks: 0 }), Action::Idle);
    assert_eq!(driver.generation(), 0);
}

#[test]
fn scroll_scales_the_width() {
    let (mut driver, _) = start();
    let out = request_of(driver.handle(InputEvent::Scroll { ticks: 1 }));
    assert_eq!(out.job.viewport, whole_set().zoomed(1));
    assert_eq!(out.job.viewport.width(), (4i64 << P) * 105 / 100);
    let back = request_of(driver.handle(InputEvent::Scroll { ticks: -1 }));
    assert_eq!(back.generation, 2);
    assert_eq!(back.job.viewport.width(), (4i64 << P) * 105 / 100 * 95 / 100);
    assert_eq!(driver.viewport(), back.job.viewport);
}

#[test]
fn selection_event_replaces_the_viewport() {
    let (mut driver, _) = start();
    let request =
        request_of(driver.handle(InputEvent::Select { x0: 2, y0: 2, x1: 5, y1: 4 }));
    let expected = whole_set().selected(size(), 2, 2, 5, 4).unwrap();
    assert_eq!(request.job.viewport, expected);
    assert_eq!(request.job.viewport.center_re(), 0);
    assert_eq!(request.job.viewport.center_im(), -(1 << (P - 2)));
    assert_eq!(request.job.viewport.width(), 3 << (P - 1));
    assert_eq!(driver.handle(InputEvent::Select { x0: 3, y0: 3, x1: 3, y1: 3 }), Action::Idle);
    assert_eq!(driver.handle(InputEvent::Select { x0: 0, y0: 0, x1: SIDE, y1: 1 }), Action::Idle);
    assert_eq!(driver.generation(), 1);
}

#[test]
fn deep_zoom_raises_the_precision() {
    let start_view = Viewport::new(0, 0, 4 << 20, 20).unwrap();
    let (mut driver, _) = Driver::new(start_view, size(), 50);
    let mut precision = driver.viewport().precision();
    for _ in 0..200 {
        driver.handle(InputEvent::Scroll { ticks: -3 });
        let now = driver.viewport().precision();
        assert!(now >= precision);
        precision = now;
    }
    assert_eq!(precision, 60);
    assert!(driver.viewport().width() >= 1);
}

#[test]
fn requests_carry_the_size_and_the_budget() {
    let (mut driver, first) = start();
    let second = request_of(driver.handle(InputEvent::Scroll { ticks: 5 }));
    assert_eq!(second.job.size, first.job.size);
    assert_eq!(second.job.max_iterations, first.job.max_iterations);
    assert_eq!(second.generation, first.generation + 1);
}
