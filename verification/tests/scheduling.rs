use path_tracer::renderer::Rgb;
use path_tracer::scheduler::{Canvas, RowCounter};

fn shade(level: u8) -> Rgb {
    Rgb { red: level, green: level, blue: level }
}

#[test]
fn fresh_counter_hands_out_rows_in_order_and_then_nothing() {
    let mut counter = RowCounter::new(3);
    assert!(!counter.is_exhausted());
    assert_eq!(counter.claim(), Some(0));
    assert_eq!(counter.claim(), Some(1));
    assert_eq!(counter.claim(), Some(2));
    assert!(counter.is_exhausted());
    assert_eq!(counter.claim(), None);
    assert_eq!(counter.claim(), None);
    assert_eq!(counter, RowCounter { next_row: 3, height: 3 });
}

#[test]
fn counter_for_no_rows_is_exhausted_at_once() {
    let mut counter = RowCounter::new(0);
    assert!(counter.is_exhausted());
    assert_eq!(counter.claim(), None);
}

#[test]
fn counter_at_the_largest_height_does_not_overflow() {
    let mut counter = RowCounter { next_row: u32::MAX - 1, height: u32::MAX };
    assert_eq!(counter.claim(), Some(u32::MAX - 1));
    assert_eq!(counter.claim(), None);
}

#[test]
fn workers_claim_every_row_exactly_once() {
    let height: u32 = 1080;
    for workers in 1..=16usize {
        let mut counter = RowCounter::new(height);
        let mut claimed: Vec<Vec<u32>> = vec![Vec::new(); workers];
        let mut running = vec![true; workers];
        let mut state: u64 = workers as u64;
        // Workers take turns in a scrambled order until each has seen the end.
        while running.iter().any(|r| *r) {
            state = state.wrapping_mul(6364136223846793005).wrapping_add(1442695040888963407);
            let worker = ((state >> 33) % workers as u64) as usize;
            if !running[worker] {
                continue;
            }
            match counter.claim() {
                Some(row) => claimed[worker].push(row),
                None => running[worker] = false,
            }
        }
        let mut all: Vec<u32> = claimed.concat();
        all.sort();
        assert_eq!(all, (0..height).collect::<Vec<u32>>());
        for rows in claimed {
            assert!(rows.windows(2).all(|pair| pair[0] < pair[1]));
        }
    }
}

#[test]
fn fresh_canvas_is_black() {
    let canvas = Canvas::new(4, 3);
    assert_eq!((canvas.width, canvas.height, canvas.rows_placed), (4, 3, 0));
    assert!(!canvas.is_complete());
    for y in 0..3 {
        for x in 0..4 {
            assert_eq!(canvas.pixel(x, y), shade(0));
        }
    }
}

#[test]
fn rows_land_at_their_index_whatever_the_order() {
    let mut canvas = Canvas::new(2, 3);
    assert!(!canvas.place_row(2, vec![shade(20), shade(21)]));
    assert!(!canvas.place_row(0, vec![shade(0), shade(1)]));
    assert!(!canvas.is_complete());
    assert!(canvas.place_row(1, vec![shade(10), shade(11)]));
    assert!(canvas.is_complete());
    let mut other = Canvas::new(2, 3);
    other.place_row(1, vec![shade(10), shade(11)]);
    other.place_row(0, vec![shade(0), shade(1)]);
    other.place_row(2, vec![shade(20), shade(21)]);
    for y in 0..3u32 {
        for x in 0..2u32 {
            assert_eq!(canvas.pixel(x, y), shade((10 * y + x) as u8));
            assert_eq!(other.pixel(x, y), canvas.pixel(x, y));
        }
    }
}

#[test]
fn canvas_without_rows_is_complete() {
    assert!(Canvas::new(5, 0).is_complete());
}
