use ray_tracer::canvas::{Canvas, Coordinate};

const COLS: usize = 20;
const ROWS: usize = 10;

type Color = (f64, f64, f64);

fn black() -> Color {
    (0.0, 0.0, 0.0)
}

#[test]
fn canvas_create() {
    let c = Canvas::new(COLS, ROWS, black());

    for row in 0..ROWS {
        for col in 0..COLS {
            assert!(c.read_pixel(col, row) == Some((0.0, 0.0, 0.0)));
        }
    }
}

#[test]
fn canvas_write_pixel() {
    let mut c = Canvas::new(COLS, ROWS, black());
    let red = (1.0, 0.0, 0.0);
    c.write_pixel(2, 3, red);
    assert!(c.read_pixel(2, 3) == Some((1.0, 0.0, 0.0)));
    assert!(c.read_pixel(2, 2) == Some((0.0, 0.0, 0.0)));
}

#[test]
fn canvas_write_ignore_if_pixel_outside() {
    let mut c = Canvas::new(COLS, ROWS, black());
    let red = (1.0, 0.0, 0.0);
    c.write_pixel(21, 3, red);
    c.write_pixel(2, 13, red);
    assert!(c.read_pixel(20, 3) == None);
    assert!(c.read_pixel(2, 13) == None);
}

#[test]
fn canvas_iterate_over_all_pixels() {
    let mut c = Canvas::new(COLS, ROWS, black());
    let red = (1.0, 0.0, 0.0);
    c.write_pixel(10, 3, red);
    c.write_pixel(2, 5, red);

    let mut cur = Coordinate::first(COLS, ROWS);
    for y in 0..ROWS {
        for x in 0..COLS {
            let here = match cur {
                Some(here) => here,
                None => panic!("traversal ended before ({}, {})", x, y),
            };
            assert_eq!((here.x, here.y), (x, y));
            let expected = if (x, y) == (10, 3) || (x, y) == (2, 5) { red } else { black() };
            assert_eq!(c.read_pixel(here.x, here.y), Some(expected));
            cur = here.next_row_major(COLS, ROWS);
        }
    }
    assert!(cur.is_none());
}

#[test]
fn coordinate_first_of_empty_grid_is_none() {
    assert!(Coordinate::first(0, 5).is_none());
    assert!(Coordinate::first(5, 0).is_none());
    assert_eq!(Coordinate::first(1, 1), Some(Coordinate { x: 0, y: 0 }));
}

#[test]
fn coordinate_traversal_is_row_major() {
    let mut seen: Vec<(usize, usize)> = Vec::new();
    let mut cur = Coordinate::first(3, 2);
    while let Some(c) = cur {
        seen.push((c.x, c.y));
        cur = c.next_row_major(3, 2);
    }
    assert_eq!(seen, vec![(0, 0), (1, 0), (2, 0), (0, 1), (1, 1), (2, 1)]);
}

#[test]
fn canvas_overwrites_pixel() {
    let mut c = Canvas::new(2, 2, 0u8);
    c.write_pixel(1, 1, 7u8);
    c.write_pixel(1, 1, 9u8);
    assert_eq!(c.read_pixel(1, 1), Some(9u8));
    assert_eq!(c.read_pixel(0, 0), Some(0u8));
}
