use raytracer::screen::{Raster, Screen};

fn walk(screen: &Screen) -> Vec<(i32, i32)> {
    let mut raster = Raster::new(screen);
    let mut out = Vec::new();
    while let Some(p) = raster.next() {
        out.push(p);
    }
    assert_eq!(raster.next(), None);
    out
}

#[test]
fn raster_of_four_by_two() {
    let screen = Screen { width: 4, height: 2 };
    assert_eq!(
        walk(&screen),
        vec![(-2, -1), (-2, 0), (-1, -1), (-1, 0), (0, -1), (0, 0), (1, -1), (1, 0)]
    );
}

#[test]
fn raster_of_odd_size_drops_the_last_line() {
    let screen = Screen { width: 3, height: 3 };
    assert_eq!(walk(&screen), vec![(-1, -1), (-1, 0), (0, -1), (0, 0)]);
}

#[test]
fn raster_of_empty_screens() {
    assert!(walk(&Screen { width: 0, height: 10 }).is_empty());
    assert!(walk(&Screen { width: 10, height: 1 }).is_empty());
    assert!(walk(&Screen { width: -4, height: 4 }).is_empty());
    assert!(walk(&Screen { width: 4, height: -4 }).is_empty());
}

#[test]
fn raster_matches_nested_loops() {
    let screen = Screen { width: 7, height: 6 };
    let mut expected = Vec::new();
    for x in -screen.width / 2..screen.width / 2 {
        for y in -screen.height / 2..screen.height / 2 {
            expected.push((x, y));
        }
    }
    assert_eq!(walk(&screen), expected);
}

#[test]
fn canvas_position_centres_and_flips() {
    let screen = Screen { width: 640, height: 480 };
    assert_eq!(screen.canvas_position(0, 0), (320, 240));
    assert_eq!(screen.canvas_position(-320, -240), (0, 480));
    assert_eq!(screen.canvas_position(319, 239), (639, 1));
    let odd = Screen { width: -5, height: -5 };
    assert_eq!(odd.canvas_position(0, 0), (-2, -2));
}

#[test]
fn frame_lands_on_rows_one_to_height() {
    let screen = Screen { width: 4, height: 4 };
    let mut rows: Vec<i32> = walk(&screen).iter().map(|&(x, y)| screen.canvas_position(x, y).1).collect();
    rows.sort();
    rows.dedup();
    assert_eq!(rows, vec![1, 2, 3, 4]);
}
