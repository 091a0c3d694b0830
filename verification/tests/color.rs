use raytracer::color::Color;

#[test]
fn serialise_writes_css_rgb() {
    assert_eq!(Color { r: 255, g: 0, b: 0 }.serialise(), "rgb(255,0,0)");
    assert_eq!(Color { r: 50, g: 50, b: 50 }.serialise(), "rgb(50,50,50)");
    assert_eq!(Color { r: 0, g: 7, b: 100 }.serialise(), "rgb(0,7,100)");
    assert_eq!(Color { r: 9, g: 10, b: 99 }.serialise(), "rgb(9,10,99)");
}

#[test]
fn serialise_matches_format() {
    for r in [0u8, 1, 9, 10, 99, 100, 199, 200, 254, 255] {
        for g in [0u8, 5, 55, 205] {
            let c = Color { r, g, b: r.wrapping_add(g) };
            assert_eq!(c.serialise(), format!("rgb({},{},{})", c.r, c.g, c.b));
        }
    }
}

#[test]
fn serialise_tells_colours_apart() {
    let a = Color { r: 1, g: 11, b: 0 };
    let b = Color { r: 11, g: 1, b: 0 };
    assert_ne!(a.serialise(), b.serialise());
}

#[test]
fn add_is_channel_wise() {
    let a = Color { r: 10, g: 20, b: 30 };
    let b = Color { r: 100, g: 200, b: 225 };
    assert_eq!(a.add(b), Color { r: 110, g: 220, b: 255 });
    assert_eq!(b.add(a), a.add(b));
}

#[test]
fn add_black_keeps_colour() {
    let a = Color { r: 255, g: 128, b: 3 };
    assert_eq!(a.add(Color { r: 0, g: 0, b: 0 }), a);
}

#[test]
fn add_is_associative() {
    let a = Color { r: 1, g: 2, b: 3 };
    let b = Color { r: 40, g: 50, b: 60 };
    let c = Color { r: 100, g: 100, b: 100 };
    assert_eq!(a.add(b).add(c), a.add(b.add(c)));
}
