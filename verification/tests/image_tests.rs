use ppekom::Color;
use ppekom::Pimage;

#[test]
fn new_fills_every_pixel() {
    let img = Pimage::new(3, 2, Color::new(5, 6, 7));
    assert_eq!(img.width(), 3);
    assert_eq!(img.height(), 2);
    for y in 0..2 {
        for x in 0..3 {
            assert_eq!(img.pixel(x, y), Color::new(5, 6, 7));
        }
    }
    assert_eq!(img.pixels().len(), 6);
}

#[test]
fn set_changes_exactly_one_pixel() {
    let mut img = Pimage::new(2, 2, Color::white());
    img.set(1, 0, Color::new(9, 9, 9));
    assert_eq!(img.pixel(1, 0), Color::new(9, 9, 9));
    assert_eq!(img.pixel(0, 0), Color::white());
    assert_eq!(img.pixel(0, 1), Color::white());
    assert_eq!(img.pixel(1, 1), Color::white());
}

#[test]
fn pixels_are_stored_row_major() {
    let mut img = Pimage::new(2, 2, Color::new(0, 0, 0));
    img.set(0, 0, Color::new(1, 0, 0));
    img.set(1, 0, Color::new(2, 0, 0));
    img.set(0, 1, Color::new(3, 0, 0));
    img.set(1, 1, Color::new(4, 0, 0));
    let flat: Vec<u8> = img.pixels().iter().map(|c| c.r).collect();
    assert_eq!(flat, vec![1, 2, 3, 4]);
}

#[test]
fn from_pixels_builds_the_same_grid() {
    let pixels = vec![Color::new(1, 2, 3), Color::new(4, 5, 6)];
    let img = Pimage::from_pixels(2, 1, pixels);
    assert_eq!(img.pixel(0, 0), Color::new(1, 2, 3));
    assert_eq!(img.pixel(1, 0), Color::new(4, 5, 6));
}

#[test]
fn grid_equality_compares_dimensions_and_pixels() {
    let a = Pimage::new(2, 3, Color::white());
    let b = Pimage::new(2, 3, Color::white());
    let c = Pimage::new(3, 2, Color::white());
    let mut d = Pimage::new(2, 3, Color::white());
    d.set(1, 2, Color::new(0, 0, 0));
    assert!(a == b);
    assert!(a != c);
    assert!(a != d);
}
