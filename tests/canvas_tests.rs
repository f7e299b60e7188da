use raytracer::canvas::Canvas;

type Color = (f64, f64, f64);

#[test]
fn create_canvas() {
    let c: Canvas<Color> = Canvas::new(10, 20, (0.0, 0.0, 0.0));

    assert_eq!(c.width(), 10);
    assert_eq!(c.height(), 20);

    let default_color = (0.0, 0.0, 0.0);

    for x in 0..10 {
        for y in 0..20 {
            assert_eq!(c.pixel_at(x, y), default_color);
        }
    }
}

#[test]
fn write_pixel() {
    let mut c: Canvas<Color> = Canvas::new(10, 20, (0.0, 0.0, 0.0));
    let red = (1.0, 0.0, 0.0);

    c.write_pixel(2, 3, red);

    assert_eq!(c.pixel_at(2, 3), red);
    assert_eq!(c.pixel_at(3, 2), (0.0, 0.0, 0.0));
    assert_eq!(c.pixel_at(2, 4), (0.0, 0.0, 0.0));
}

#[test]
fn empty_canvas() {
    let c: Canvas<u8> = Canvas::new(0, 5, 0);

    assert_eq!(c.width(), 0);
    assert_eq!(c.height(), 5);
}
