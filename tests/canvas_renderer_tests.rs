use raytracer::canvas::Canvas;
use raytracer::ppm::{clamp_channel_value, ppm_bytes, ScaledColor};

fn color(red: f64, green: f64, blue: f64) -> ScaledColor {
    let scale = |v: f64| (255.0 * v).round() as i64;
    ScaledColor { red: scale(red), green: scale(green), blue: scale(blue) }
}

/// The first line of a plain-text PPM file.
fn magic() -> String {
    format!("P{}", 1 + 2)
}

fn render(c: &Canvas<ScaledColor>) -> String {
    String::from_utf8(ppm_bytes(c)).unwrap()
}

#[test]
fn ppm_header() {
    let c = Canvas::new(5, 3, color(0.0, 0.0, 0.0));

    let string_output = render(&c);

    let want_header = format!("{}\n5 3\n255\n", magic());

    assert!(
        string_output.starts_with(&want_header),
        "Should start with:\n{}\n\nGot:\n{}",
        want_header,
        string_output
    );
}

#[test]
fn ppm_body() {
    let mut c = Canvas::new(5, 3, color(0.0, 0.0, 0.0));

    let c1 = color(1.5, 0.0, 0.0);
    let c2 = color(0.0, 0.5, 0.0);
    let c3 = color(-0.5, 0.0, 1.0);

    c.write_pixel(0, 0, c1);
    c.write_pixel(2, 1, c2);
    c.write_pixel(4, 2, c3);

    let want_pixels = "255 0 0 0 0 0 0 0 0 0 0 0 0 0 0
0 0 0 0 0 0 0 128 0 0 0 0 0 0 0
0 0 0 0 0 0 0 0 0 0 0 0 0 0 255";

    let string_output = render(&c);

    assert!(
        string_output.contains(want_pixels),
        "Should contain:\n{}\n\nGot:\n{}",
        want_pixels,
        string_output,
    );
}

#[test]
fn ppm_wrap_lines() {
    let mut canvas = Canvas::new(10, 2, color(0.0, 0.0, 0.0));
    let c = color(1.0, 0.8, 0.6);

    for x in 0..canvas.width() {
        for y in 0..canvas.height() {
            canvas.write_pixel(x, y, c);
        }
    }

    let want_pixels = "
255 204 153 255 204 153 255 204 153 255 204 153 255 204 153 255 204
153 255 204 153 255 204 153 255 204 153 255 204 153
255 204 153 255 204 153 255 204 153 255 204 153 255 204 153 255 204
153 255 204 153 255 204 153 255 204 153 255 204 153"
        .trim();

    let string_output = render(&canvas);

    assert!(
        string_output.contains(want_pixels),
        "Should contain:\n{}\n\nGot:\n{}",
        want_pixels,
        string_output
    );
}

#[test]
fn ppm_ends_with_newline() {
    let canvas = Canvas::new(5, 3, color(0.0, 0.0, 0.0));

    let string_output = render(&canvas);

    assert!(
        string_output.ends_with("\n"),
        "Output does not end with a newline."
    );
}

#[test]
fn ppm_whole_file() {
    let mut canvas = Canvas::new(2, 1, color(0.0, 0.0, 0.0));
    canvas.write_pixel(1, 0, ScaledColor { red: 12, green: 300, blue: -4 });

    assert_eq!(render(&canvas), format!("{}\n2 1\n255\n0 0 0 12 255 0\n", magic()));
}

#[test]
fn ppm_empty_image() {
    let canvas = Canvas::new(0, 0, color(0.0, 0.0, 0.0));

    assert_eq!(render(&canvas), format!("{}\n0 0\n255\n", magic()));
}

#[test]
fn clamp_limits_channels() {
    assert_eq!(clamp_channel_value(-1), 0);
    assert_eq!(clamp_channel_value(0), 0);
    assert_eq!(clamp_channel_value(128), 128);
    assert_eq!(clamp_channel_value(255), 255);
    assert_eq!(clamp_channel_value(383), 255);
}
