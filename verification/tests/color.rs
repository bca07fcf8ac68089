use raycast::color::{background, Color, DERIVED_ALPHA};
use raycast::error::RenderError;
use raycast::scalar::Scalar;

fn fx(v: f64) -> Scalar {
    Scalar::new((v * 1_000_000.0).round() as i64)
}

#[test]
#[should_panic]
fn test_invalid_over() {
    let _color = Color::new(fx(2.0), fx(2.0), fx(2.0), fx(2.0)).unwrap();
}

#[test]
#[should_panic]
fn test_invalid_under() {
    let _color = Color::new(fx(-0.1), fx(-0.1), fx(-0.1), fx(-0.1)).unwrap();
}

#[test]
fn test_valid() {
    let (r, g, b, a) = (fx(0.0), fx(0.1), fx(0.9), fx(1.0));
    let color = Color::new(r, g, b, a).unwrap();

    assert_eq!(color.r, r);
    assert_eq!(color.g, g);
    assert_eq!(color.b, b);
    assert_eq!(color.a, a);
}

#[test]
fn new_reports_a_channel_out_of_range() {
    let ok = fx(0.5);
    assert_eq!(Color::new(fx(2.0), fx(2.0), fx(2.0), fx(2.0)), Err(RenderError::ChannelOutOfRange));
    assert_eq!(Color::new(Scalar::new(1_000_001), ok, ok, ok), Err(RenderError::ChannelOutOfRange));
    assert_eq!(Color::new(ok, Scalar::new(-1), ok, ok), Err(RenderError::ChannelOutOfRange));
    assert_eq!(Color::new(ok, ok, fx(1.5), ok), Err(RenderError::ChannelOutOfRange));
    assert_eq!(Color::new(ok, ok, ok, fx(-0.1)), Err(RenderError::ChannelOutOfRange));
}

#[test]
fn new_accepts_the_ends_of_the_range() {
    let c = Color::new(fx(0.0), fx(1.0), fx(0.0), fx(1.0)).unwrap();
    assert_eq!(c, Color { r: fx(0.0), g: fx(1.0), b: fx(0.0), a: fx(1.0) });
}

#[test]
fn clamp_caps_the_channels_and_fixes_alpha() {
    let c = Color { r: fx(1.5), g: fx(-0.25), b: fx(0.75), a: fx(0.9) };
    assert_eq!(c.clamp(), Color { r: fx(1.0), g: fx(0.0), b: fx(0.75), a: fx(0.5) });
    assert_eq!(DERIVED_ALPHA, 500_000);
}

#[test]
fn colours_multiply_channel_by_channel() {
    let a = Color { r: fx(0.5), g: fx(1.0), b: fx(0.25), a: fx(1.0) };
    let b = Color { r: fx(0.5), g: fx(0.2), b: fx(0.0), a: fx(1.0) };
    assert_eq!(a * b, Color { r: fx(0.25), g: fx(0.2), b: fx(0.0), a: fx(0.5) });
    let tiny = Color { r: Scalar::new(1), g: Scalar::new(3), b: Scalar::new(0), a: fx(0.0) };
    assert_eq!(tiny * a, Color { r: Scalar::new(0), g: Scalar::new(3), b: Scalar::new(0), a: fx(0.5) });
}

#[test]
fn a_colour_times_a_number_may_leave_the_range() {
    let a = Color { r: fx(0.5), g: fx(1.0), b: fx(0.25), a: fx(1.0) };
    assert_eq!(a * fx(3.0), Color { r: fx(1.5), g: fx(3.0), b: fx(0.75), a: fx(0.5) });
    assert_eq!(a * fx(-1.0), Color { r: fx(-0.5), g: fx(-1.0), b: fx(-0.25), a: fx(0.5) });
}

#[test]
fn to_rgba_quantizes_and_is_opaque() {
    let c = Color { r: fx(1.0), g: fx(0.5), b: fx(0.0), a: fx(0.25) };
    assert_eq!(c.to_rgba().0, [255, 127, 0, 255]);
    let d = Color { r: fx(0.999), g: fx(0.1), b: fx(0.9), a: fx(1.0) };
    assert_eq!(d.to_rgba().0, [254, 25, 229, 255]);
}

#[test]
fn to_rgba_saturates_outside_the_range() {
    let c = Color { r: fx(7.0), g: fx(-3.0), b: Scalar::new(i64::MAX), a: fx(0.0) };
    assert_eq!(c.to_rgba().0, [255, 0, 255, 255]);
    let d = Color { r: Scalar::new(i64::MIN), g: Scalar::new(-1), b: Scalar::new(3_921), a: fx(0.0) };
    assert_eq!(d.to_rgba().0, [0, 0, 0, 255]);
    let e = Color { r: Scalar::new(3_922), g: fx(0.0), b: fx(0.0), a: fx(0.0) };
    assert_eq!(e.to_rgba().0, [1, 0, 0, 255]);
}

#[test]
fn background_is_transparent_black() {
    assert_eq!(background().0, [0, 0, 0, 0]);
}
