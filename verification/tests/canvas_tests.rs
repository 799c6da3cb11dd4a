use ruda::canvas::{Colors, Context, Pixel};

#[test]
fn pixels_of_colors() {
    assert_eq!(Pixel::from_color(Colors::Red), Pixel(255, 0, 0, 255));
    assert_eq!(Pixel::from_color(Colors::Gray), Pixel(128, 128, 128, 255));
    assert_eq!(Pixel::from_color(Colors::RGBA(1, 2, 3, 4)), Pixel(1, 2, 3, 4));
    assert_eq!(Pixel::from_color(Colors::Hue(30)), Pixel(0, 0, 0, 0));
    assert_eq!(Pixel::from_rgb(9, 8, 7), Pixel(9, 8, 7, 255));
}

#[test]
fn sizing_a_canvas() {
    let mut ctx = Context::new().view_port(150, 150).build();
    ctx.view_port(200, 100);
    assert_eq!(200, ctx.port.0);
    assert_eq!(ctx.back.len(), 200);
    assert!(ctx.back.iter().all(|c| c.len() == 100 && c.iter().all(|p| *p == Pixel(0, 0, 0, 255))));
    assert_eq!(ctx.front.len(), 200);
}

#[test]
fn clearing_and_reading_pixels() {
    let mut ctx = Context::new().view_port(3, 2).build();
    ctx.clear(Colors::Blue);
    assert_eq!(ctx.get_pixel(2, 1), Some(Pixel(0, 0, 255, 255)));
    assert_eq!(ctx.get_pixel(3, 0), None);
    assert_eq!(ctx.get_pixel(-1, 0), None);
    assert!(ctx.legal_pixel(1, 1));
    assert!(ctx.legal_pixel(0, 1));
    assert!(!ctx.legal_pixel(3, 1));
}

#[test]
fn pixels_within_the_view_port_are_legal() {
    let mut ctx = Context::new().view_port(150, 150).build();
    assert!(ctx.legal_pixel(0, 0));
    assert!(ctx.legal_pixel(149, 149));
    assert!(!ctx.legal_pixel(150, 0));
    assert!(!ctx.legal_pixel(-1, 5));
}

#[test]
fn setting_opaque_and_translucent_pixels() {
    let mut ctx = Context::new().view_port(2, 2).build();
    assert_eq!(ctx.set_pixel(0, 0, Pixel(9, 8, 7, 255)), None);
    assert_eq!(ctx.back[0][0], Pixel(9, 8, 7, 255));
    assert_eq!(ctx.set_pixel(1, 1, Pixel(9, 8, 7, 10)), Some(Pixel(0, 0, 0, 255)));
    assert_eq!(ctx.back[1][1], Pixel(0, 0, 0, 255));
    assert_eq!(ctx.set_pixel(2, 0, Pixel(9, 8, 7, 255)), None);
    ctx.put_pixel(1, 0, Pixel(1, 2, 3, 4));
    assert_eq!(ctx.back[1][0], Pixel(1, 2, 3, 4));
    ctx.put_pixel(-1, 0, Pixel(1, 2, 3, 4));
    assert_eq!(ctx.back[0][1], Pixel(0, 0, 0, 255));
}

#[test]
fn swapping_buffers() {
    let mut ctx = Context::new().view_port(1, 1).build();
    ctx.back[0][0] = Pixel(1, 1, 1, 255);
    ctx.swap();
    assert_eq!(ctx.front[0][0], Pixel(1, 1, 1, 255));
    assert_eq!(ctx.back[0][0], Pixel(0, 0, 0, 255));
    ctx.swap();
    assert_eq!(ctx.back[0][0], Pixel(1, 1, 1, 255));
}
