use physarum::field::{Config, Field};

fn shade(v: f64) -> u8 {
    (v * 128.0) as u8
}

#[test]
fn every_cell_becomes_one_opaque_grey_pixel() {
    let config = Config::new(2, 3, 0).unwrap();
    let mut field = Field::new(&config, 0.0f64);
    field.set(0, 1, 0.5);
    field.set(1, 2, 1.0);
    let pixels = field.rgba(&shade).unwrap();
    assert_eq!(
        pixels,
        vec![
            0, 0, 0, 255, 64, 64, 64, 255, 0, 0, 0, 255, 0, 0, 0, 255, 0, 0, 0, 255, 128, 128,
            128, 255,
        ]
    );
}

#[test]
fn shades_are_clamped_by_the_shade_function() {
    let config = Config::new(1, 3, 0).unwrap();
    let mut field = Field::new(&config, 0.0f64);
    field.set(0, 0, -1.0);
    field.set(0, 1, 100.0);
    field.set(0, 2, 1.999);
    let pixels = field.rgba(&shade).unwrap();
    assert_eq!(pixels, vec![0, 0, 0, 255, 255, 255, 255, 255, 255, 255, 255, 255]);
}

#[test]
fn buffer_has_four_bytes_per_cell() {
    let config = Config::new(512, 512, 0).unwrap();
    let field = Field::new(&config, 0.0f64);
    let pixels = field.rgba(&shade).unwrap();
    assert_eq!(pixels.len(), 512 * 512 * 4);
    assert!(pixels.chunks(4).all(|p| p == [0, 0, 0, 255]));
}
