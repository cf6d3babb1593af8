use jumpy::gradient::{ColorRamp, GradientPoint, Rgba};
use jumpy::noise_field::{combine, NoiseError, NoiseSettings, MAX_OCTAVES};
use jumpy::random::draw_seed;
use jumpy::texture::{bake, build_image, PixelFormat, TextureError, HEIGHT, WIDTH};
use rand::rngs::StdRng;
use rand::SeedableRng;

#[test]
fn four_by_four_background_is_64_opaque_bytes() {
    let fractal: Vec<i64> = (0..16).map(|i| -65536 + i * 8192).collect();
    let cellular: Vec<i64> = (0..16).map(|i| (i % 3) * 1000).collect();
    let buf = build_image(4, 4, &fractal, &cellular).unwrap();
    assert_eq!(buf.len(), 4 * 4 * 4);
    for p in 0..16 {
        assert_eq!(buf[p * 4 + 3], 255);
    }
}

#[test]
fn background_pixels_follow_the_ramp_row_by_row() {
    // 3 columns, 2 rows.
    let fractal = vec![-65536, -61440, 0, 8192, 65536, 40000];
    let cellular = vec![0, 0, 0, 0, 0, 30000];
    let buf = build_image(3, 2, &fractal, &cellular).unwrap();
    let ramp = ColorRamp::nebula();
    assert_eq!(buf.len(), 24);
    assert_eq!(&buf[0..4], &[5, 0, 15, 255]);
    assert_eq!(&buf[4..8], &[18, 0, 30, 255]);
    assert_eq!(&buf[8..12], &[60, 20, 92, 255]);
    // Row 1 starts at byte (1 * 3 + 0) * 4.
    assert_eq!(&buf[12..16], &[67, 10, 111, 255]);
    assert_eq!(&buf[16..20], &[255, 255, 255, 255]);
    // 40000 + 30000 is above the last key.
    assert_eq!(&buf[20..24], &[255, 255, 255, 255]);
    for (p, (f, c)) in fractal.iter().zip(&cellular).enumerate() {
        let color = ramp.color_at(combine(*f, *c));
        assert_eq!(&buf[p * 4..p * 4 + 4], &[color.r, color.g, color.b, color.a]);
    }
}

#[test]
fn bake_orders_channels_by_format() {
    let ramp = ColorRamp::from_points(vec![
        GradientPoint { key: 0, color: Rgba { r: 10, g: 20, b: 30, a: 40 } },
        GradientPoint { key: 10, color: Rgba { r: 110, g: 120, b: 130, a: 140 } },
    ])
    .unwrap();
    let samples = vec![0, 5, 10, -3];
    let rgba = bake(2, 2, &samples, &ramp, PixelFormat::Rgba).unwrap();
    assert_eq!(
        rgba,
        vec![10, 20, 30, 40, 60, 70, 80, 90, 110, 120, 130, 140, 10, 20, 30, 40]
    );
    let bgra = bake(2, 2, &samples, &ramp, PixelFormat::Bgra).unwrap();
    assert_eq!(
        bgra,
        vec![30, 20, 10, 40, 80, 70, 60, 90, 130, 120, 110, 140, 30, 20, 10, 40]
    );
    let wide = bake(4, 1, &samples, &ramp, PixelFormat::Rgba).unwrap();
    assert_eq!(wide, rgba);
}

#[test]
fn bake_rejects_bad_sizes() {
    let ramp = ColorRamp::nebula();
    let four = vec![0i64; 4];
    assert_eq!(bake(0, 4, &four, &ramp, PixelFormat::Rgba), Err(TextureError::ZeroSize));
    assert_eq!(bake(4, 0, &four, &ramp, PixelFormat::Rgba), Err(TextureError::ZeroSize));
    assert_eq!(bake(0, 0, &vec![], &ramp, PixelFormat::Rgba), Err(TextureError::ZeroSize));
    assert_eq!(bake(2, 3, &four, &ramp, PixelFormat::Rgba), Err(TextureError::SampleCount));
    assert_eq!(bake(1, 3, &four, &ramp, PixelFormat::Rgba), Err(TextureError::SampleCount));
    assert_eq!(
        bake(u32::MAX, u32::MAX, &four, &ramp, PixelFormat::Rgba),
        Err(TextureError::TooLarge)
    );
    assert!(bake(2, 2, &four, &ramp, PixelFormat::Rgba).is_ok());
}

#[test]
fn build_image_rejects_bad_sizes() {
    let four = vec![0i64; 4];
    let three = vec![0i64; 3];
    assert_eq!(build_image(0, 2, &four, &four), Err(TextureError::ZeroSize));
    assert_eq!(build_image(2, 0, &four, &three), Err(TextureError::ZeroSize));
    assert_eq!(build_image(2, 2, &three, &three), Err(TextureError::SampleCount));
    assert_eq!(build_image(2, 2, &four, &three), Err(TextureError::SampleCount));
    assert_eq!(build_image(u32::MAX, u32::MAX, &four, &four), Err(TextureError::TooLarge));
    assert!(build_image(2, 2, &four, &four).is_ok());
}

#[test]
fn background_is_six_square_faces() {
    assert_eq!(WIDTH, 1000);
    assert_eq!(HEIGHT, 6 * WIDTH);
}

#[test]
fn combine_adds_and_saturates() {
    assert_eq!(combine(100, -30), 70);
    assert_eq!(combine(i64::MAX, 1), i64::MAX);
    assert_eq!(combine(i64::MIN, -1), i64::MIN);
    assert_eq!(combine(i64::MIN, i64::MAX), -1);
}

#[test]
fn nebula_settings_use_two_seeds() {
    let s = NoiseSettings::nebula(42).unwrap();
    assert_eq!(s.fractal_seed(), 42);
    assert_eq!(s.cell_seed(), 43);
    assert_eq!(s.octaves, 5);
    assert_eq!(s.frequency, 2 * 65536);
    assert_eq!(s.lacunarity, 3 * 65536);
    assert_eq!(s.persistence as f64, (0.6f64 * 65536.0).round());
    assert_eq!(s.cell_frequency, 65536);
    assert_eq!(s.validate(), Ok(()));
    assert_eq!(NoiseSettings::nebula(u32::MAX), Err(NoiseError::SeedTooLarge));
    assert_eq!(NoiseSettings::nebula(u32::MAX - 1).unwrap().cell_seed(), u32::MAX);
}

#[test]
fn settings_are_validated_in_order() {
    let good = NoiseSettings::nebula(7).unwrap();
    assert_eq!(NoiseSettings { octaves: 0, ..good }.validate(), Err(NoiseError::NoOctaves));
    assert_eq!(
        NoiseSettings { octaves: MAX_OCTAVES + 1, ..good }.validate(),
        Err(NoiseError::TooManyOctaves)
    );
    assert_eq!(NoiseSettings { octaves: MAX_OCTAVES, ..good }.validate(), Ok(()));
    assert_eq!(NoiseSettings { frequency: 0, ..good }.validate(), Err(NoiseError::NotPositive));
    assert_eq!(NoiseSettings { persistence: -1, ..good }.validate(), Err(NoiseError::NotPositive));
    assert_eq!(NoiseSettings { lacunarity: 0, ..good }.validate(), Err(NoiseError::NotPositive));
    assert_eq!(
        NoiseSettings { cell_frequency: 0, ..good }.validate(),
        Err(NoiseError::NotPositive)
    );
    assert_eq!(
        NoiseSettings { seed: u32::MAX, octaves: 0, frequency: 0, ..good }.validate(),
        Err(NoiseError::SeedTooLarge)
    );
    assert_eq!(
        NoiseSettings { octaves: 0, frequency: 0, ..good }.validate(),
        Err(NoiseError::NoOctaves)
    );
}

#[test]
fn drawn_seeds_have_a_successor() {
    let mut rng = StdRng::seed_from_u64(1);
    let mut seen = std::collections::HashSet::new();
    for _ in 0..200 {
        let seed = draw_seed(&mut rng);
        assert!(seed < u32::MAX);
        assert!(NoiseSettings::nebula(seed).is_ok());
        seen.insert(seed);
    }
    assert!(seen.len() > 100);
}
