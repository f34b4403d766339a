use image::{DynamicImage, GrayImage, Luma, Rgb, RgbImage};
use palette::color_difference::ImprovedCiede2000;
use palette::{IntoColor, Srgb};
use recolor::{
    apply_color_mapping_and_dithering, apply_spatial_averaging_and_luminance_transfer, colorize,
    memoized_find_closest_color, AppConfig, Collaborators, ColorizeError, Lab, Pass, PixelBuffer,
    ProgressEvent, Rgb8, SharedColorCache,
};
use std::sync::atomic::{AtomicUsize, Ordering};
use std::sync::Mutex;

fn numbers(c: Lab) -> palette::Lab {
    palette::Lab::new(f32::from_bits(c.l), f32::from_bits(c.a), f32::from_bits(c.b))
}

fn bits(c: palette::Lab) -> Lab {
    Lab::new(c.l.to_bits(), c.a.to_bits(), c.b.to_bits())
}

fn lab_of_pixel(pixel: Rgb8) -> palette::Lab {
    let rgb: Srgb = Srgb::new(pixel.red, pixel.green, pixel.blue).into_format();
    rgb.into_color()
}

fn dither(current: Lab, target: Lab, amount: u32) -> Lab {
    let (current, target, amount) = (numbers(current), numbers(target), f32::from_bits(amount));
    bits(palette::Lab::new(
        current.l + (target.l - current.l) * amount,
        current.a + (target.a - current.a) * amount,
        current.b + (target.b - current.b) * amount,
    ))
}

fn show(color: Lab) -> Rgb8 {
    let rgb: Srgb = numbers(color).into_color();
    let rgb: Srgb<u8> = rgb.into_format();
    Rgb8::new(rgb.red, rgb.green, rgb.blue)
}

struct Table {
    width: usize,
    sums: Vec<[f64; 2]>,
}

fn integrate(image: &PixelBuffer) -> Table {
    let (width, height) = image.dimensions();
    let (width, height) = (width as usize, height as usize);
    let mut sums = vec![[0.0f64; 2]; (width + 1) * (height + 1)];
    for y in 0..height {
        for x in 0..width {
            let lab = lab_of_pixel(image.get_pixel(x as u32, y as u32));
            let own = [lab.a as f64, lab.b as f64];
            for c in 0..2 {
                sums[(y + 1) * (width + 1) + x + 1][c] = own[c] + sums[y * (width + 1) + x + 1][c]
                    + sums[(y + 1) * (width + 1) + x][c]
                    - sums[y * (width + 1) + x][c];
            }
        }
    }
    Table { width, sums }
}

fn average(x: u32, y: u32, width: u32, height: u32, radius: u32, table: &Table) -> Lab {
    let left = x.saturating_sub(radius) as usize;
    let top = y.saturating_sub(radius) as usize;
    let right = (x.saturating_add(radius).min(width - 1) + 1) as usize;
    let bottom = (y.saturating_add(radius).min(height - 1) + 1) as usize;
    let area = ((right - left) * (bottom - top)) as f64;
    let row = table.width + 1;
    let mut mean = [0.0f32; 2];
    for c in 0..2 {
        let sum = table.sums[bottom * row + right][c] - table.sums[top * row + right][c]
            - table.sums[bottom * row + left][c]
            + table.sums[top * row + left][c];
        mean[c] = (sum / area) as f32;
    }
    bits(palette::Lab::new(0.0, mean[0], mean[1]))
}

fn blend(recolored: Rgb8, source: Rgb8, factor: u32) -> Rgb8 {
    let factor = f32::from_bits(factor);
    let channel = |c1: u8, c2: u8| {
        (c1 as f32 * factor + c2 as f32 * (1.0 - factor)).round().clamp(0.0, 255.0) as u8
    };
    Rgb8::new(
        channel(recolored.red, source.red),
        channel(recolored.green, source.green),
        channel(recolored.blue, source.blue),
    )
}

fn keep_recolored(recolored: Rgb8, _source: Rgb8, _factor: u32) -> Rgb8 {
    recolored
}

fn silent(_event: ProgressEvent) {}

fn red_and_blue() -> Vec<Lab> {
    vec![bits(lab_of_pixel(Rgb8::new(255, 0, 0))), bits(lab_of_pixel(Rgb8::new(0, 0, 255)))]
}

fn config(colors: Vec<Lab>, dither_amount: f32, radius: u32, blend_factor: f32) -> AppConfig {
    AppConfig {
        colors,
        dither_amount: dither_amount.to_bits(),
        spatial_averaging_radius: radius,
        blend_factor: blend_factor.to_bits(),
    }
}

fn sample_image(width: u32, height: u32) -> DynamicImage {
    DynamicImage::ImageRgb8(RgbImage::from_fn(width, height, |x, y| {
        Rgb([(x * 37 + y * 11) as u8, (x * 5 + y * 53) as u8, (255 - (x * 17 + y * 29) % 256) as u8])
    }))
}

fn pixels_of(buffer: &PixelBuffer) -> Vec<Rgb8> {
    let (width, height) = buffer.dimensions();
    let mut pixels = Vec::new();
    for y in 0..height {
        for x in 0..width {
            pixels.push(buffer.get_pixel(x, y));
        }
    }
    pixels
}

fn source_pixels(img: &DynamicImage) -> Vec<Rgb8> {
    let rgb = img.to_rgb8();
    rgb.pixels().map(|p| Rgb8::new(p.0[0], p.0[1], p.0[2])).collect()
}

fn hue(color: palette::Lab) -> f32 {
    color.b.atan2(color.a).to_degrees()
}

#[test]
fn two_by_two_image_takes_the_hue_of_the_nearer_color() {
    let sources = [[250u8, 20, 20], [20, 20, 250], [200, 60, 50], [60, 50, 200]];
    let img = DynamicImage::ImageRgb8(RgbImage::from_fn(2, 2, |x, y| {
        Rgb(sources[(y * 2 + x) as usize])
    }));
    let colors = red_and_blue();
    let kernels = Collaborators {
        apply_dithering: dither,
        lab_to_image_rgb: show,
        compute_integral_image: integrate,
        fast_spatial_color_average: average,
        blend_colors: blend,
        report: silent,
    };
    let output = colorize(&img, &config(colors.clone(), 0.0, 0, 1.0), &kernels).unwrap();
    assert_eq!(output.dimensions(), (2, 2));
    for (i, source) in sources.iter().enumerate() {
        let own = lab_of_pixel(Rgb8::new(source[0], source[1], source[2]));
        let to_red = own.improved_difference(numbers(colors[0]));
        let to_blue = own.improved_difference(numbers(colors[1]));
        let nearer = if to_blue < to_red { numbers(colors[1]) } else { numbers(colors[0]) };
        let result = lab_of_pixel(output.get_pixel(i as u32 % 2, i as u32 / 2));
        assert!((hue(result) - hue(nearer)).abs() < 2.0, "hue of pixel {i}");
        assert!((result.l - own.l).abs() < 1.5, "lightness of pixel {i}");
    }
    assert!(hue(lab_of_pixel(output.get_pixel(0, 0))) > 0.0);
    assert!(hue(lab_of_pixel(output.get_pixel(1, 0))) < 0.0);
    assert!(hue(lab_of_pixel(output.get_pixel(0, 1))) > 0.0);
    assert!(hue(lab_of_pixel(output.get_pixel(1, 1))) < 0.0);
}

#[test]
fn single_pixel_with_a_palette_of_one_color() {
    let entry = palette::Lab::new(60.0, 30.0, -20.0);
    let kernels = Collaborators {
        apply_dithering: dither,
        lab_to_image_rgb: show,
        compute_integral_image: integrate,
        fast_spatial_color_average: average,
        blend_colors: blend,
        report: silent,
    };
    let settings = config(vec![bits(entry)], 0.0, 0, 1.0);
    for source in [[0u8, 0, 0], [255, 255, 255], [255, 0, 0], [12, 200, 90], [128, 128, 128]] {
        let img = DynamicImage::ImageRgb8(RgbImage::from_pixel(1, 1, Rgb(source)));
        let own = lab_of_pixel(Rgb8::new(source[0], source[1], source[2]));
        let expected = show(bits(palette::Lab::new(own.l, entry.a, entry.b)));
        let first = apply_color_mapping_and_dithering(&img, &settings, &kernels).unwrap();
        assert_eq!(first.dimensions(), (1, 1));
        assert_eq!(first.get_pixel(0, 0), expected);
        let output = colorize(&img, &settings, &kernels).unwrap();
        assert_eq!(output.dimensions(), (1, 1));
        let smoothed = lab_of_pixel(expected);
        let shown = show(bits(palette::Lab::new(own.l, smoothed.a, smoothed.b)));
        let result = output.get_pixel(0, 0);
        assert!((result.red as i32 - shown.red as i32).abs() <= 1);
        assert!((result.green as i32 - shown.green as i32).abs() <= 1);
        assert!((result.blue as i32 - shown.blue as i32).abs() <= 1);
    }
}

#[test]
fn colorize_twice_gives_the_same_bytes() {
    let img = sample_image(9, 7);
    let kernels = Collaborators {
        apply_dithering: dither,
        lab_to_image_rgb: show,
        compute_integral_image: integrate,
        fast_spatial_color_average: average,
        blend_colors: blend,
        report: silent,
    };
    let settings = config(red_and_blue(), 0.0, 2, 0.75);
    let one = colorize(&img, &settings, &kernels).unwrap();
    let other = colorize(&img, &settings, &kernels).unwrap();
    assert_eq!(one.dimensions(), other.dimensions());
    assert_eq!(pixels_of(&one), pixels_of(&other));
    assert_ne!(pixels_of(&one), source_pixels(&img));
}

#[test]
fn blend_factor_zero_gives_the_source_image() {
    let img = sample_image(6, 5);
    let kernels = Collaborators {
        apply_dithering: dither,
        lab_to_image_rgb: show,
        compute_integral_image: integrate,
        fast_spatial_color_average: average,
        blend_colors: blend,
        report: silent,
    };
    let output = colorize(&img, &config(red_and_blue(), 0.0, 1, 0.0), &kernels).unwrap();
    assert_eq!(output.dimensions(), (6, 5));
    assert_eq!(pixels_of(&output), source_pixels(&img));
}

#[test]
fn blend_factor_one_gives_the_recolored_image() {
    let img = sample_image(6, 5);
    let blending = Collaborators {
        apply_dithering: dither,
        lab_to_image_rgb: show,
        compute_integral_image: integrate,
        fast_spatial_color_average: average,
        blend_colors: blend,
        report: silent,
    };
    let unblended = Collaborators {
        apply_dithering: dither,
        lab_to_image_rgb: show,
        compute_integral_image: integrate,
        fast_spatial_color_average: average,
        blend_colors: keep_recolored,
        report: silent,
    };
    let settings = config(red_and_blue(), 0.0, 1, 1.0);
    let blended = colorize(&img, &settings, &blending).unwrap();
    let recolored = colorize(&img, &settings, &unblended).unwrap();
    assert_eq!(pixels_of(&blended), pixels_of(&recolored));
}

#[test]
fn radius_zero_keeps_the_chroma_of_the_first_pass() {
    let img = sample_image(5, 4);
    let kernels = Collaborators {
        apply_dithering: dither,
        lab_to_image_rgb: show,
        compute_integral_image: integrate,
        fast_spatial_color_average: average,
        blend_colors: keep_recolored,
        report: silent,
    };
    let settings = config(red_and_blue(), 0.0, 0, 1.0);
    let first = apply_color_mapping_and_dithering(&img, &settings, &kernels).unwrap();
    let table = integrate(&first);
    let second =
        apply_spatial_averaging_and_luminance_transfer(&img, &first, &settings, &kernels).unwrap();
    let sources = source_pixels(&img);
    for y in 0..4u32 {
        for x in 0..5u32 {
            let own = lab_of_pixel(first.get_pixel(x, y));
            let averaged = numbers(average(x, y, 5, 4, 0, &table));
            assert!((averaged.a - own.a).abs() < 1.0e-3);
            assert!((averaged.b - own.b).abs() < 1.0e-3);
            let source = lab_of_pixel(sources[(y * 5 + x) as usize]);
            let expected = show(bits(palette::Lab::new(source.l, averaged.a, averaged.b)));
            assert_eq!(second.get_pixel(x, y), expected);
        }
    }
}

#[test]
fn empty_palette_is_rejected_before_any_pass() {
    let img = sample_image(3, 3);
    let calls = AtomicUsize::new(0);
    let kernels = Collaborators {
        apply_dithering: dither,
        lab_to_image_rgb: show,
        compute_integral_image: integrate,
        fast_spatial_color_average: average,
        blend_colors: blend,
        report: |_event: ProgressEvent| {
            calls.fetch_add(1, Ordering::Relaxed);
        },
    };
    let result = colorize(&img, &config(Vec::new(), 0.0, 1, 1.0), &kernels);
    assert_eq!(result.err(), Some(ColorizeError::EmptyPalette));
    assert_eq!(calls.load(Ordering::Relaxed), 0);
}

#[test]
fn color_that_is_not_a_number_fails_the_run() {
    let img = sample_image(3, 3);
    let kernels = Collaborators {
        apply_dithering: dither,
        lab_to_image_rgb: show,
        compute_integral_image: integrate,
        fast_spatial_color_average: average,
        blend_colors: blend,
        report: silent,
    };
    let mut colors = red_and_blue();
    colors.push(bits(palette::Lab::new(f32::NAN, 0.0, 0.0)));
    let result = colorize(&img, &config(colors.clone(), 0.0, 1, 1.0), &kernels);
    assert_eq!(result.err(), Some(ColorizeError::UnorderedDifferences));
    let result = apply_color_mapping_and_dithering(&img, &config(colors, 0.0, 1, 1.0), &kernels);
    assert_eq!(result.err(), Some(ColorizeError::UnorderedDifferences));
}

fn code_of(color: Lab) -> Rgb8 {
    Rgb8::new((color.l % 251) as u8, (color.a % 251) as u8, (color.b % 251) as u8)
}

#[test]
fn first_pass_writes_every_pixel_from_its_source() {
    let img = sample_image(7, 5);
    let colors = vec![
        bits(palette::Lab::new(50.0, 60.0, 40.0)),
        bits(palette::Lab::new(50.0, -60.0, 40.0)),
        bits(palette::Lab::new(50.0, 0.0, -70.0)),
        bits(palette::Lab::new(50.0, 0.0, 0.0)),
    ];
    let kernels = Collaborators {
        apply_dithering: |current: Lab, target: Lab, amount: u32| {
            assert_eq!(current, target);
            Lab::new(current.l, current.a, current.b ^ amount)
        },
        lab_to_image_rgb: code_of,
        compute_integral_image: integrate,
        fast_spatial_color_average: average,
        blend_colors: blend,
        report: silent,
    };
    let settings =
        AppConfig { colors, dither_amount: 0x55, spatial_averaging_radius: 0, blend_factor: 0 };
    let first = apply_color_mapping_and_dithering(&img, &settings, &kernels).unwrap();
    assert_eq!(first.dimensions(), (7, 5));
    let sources = source_pixels(&img);
    let mut chromas = std::collections::HashSet::new();
    for y in 0..5u32 {
        for x in 0..7u32 {
            let source = sources[(y * 7 + x) as usize];
            let cache = SharedColorCache::new(&settings.colors);
            let mapped = memoized_find_closest_color(&cache, source, &settings.colors).unwrap();
            assert_eq!(mapped.l, lab_of_pixel(source).l.to_bits());
            chromas.insert((mapped.a, mapped.b));
            let expected = code_of(Lab::new(mapped.l, mapped.a, mapped.b ^ 0x55));
            assert_eq!(first.get_pixel(x, y), expected);
        }
    }
    assert!(chromas.len() > 1);
}

#[test]
fn second_pass_asks_for_the_average_at_every_position() {
    let img = sample_image(6, 4);
    let first = PixelBuffer::new(6, 4).unwrap();
    let asked = Mutex::new(Vec::new());
    let kernels = Collaborators {
        apply_dithering: dither,
        lab_to_image_rgb: |color: Lab| Rgb8::new(color.a as u8, color.b as u8, (color.l >> 24) as u8),
        compute_integral_image: |_image: &PixelBuffer| 4242u32,
        fast_spatial_color_average: |x: u32, y: u32, width: u32, height: u32, radius: u32, table: &u32| {
            asked.lock().unwrap().push((x, y));
            assert_eq!((width, height, radius, *table), (6, 4, 3, 4242));
            Lab::new(0xdead_beef, x, y)
        },
        blend_colors: |recolored: Rgb8, source: Rgb8, factor: u32| {
            assert_eq!(factor, 77);
            Rgb8::new(recolored.red, recolored.green, recolored.blue ^ source.red)
        },
        report: silent,
    };
    let settings = AppConfig {
        colors: red_and_blue(),
        dither_amount: 0,
        spatial_averaging_radius: 3,
        blend_factor: 77,
    };
    let second =
        apply_spatial_averaging_and_luminance_transfer(&img, &first, &settings, &kernels).unwrap();
    assert_eq!(second.dimensions(), (6, 4));
    let sources = source_pixels(&img);
    for y in 0..4u32 {
        for x in 0..6u32 {
            let source = sources[(y * 6 + x) as usize];
            let lightness = lab_of_pixel(source).l.to_bits();
            let expected = Rgb8::new(x as u8, y as u8, (lightness >> 24) as u8 ^ source.red);
            assert_eq!(second.get_pixel(x, y), expected);
        }
    }
    let mut asked = asked.into_inner().unwrap();
    asked.sort();
    let mut all = Vec::new();
    for x in 0..6u32 {
        for y in 0..4u32 {
            all.push((x, y));
        }
    }
    assert_eq!(asked, all);
}

#[test]
fn lightness_of_the_average_does_not_enter() {
    let img = sample_image(5, 3);
    let first = PixelBuffer::new(5, 3).unwrap();
    let settings = config(red_and_blue(), 0.0, 2, 1.0);
    let run = |lightness: f32| {
        let kernels = Collaborators {
            apply_dithering: dither,
            lab_to_image_rgb: show,
            compute_integral_image: |_image: &PixelBuffer| lightness,
            fast_spatial_color_average: |x: u32, y: u32, _w: u32, _h: u32, _r: u32, table: &f32| {
                bits(palette::Lab::new(*table, 4.0 * x as f32 - 8.0, 6.0 - 5.0 * y as f32))
            },
            blend_colors: blend,
            report: silent,
        };
        let output =
            apply_spatial_averaging_and_luminance_transfer(&img, &first, &settings, &kernels)
                .unwrap();
        pixels_of(&output)
    };
    let dark = run(3.0);
    let light = run(97.0);
    assert_eq!(dark, light);
    let sources = source_pixels(&img);
    for y in 0..3u32 {
        for x in 0..5u32 {
            let own = lab_of_pixel(sources[(y * 5 + x) as usize]);
            let expected =
                show(bits(palette::Lab::new(own.l, 4.0 * x as f32 - 8.0, 6.0 - 5.0 * y as f32)));
            assert_eq!(dark[(y * 5 + x) as usize], expected);
        }
    }
}

#[test]
fn table_is_built_once_from_the_image_of_the_first_pass() {
    let img = sample_image(4, 3);
    let built = Mutex::new(Vec::new());
    let kernels = Collaborators {
        apply_dithering: dither,
        lab_to_image_rgb: show,
        compute_integral_image: |image: &PixelBuffer| {
            built.lock().unwrap().push(pixels_of(image));
            integrate(image)
        },
        fast_spatial_color_average: average,
        blend_colors: blend,
        report: silent,
    };
    let settings = config(red_and_blue(), 0.0, 1, 1.0);
    let first = apply_color_mapping_and_dithering(&img, &settings, &kernels).unwrap();
    assert!(built.lock().unwrap().is_empty());
    colorize(&img, &settings, &kernels).unwrap();
    let built = built.into_inner().unwrap();
    assert_eq!(built.len(), 1);
    assert_eq!(built[0], pixels_of(&first));
}

#[test]
fn progress_of_both_passes_is_reported() {
    let img = DynamicImage::ImageLuma8(GrayImage::from_fn(101, 50, |x, y| Luma([(x + y) as u8])));
    let events = Mutex::new(Vec::new());
    let kernels = Collaborators {
        apply_dithering: dither,
        lab_to_image_rgb: show,
        compute_integral_image: |_image: &PixelBuffer| (),
        fast_spatial_color_average: |_x: u32, _y: u32, _w: u32, _h: u32, _r: u32, _t: &()| {
            Lab::new(0, 0, 0)
        },
        blend_colors: keep_recolored,
        report: |event: ProgressEvent| events.lock().unwrap().push(event),
    };
    colorize(&img, &config(red_and_blue(), 0.0, 1, 1.0), &kernels).unwrap();
    let events = events.into_inner().unwrap();
    assert_eq!(events.len(), 8);
    for (n, pass) in [Pass::ColorMapping, Pass::SpatialAveraging].into_iter().enumerate() {
        let of_pass = &events[4 * n..4 * n + 4];
        assert_eq!(of_pass[0], ProgressEvent::Started { pass, total: 5050 });
        assert_eq!(of_pass[3], ProgressEvent::Finished { pass });
        let first = ProgressEvent::Advanced { pass, position: 0 };
        let second = ProgressEvent::Advanced { pass, position: 5000 };
        assert!(
            (of_pass[1] == first && of_pass[2] == second)
                || (of_pass[1] == second && of_pass[2] == first)
        );
    }
}

#[test]
fn failed_pass_is_not_reported_as_finished() {
    let img = sample_image(3, 3);
    let events = Mutex::new(Vec::new());
    let kernels = Collaborators {
        apply_dithering: dither,
        lab_to_image_rgb: show,
        compute_integral_image: integrate,
        fast_spatial_color_average: average,
        blend_colors: blend,
        report: |event: ProgressEvent| events.lock().unwrap().push(event),
    };
    let colors = vec![
        bits(palette::Lab::new(50.0, 0.0, 0.0)),
        bits(palette::Lab::new(f32::NAN, 0.0, 0.0)),
    ];
    let result = colorize(&img, &config(colors, 0.0, 1, 1.0), &kernels);
    assert_eq!(result.err(), Some(ColorizeError::UnorderedDifferences));
    assert_eq!(
        events.into_inner().unwrap(),
        vec![
            ProgressEvent::Started { pass: Pass::ColorMapping, total: 9 },
            ProgressEvent::Advanced { pass: Pass::ColorMapping, position: 0 },
        ]
    );
}

#[test]
fn image_without_pixels_gives_an_image_without_pixels() {
    let img = DynamicImage::ImageRgb8(RgbImage::new(0, 0));
    let events = Mutex::new(Vec::new());
    let kernels = Collaborators {
        apply_dithering: dither,
        lab_to_image_rgb: show,
        compute_integral_image: integrate,
        fast_spatial_color_average: average,
        blend_colors: blend,
        report: |event: ProgressEvent| events.lock().unwrap().push(event),
    };
    let output = colorize(&img, &config(red_and_blue(), 0.0, 1, 1.0), &kernels).unwrap();
    assert_eq!(output.dimensions(), (0, 0));
    assert_eq!(
        events.into_inner().unwrap(),
        vec![
            ProgressEvent::Started { pass: Pass::ColorMapping, total: 0 },
            ProgressEvent::Finished { pass: Pass::ColorMapping },
            ProgressEvent::Started { pass: Pass::SpatialAveraging, total: 0 },
            ProgressEvent::Finished { pass: Pass::SpatialAveraging },
        ]
    );
}

#[test]
fn dithering_gets_the_mapped_color_twice_and_the_amount() {
    let img = DynamicImage::ImageRgb8(RgbImage::from_pixel(2, 1, Rgb([10, 200, 30])));
    let seen = Mutex::new(Vec::new());
    let kernels = Collaborators {
        apply_dithering: |current: Lab, target: Lab, amount: u32| {
            seen.lock().unwrap().push((current, target, amount));
            current
        },
        lab_to_image_rgb: show,
        compute_integral_image: integrate,
        fast_spatial_color_average: average,
        blend_colors: blend,
        report: silent,
    };
    let settings = config(red_and_blue(), 0.25, 0, 1.0);
    apply_color_mapping_and_dithering(&img, &settings, &kernels).unwrap();
    let cache = SharedColorCache::new(&settings.colors);
    let mapped =
        memoized_find_closest_color(&cache, Rgb8::new(10, 200, 30), &settings.colors).unwrap();
    assert_eq!(
        seen.into_inner().unwrap(),
        vec![(mapped, mapped, 0.25f32.to_bits()), (mapped, mapped, 0.25f32.to_bits())]
    );
}
