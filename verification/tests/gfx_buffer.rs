use conductor::automata::Automata;
use conductor::gfx::{species_pixel, xy, FramebufferCoordinates, Pixel, PixelBuffer};
use conductor::ufb::{ColorDepth, Resolution};

#[test]
fn pixel_constructors() {
    assert_eq!(Pixel::new(1, 2, 3).rgb(), (1, 2, 3));
    assert_eq!(Pixel::alpha().rgb(), (0xff, 0, 0xba));
    assert_eq!(Pixel::black().rgb(), (0, 0, 0));
    assert_eq!(Pixel::white().rgb(), (255, 255, 255));
    assert_eq!(Pixel::default(), Pixel::alpha());
}

#[test]
fn fresh_buffer_is_black() {
    let buffer = PixelBuffer::new(Resolution::new(4, 3));
    let pixels = buffer.get_buffer();
    assert_eq!(pixels.len(), 12);
    assert!(pixels.iter().all(|p| *p == Pixel::black()));
}

#[test]
fn set_pixel_writes_row_major() {
    let mut buffer = PixelBuffer::new(Resolution::new(4, 3));
    let red = Pixel::new(200, 0, 0);
    buffer.set_pixel(FramebufferCoordinates::from((1, 2)), red);
    let pixels = buffer.get_buffer();
    for (i, p) in pixels.iter().enumerate() {
        if i == 1 + 2 * 4 {
            assert_eq!(*p, red);
        } else {
            assert_eq!(*p, Pixel::black());
        }
    }
}

#[test]
fn set_pixel_skips_alpha_and_out_of_range() {
    let mut buffer = PixelBuffer::new(Resolution::new(4, 3));
    buffer.set_pixel(FramebufferCoordinates::from((1, 1)), Pixel::alpha());
    buffer.set_pixel(FramebufferCoordinates::from((100, 100)), Pixel::white());
    let pixels = buffer.get_buffer();
    assert!(pixels.iter().all(|p| *p == Pixel::black()));
}

#[test]
fn blit_swaps_opaque_pixels_and_skips_alpha() {
    let mut buffer = PixelBuffer::new(Resolution::new(4, 4));
    let white = Pixel::white();
    let red = Pixel::new(9, 9, 9);
    let mut sprite = vec![white, Pixel::alpha(), red, white];
    buffer.blit(
        FramebufferCoordinates::from((1, 1)),
        Resolution::new(2, 2),
        &mut sprite,
    );
    let pixels = buffer.get_buffer();
    let at = |x: usize, y: usize| pixels[x + y * 4];
    assert_eq!(at(1, 1), white);
    assert_eq!(at(2, 1), Pixel::black(), "alpha sprite pixel is skipped");
    assert_eq!(at(1, 2), red);
    assert_eq!(at(2, 2), white);
    assert_eq!(at(0, 0), Pixel::black());
    // The sprite took the frame's old pixels where it was opaque.
    assert_eq!(sprite[0], Pixel::black());
    assert_eq!(sprite[1], Pixel::alpha());
    assert_eq!(sprite[2], Pixel::black());
    assert_eq!(sprite[3], Pixel::black());
}

#[test]
fn blit_clips_at_the_frame_edge() {
    let mut buffer = PixelBuffer::new(Resolution::new(4, 4));
    let white = Pixel::white();
    // A 2x2 sprite placed at the bottom-right corner: only its top-left
    // cell is visible, and the clipped sprite is read with width 1.
    let mut sprite = vec![white, white, white, white];
    buffer.blit(
        FramebufferCoordinates::from((3, 3)),
        Resolution::new(2, 2),
        &mut sprite,
    );
    let pixels = buffer.get_buffer();
    assert_eq!(pixels[3 + 3 * 4], white);
    assert_eq!(pixels.iter().filter(|p| **p == white).count(), 1);
    assert_eq!(sprite[0], Pixel::black());
    assert_eq!(sprite[1], white, "offsets beyond the visible region keep their value");
}

#[test]
fn xy_inverts_row_major_offsets() {
    let res = Resolution::new(4, 3);
    assert_eq!(xy(0, res).xy_pair(), (0, 0));
    assert_eq!(xy(5, res).xy_pair(), (1, 1));
    assert_eq!(xy(11, res).xy_pair(), (3, 2));
}

#[test]
fn resolution_area_and_center() {
    let res = Resolution::new(640, 480);
    assert_eq!(res.area(), 640 * 480);
    assert_eq!(res.center(), (320, 240));
    assert_eq!(Resolution::new(7, 9).center(), (3, 4));
}

#[test]
fn color_depth_bytes() {
    assert_eq!(ColorDepth::L8.bytes_per_pixel(), 1);
    assert_eq!(ColorDepth::La8.bytes_per_pixel(), 2);
    assert_eq!(ColorDepth::Rgb8.bytes_per_pixel(), 3);
    assert_eq!(ColorDepth::Rgba8.bytes_per_pixel(), 4);
}

#[test]
fn species_colors_stay_in_their_bands() {
    let mut rng = fastrand::Rng::with_seed(13);
    let mut greens = std::collections::HashSet::new();
    for _ in 0..200 {
        let (r, g, b) = species_pixel(Automata::RandomWalker, &mut rng).rgb();
        assert_eq!((r, b), (170, 220));
        assert!((180..220).contains(&g));
        greens.insert(g);

        let (r, g, b) = species_pixel(Automata::Water, &mut rng).rgb();
        assert_eq!((r, g), (100, 100));
        assert!((180..255).contains(&b));

        let (r, g, b) = species_pixel(Automata::Sand, &mut rng).rgb();
        assert_eq!((g, b), (90, 70));
        assert!((120..200).contains(&r));
    }
    assert!(greens.len() > 1, "the jittered channel must vary");
}
