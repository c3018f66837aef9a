use bc_lifehash::bit_enumerator::BitEnumerator;
use bc_lifehash::gradients::{Gradient, Hues, select_gradient};
use bc_lifehash::grid::Grid;
use bc_lifehash::patterns::{Pattern, apply_pattern, select_pattern};
use bc_lifehash::{make_image, plan_from_data, plan_from_digest, run_generations, Version};
use sha2::{Digest, Sha256};

fn cells_to_bytes(width: usize, height: usize, cells: &[(usize, usize)]) -> Vec<u8> {
    let mut bytes = vec![0u8; width * height / 8];
    for &(x, y) in cells {
        let i = y * width + x;
        bytes[i / 8] |= 0x80 >> (i % 8);
    }
    bytes
}

#[test]
fn pattern_is_fiducial_for_fiducial_versions() {
    for version in [Version::Fiducial, Version::GrayscaleFiducial] {
        let mut e = BitEnumerator::new(vec![0xff]);
        assert_eq!(select_pattern(&mut e, version), Pattern::Fiducial);
        assert_eq!(e.next_uint8(), 0xff);
    }
}

#[test]
fn pattern_bit_chooses_snowflake_or_pinwheel() {
    let mut e = BitEnumerator::new(vec![0b1000_0000]);
    assert_eq!(select_pattern(&mut e, Version::Version1), Pattern::Snowflake);
    assert_eq!(select_pattern(&mut e, Version::Detailed), Pattern::Pinwheel);
}

#[test]
fn gradient_schemes_by_version() {
    let mut e = BitEnumerator::new(vec![0x00; 8]);
    assert_eq!(
        select_gradient(&mut e, Version::Version1),
        Gradient::Monochromatic {
            hues: Hues::Hsb,
            hue: 0,
            is_tint: false,
            is_reversed: false,
            key_advance: 0,
            neutral_advance: 0
        }
    );
    let mut e = BitEnumerator::new(vec![0x00; 8]);
    assert_eq!(
        select_gradient(&mut e, Version::Detailed),
        Gradient::Monochromatic {
            hues: Hues::SpectrumCmykSafe,
            hue: 0,
            is_tint: false,
            is_reversed: false,
            key_advance: 0,
            neutral_advance: 0
        }
    );
    let mut e = BitEnumerator::new(vec![0xff; 8]);
    assert_eq!(
        select_gradient(&mut e, Version::Version1),
        Gradient::Analogous { hues: Hues::Spectrum, spectrum: 0xffff, advance: 0xffff, is_reversed: true }
    );
    let mut e = BitEnumerator::new(vec![0xff; 8]);
    assert_eq!(
        select_gradient(&mut e, Version::Fiducial),
        Gradient::AnalogousFiducial { spectrum: 0xffff, is_tint: true, neutral_insert_index: 2, is_reversed: true }
    );
    let mut e = BitEnumerator::new(vec![0x00; 8]);
    assert_eq!(select_gradient(&mut e, Version::GrayscaleFiducial), Gradient::Grayscale { reversed: true });
    let mut e = BitEnumerator::new(vec![0xff; 8]);
    assert_eq!(select_gradient(&mut e, Version::GrayscaleFiducial), Gradient::Grayscale { reversed: false });
}

#[test]
fn gradient_reads_parameters_in_order() {
    // 01 | spectrum 1010_1010_1010_1010 | lighter 0000_0000_1111_1111 |
    // darker 1111_0000_1111_0000 | reversed 1
    let bits = "01".to_string() + "1010101010101010" + "0000000011111111" + "1111000011110000" + "1";
    let mut bytes = vec![0u8; 8];
    for (i, c) in bits.chars().enumerate() {
        if c == '1' {
            bytes[i / 8] |= 0x80 >> (i % 8);
        }
    }
    let mut e = BitEnumerator::new(bytes.clone());
    assert_eq!(
        select_gradient(&mut e, Version::Version2),
        Gradient::Complementary {
            hues: Hues::SpectrumCmykSafe,
            spectrum: 0xAAAA,
            lighter_advance: 0x00FF,
            darker_advance: 0xF0F0,
            is_reversed: true
        }
    );
    let mut e = BitEnumerator::new(bytes);
    assert_eq!(
        select_gradient(&mut e, Version::Fiducial),
        Gradient::ComplementaryFiducial {
            spectrum: 0xAAAA,
            is_tint: false,
            is_reversed: false,
            neutral_color_bias: false
        }
    );
}

#[test]
fn triadic_fiducial_neutral_index() {
    // 10 | spectrum (16 bits) | tint 1 | byte 0000_0100 | reversed 0
    let bits = "10".to_string() + "0000000000000001" + "1" + "00000100" + "0";
    let mut bytes = vec![0u8; 8];
    for (i, c) in bits.chars().enumerate() {
        if c == '1' {
            bytes[i / 8] |= 0x80 >> (i % 8);
        }
    }
    let mut e = BitEnumerator::new(bytes);
    assert_eq!(
        select_gradient(&mut e, Version::Fiducial),
        Gradient::TriadicFiducial { spectrum: 1, is_tint: true, neutral_insert_index: 1, is_reversed: false }
    );
}

fn grid_of(width: usize, height: usize, values: &[u32]) -> Grid<u32> {
    let mut g: Grid<u32> = Grid::new(width, height);
    for (i, v) in values.iter().enumerate() {
        g.set_value(*v, i % width, i / width);
    }
    g
}

#[test]
fn snowflake_mirrors_both_ways() {
    let g = apply_pattern(&grid_of(2, 2, &[1, 2, 3, 4]), Pattern::Snowflake);
    assert_eq!((g.width, g.height), (4, 4));
    assert_eq!(g.storage, vec![1, 2, 2, 1, 3, 4, 4, 3, 3, 4, 4, 3, 1, 2, 2, 1]);
}

#[test]
fn pinwheel_turns_by_quarters() {
    let g = apply_pattern(&grid_of(2, 2, &[1, 2, 3, 4]), Pattern::Pinwheel);
    assert_eq!(g.storage, vec![1, 2, 3, 1, 3, 4, 4, 2, 2, 4, 4, 3, 1, 3, 2, 1]);
    // A quarter turn leaves the image unchanged.
    for y in 0..4 {
        for x in 0..4 {
            assert_eq!(g.get_value(x, y), g.get_value(3 - y, x));
        }
    }
}

#[test]
fn fiducial_pattern_keeps_the_grid() {
    let g = apply_pattern(&grid_of(3, 2, &[1, 2, 3, 4, 5, 6]), Pattern::Fiducial);
    assert_eq!((g.width, g.height), (3, 2));
    assert_eq!(g.storage, vec![1, 2, 3, 4, 5, 6]);
}

#[test]
fn make_image_scales_and_adds_alpha() {
    let rgb = vec![10, 20, 30, 40, 50, 60];
    let image = make_image(2, 1, &rgb, 2, false);
    assert_eq!((image.width, image.height), (4, 2));
    assert_eq!(
        image.colors,
        vec![
            10, 20, 30, 10, 20, 30, 40, 50, 60, 40, 50, 60, 10, 20, 30, 10, 20, 30, 40, 50, 60,
            40, 50, 60
        ]
    );
    let image = make_image(2, 1, &rgb, 1, true);
    assert_eq!(image.colors, vec![10, 20, 30, 255, 40, 50, 60, 255]);
}

#[test]
fn history_of_a_blinker_has_two_generations() {
    let seed = cells_to_bytes(16, 16, &[(1, 0), (1, 1), (1, 2)]);
    let history = run_generations(&seed, 16, 150);
    assert_eq!(history.len(), 2);
    assert_eq!(history[0], seed);
    assert_eq!(history[1], cells_to_bytes(16, 16, &[(0, 1), (1, 1), (2, 1)]));
}

#[test]
fn history_of_still_life_has_one_generation() {
    let seed = cells_to_bytes(16, 16, &[(4, 4), (5, 4), (4, 5), (5, 5)]);
    assert_eq!(run_generations(&seed, 16, 150).len(), 1);
    assert_eq!(run_generations(&vec![0u8; 32], 16, 150).len(), 1);
}

#[test]
fn history_of_a_glider_is_one_lap_of_the_torus() {
    // On a 16 by 16 torus a glider comes back after 64 generations.
    let seed = cells_to_bytes(16, 16, &[(1, 0), (2, 1), (0, 2), (1, 2), (2, 2)]);
    assert_eq!(run_generations(&seed, 16, 150).len(), 64);
    assert_eq!(run_generations(&seed, 16, 10).len(), 10);
}

#[test]
fn plan_from_data_hashes_the_data() {
    let data = b"Hello";
    let digest = Sha256::digest(data).to_vec();
    let plan = plan_from_data(data, Version::Version2);
    let direct = plan_from_digest(&digest, Version::Version2);
    assert_eq!(plan.history_len, direct.history_len);
    assert_eq!(plan.generations.storage, direct.generations.storage);
    assert_eq!(plan.gradient, direct.gradient);
    assert_eq!(plan.pattern, direct.pattern);
}

#[test]
fn plan_from_data_differs_from_treating_data_as_digest() {
    let data = [7u8; 32];
    let hashed = plan_from_data(&data, Version::Version1);
    let raw = plan_from_digest(&data, Version::Version1);
    assert_ne!(hashed.generations.storage, raw.generations.storage);
}

#[test]
fn plan_shapes_by_version() {
    for (version, side) in [
        (Version::Version1, 16),
        (Version::Version2, 16),
        (Version::Detailed, 32),
        (Version::Fiducial, 32),
        (Version::GrayscaleFiducial, 32),
    ] {
        let plan = plan_from_data(b"Hello", version);
        assert_eq!(plan.version, version);
        assert_eq!(plan.generations.width, side);
        assert_eq!(plan.generations.height, side);
        assert!(plan.history_len >= 1);
        assert!(plan.history_len <= if side == 16 { 150 } else { 300 });
        assert!(plan.generations.storage.iter().all(|&g| g <= plan.history_len));
        if matches!(version, Version::Fiducial | Version::GrayscaleFiducial) {
            assert_eq!(plan.pattern, Pattern::Fiducial);
        } else {
            assert_ne!(plan.pattern, Pattern::Fiducial);
        }
    }
}

#[test]
fn plan_of_version1_seeds_with_the_digest() {
    // With the all-zero digest the first generation is empty, so nothing ever lives.
    let plan = plan_from_digest(&[0u8; 32], Version::Version1);
    assert_eq!(plan.history_len, 1);
    assert!(plan.generations.storage.iter().all(|&g| g == 0));
    assert_eq!(
        plan.gradient,
        Gradient::Monochromatic {
            hues: Hues::Hsb,
            hue: 0,
            is_tint: false,
            is_reversed: false,
            key_advance: 0,
            neutral_advance: 0
        }
    );
    assert_eq!(plan.pattern, Pattern::Pinwheel);
}

#[test]
fn plan_is_deterministic() {
    let a = plan_from_data(b"0", Version::Detailed);
    let b = plan_from_data(b"0", Version::Detailed);
    assert_eq!(a.history_len, b.history_len);
    assert_eq!(a.generations.storage, b.generations.storage);
    assert_eq!(a.gradient, b.gradient);
    assert_eq!(a.pattern, b.pattern);
}

#[test]
fn hello_version2_is_32_by_32() {
    let plan = plan_from_data(b"Hello", Version::Version2);
    let image = apply_pattern(&plan.generations, plan.pattern);
    assert_eq!((image.width, image.height), (32, 32));
    let rgb = vec![0u8; image.width * image.height * 3];
    let rgba = make_image(image.width, image.height, &rgb, 1, true);
    assert_eq!((rgba.width, rgba.height), (32, 32));
    assert_eq!(rgba.colors.len(), 32 * 32 * 4);
}

#[test]
fn fiducial_image_keeps_the_grid_size() {
    let plan = plan_from_digest(&[0u8; 32], Version::Fiducial);
    let image = apply_pattern(&plan.generations, plan.pattern);
    assert_eq!((image.width, image.height), (32, 32));
}
