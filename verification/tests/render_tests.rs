use spek_core::color::Rgb8;
use spek_core::errors::SpekError;
use spek_core::render::{
    assemble_image, bilinear_magnitude, bin_pos_from_scaled, column_time_positions,
    interpolate_grid, row_bin_positions_linear, validate_dimensions, BinPos, Frac, TimePos,
};
use spek_core::stft::{StftResult, NUM_FREQ_BINS};

fn rgb(r: u8, g: u8, b: u8) -> Rgb8 {
    Rgb8 { r, g, b }
}

#[test]
fn dimension_validation() {
    assert_eq!(validate_dimensions(0, 100), Err(SpekError::InvalidDimensions { width: 0, height: 100 }));
    assert_eq!(validate_dimensions(100, 0), Err(SpekError::InvalidDimensions { width: 100, height: 0 }));
    assert_eq!(validate_dimensions(0, 0), Err(SpekError::InvalidDimensions { width: 0, height: 0 }));
    assert_eq!(validate_dimensions(1, 1), Ok(()));
}

#[test]
fn time_positions_split_columns_exactly() {
    let cols = column_time_positions(4, 2);
    assert_eq!(cols.len(), 4);
    assert_eq!(cols[0], TimePos { t0: 0, t1: 1, frac: Frac { num: 0, den: 4 } });
    assert_eq!(cols[1], TimePos { t0: 0, t1: 1, frac: Frac { num: 2, den: 4 } });
    assert_eq!(cols[2], TimePos { t0: 1, t1: 1, frac: Frac { num: 0, den: 4 } });
    assert_eq!(cols[3], TimePos { t0: 1, t1: 1, frac: Frac { num: 2, den: 4 } });
}

#[test]
fn single_frame_pins_every_column() {
    let cols = column_time_positions(8, 1);
    for c in cols {
        assert_eq!(c.t0, 0);
        assert_eq!(c.t1, 0);
    }
}

#[test]
fn linear_rows_invert_the_axis() {
    let rows = row_bin_positions_linear(4, 1024);
    assert_eq!(rows.len(), 4);
    // Row 0 is the top: the highest frequency, here bin position
    // 3/4 * 1024 = 768.
    assert_eq!(rows[0], BinPos { f0: 768, f1: 769, frac: Frac { num: 0, den: 4 } });
    assert_eq!(rows[3], BinPos { f0: 0, f1: 1, frac: Frac { num: 0, den: 4 } });
}

#[test]
fn scaled_bin_positions_clamp_at_the_top() {
    let bins = NUM_FREQ_BINS;
    let top = bin_pos_from_scaled((bins as u64) << 16, bins);
    assert_eq!(top.f0, bins - 1);
    assert_eq!(top.f1, bins - 1);
    assert_eq!(top.frac.num, 0);
    let mid = bin_pos_from_scaled((100 << 16) + 32768, bins);
    assert_eq!(mid.f0, 100);
    assert_eq!(mid.f1, 101);
    assert_eq!(mid.frac, Frac { num: 32768, den: 65536 });
}

#[test]
fn bilinear_blends_the_four_neighbors() {
    let mut rows = vec![vec![0u64; NUM_FREQ_BINS], vec![0u64; NUM_FREQ_BINS]];
    rows[1][1] = 4;
    let stft = StftResult::new(rows).unwrap();
    let t = TimePos { t0: 0, t1: 1, frac: Frac { num: 1, den: 2 } };
    let b = BinPos { f0: 0, f1: 1, frac: Frac { num: 1, den: 2 } };
    // Only m11 = 4 contributes, with weight 1/4.
    assert_eq!(bilinear_magnitude(&stft, &t, &b), 1);
    let b0 = BinPos { f0: 0, f1: 1, frac: Frac { num: 0, den: 2 } };
    assert_eq!(bilinear_magnitude(&stft, &t, &b0), 0);
}

#[test]
fn bilinear_is_exact_on_grid_points() {
    let mut rows = vec![vec![0u64; NUM_FREQ_BINS]];
    rows[0][7] = 123456;
    let stft = StftResult::new(rows).unwrap();
    let t = TimePos { t0: 0, t1: 0, frac: Frac { num: 0, den: 3 } };
    let b = BinPos { f0: 7, f1: 8, frac: Frac { num: 0, den: 5 } };
    assert_eq!(bilinear_magnitude(&stft, &t, &b), 123456);
}

#[test]
fn interpolate_grid_has_one_value_per_pixel() {
    let rows_data = vec![vec![8u64; NUM_FREQ_BINS]; 3];
    let stft = StftResult::new(rows_data).unwrap();
    let cols = column_time_positions(5, 3);
    let rows = row_bin_positions_linear(7, NUM_FREQ_BINS);
    let grid = interpolate_grid(&stft, &cols, &rows);
    assert_eq!(grid.len(), 5);
    for col in &grid {
        assert_eq!(col.len(), 7);
        for v in col {
            // A constant field interpolates to itself.
            assert_eq!(*v, 8);
        }
    }
}

#[test]
fn assemble_rejects_zero_dimensions() {
    let lut = vec![rgb(0, 0, 0)];
    let r = assemble_image(0, 4, &Vec::new(), &lut);
    assert_eq!(
        r.err().unwrap(),
        SpekError::InvalidDimensions { width: 0, height: 4 }
    );
}

#[test]
fn assemble_lays_out_rows_top_first() {
    let lut = vec![rgb(0, 0, 0), rgb(255, 0, 0), rgb(0, 255, 0), rgb(0, 0, 255)];
    let indices: Vec<Vec<u16>> = vec![vec![0, 1], vec![2, 3]];
    let img = assemble_image(2, 2, &indices, &lut).unwrap();
    assert_eq!(img.width, 2);
    assert_eq!(img.height, 2);
    assert_eq!(img.pixels.len(), 4);
    // Row-major: (x=0,y=0), (x=1,y=0), (x=0,y=1), (x=1,y=1).
    assert_eq!(img.pixels[0], rgb(0, 0, 0));
    assert_eq!(img.pixels[1], rgb(0, 255, 0));
    assert_eq!(img.pixels[2], rgb(255, 0, 0));
    assert_eq!(img.pixels[3], rgb(0, 0, 255));
}
