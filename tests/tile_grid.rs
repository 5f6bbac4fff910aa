use silica::tiling::{Size, TilingData};

#[test]
fn square_canvas_of_whole_tiles() {
    let g = TilingData::new(128, 128, 64);
    assert_eq!(g.columns, 2);
    assert_eq!(g.rows, 2);
    for col in 0..2 {
        for row in 0..2 {
            assert_eq!(g.tile_size(col, row), Size { width: 64, height: 64 });
        }
    }
    assert_eq!(g.tile_origin(0, 0), (0, 0));
    assert_eq!(g.tile_origin(1, 0), (64, 0));
    assert_eq!(g.tile_origin(0, 1), (0, 64));
    assert_eq!(g.tile_origin(1, 1), (64, 64));
}

#[test]
fn canvas_not_a_multiple_of_the_tile() {
    let g = TilingData::new(100, 70, 64);
    assert_eq!(g.columns, 2);
    assert_eq!(g.rows, 2);
    assert_eq!(g.tile_size(0, 0), Size { width: 64, height: 64 });
    assert_eq!(g.tile_size(1, 0), Size { width: 36, height: 64 });
    assert_eq!(g.tile_size(0, 1), Size { width: 64, height: 6 });
    assert_eq!(g.tile_size(1, 1), Size { width: 36, height: 6 });
}

#[test]
fn tiles_add_up_to_the_canvas() {
    for &(w, h, t) in &[(100u32, 70u32, 64u32), (1, 1, 256), (513, 1024, 256), (7, 300, 7)] {
        let g = TilingData::new(w, h, t);
        let widths: u32 = (0..g.columns).map(|c| g.tile_size(c, 0).width).sum();
        let heights: u32 = (0..g.rows).map(|r| g.tile_size(0, r).height).sum();
        assert_eq!((widths, heights), (w, h));
    }
}

#[test]
fn empty_canvas_has_no_tiles() {
    let g = TilingData::new(0, 0, 64);
    assert_eq!((g.columns, g.rows), (0, 0));
}

#[test]
fn largest_canvas_that_fits() {
    let g = TilingData::new(u32::MAX - 64, 64, 64);
    assert_eq!(g.columns, 67108863);
    assert_eq!(g.tile_size(g.columns - 1, 0).width, 63);
}
