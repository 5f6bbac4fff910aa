use silica::error::ProcreateError;
use silica::tiles::{check_tile_pixels, decode_tile, parse_tile_name, plan_layer_tiles, TileJob};
use silica::tiling::TilingData;
use std::io::Write;

const UUID: &str = "0C7B1A2E-58F4-4D3B-9A44-5F0E8E3C7D21";

#[test]
fn tile_name_with_extension() {
    let name = format!("{UUID}12~3.chunk");
    assert_eq!(parse_tile_name(&name, UUID), Ok((12, 3)));
}

#[test]
fn tile_name_without_extension() {
    let name = format!("{UUID}0~0");
    assert_eq!(parse_tile_name(&name, UUID), Ok((0, 0)));
}

#[test]
fn malformed_tile_names_are_invalid() {
    for rest in ["", "1-2.chunk", "~2.lz4", "1~.lz4", "a~2", "1~2x.lz4", "99999999999~1"] {
        let name = format!("{UUID}{rest}");
        assert_eq!(parse_tile_name(&name, UUID), Err(ProcreateError::InvalidValue), "{rest}");
    }
}

#[test]
fn plan_covers_every_entry_of_the_layer() {
    let g = TilingData::new(100, 70, 64);
    let names: Vec<String> = vec![
        "Document.archive".to_string(),
        format!("{UUID}0~0.chunk"),
        format!("{UUID}1~0.lz4"),
        "OTHER-UUID0~0.chunk".to_string(),
        format!("{UUID}0~1.chunk"),
        format!("{UUID}1~1.lz4"),
    ];
    let jobs = plan_layer_tiles(UUID, &names, &g).expect("well-formed names");
    let got: Vec<(usize, u32, u32, u32, u32, u32, u32, bool, usize)> = jobs
        .iter()
        .map(|j| (j.name_index, j.col, j.row, j.x, j.y, j.width, j.height, j.lz4, j.len))
        .collect();
    assert_eq!(
        got,
        vec![
            (1, 0, 0, 0, 0, 64, 64, false, 64 * 64 * 4),
            (2, 1, 0, 64, 0, 36, 64, true, 36 * 64 * 4),
            (4, 0, 1, 0, 64, 64, 6, false, 64 * 6 * 4),
            (5, 1, 1, 64, 64, 36, 6, true, 36 * 6 * 4),
        ]
    );
}

#[test]
fn plan_rejects_a_tile_outside_the_grid() {
    let g = TilingData::new(100, 70, 64);
    let names = vec![format!("{UUID}2~0.chunk")];
    assert_eq!(plan_layer_tiles(UUID, &names, &g), Err(ProcreateError::InvalidValue));
}

fn lzo_context() -> minilzo_rs::LZO {
    minilzo_rs::LZO::init().unwrap()
}

fn job(lz4: bool, len: usize) -> TileJob {
    TileJob { name_index: 0, col: 0, row: 0, x: 0, y: 0, width: 4, height: (len / 16) as u32, lz4, len }
}

fn pixels(len: usize) -> Vec<u8> {
    (0..len).map(|i| (i * 7 % 251) as u8).collect()
}

#[test]
fn framed_tile_decodes() {
    let raw = pixels(4 * 4 * 4);
    let mut enc = lz4_flex::frame::FrameEncoder::new(Vec::new());
    enc.write_all(&raw).unwrap();
    let packed = enc.finish().unwrap();
    assert_ne!(packed, raw);
    assert_eq!(decode_tile(&job(true, raw.len()), &packed, &lzo_context()), Ok(raw));
}

#[test]
fn framed_tile_of_wrong_length() {
    let raw = pixels(32);
    let mut enc = lz4_flex::frame::FrameEncoder::new(Vec::new());
    enc.write_all(&raw).unwrap();
    let packed = enc.finish().unwrap();
    assert_eq!(decode_tile(&job(true, 64), &packed, &lzo_context()), Err(ProcreateError::TileLength));
}

#[test]
fn framed_tile_that_is_garbage() {
    assert_eq!(decode_tile(&job(true, 64), &[1, 2, 3, 4, 5], &lzo_context()), Err(ProcreateError::Lz4Error));
}

#[test]
fn dictionary_tile_decodes() {
    let raw = pixels(4 * 4 * 4);
    let mut lzo = minilzo_rs::LZO::init().unwrap();
    let packed = lzo.compress(&raw).unwrap();
    assert_ne!(packed, raw);
    assert_eq!(decode_tile(&job(false, raw.len()), &packed, &lzo_context()), Ok(raw));
}

#[test]
fn dictionary_tile_that_is_garbage() {
    assert_eq!(decode_tile(&job(false, 64), &[0xFF, 0xFF, 0xFF], &lzo_context()), Err(ProcreateError::LzoError));
}

#[test]
fn pixel_length_is_checked() {
    assert_eq!(check_tile_pixels(&job(true, 64), vec![0; 64]), Ok(vec![0; 64]));
    assert_eq!(check_tile_pixels(&job(true, 64), vec![0; 63]), Err(ProcreateError::TileLength));
}
