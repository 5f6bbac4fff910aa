use silica::blend::BlendingMode;
use silica::error::ProcreateError;

#[test]
fn blend_codes_round_trip() {
    for code in 0u32..=26 {
        if code == 18 {
            continue;
        }
        let mode = BlendingMode::from_u32(code).expect("known code");
        assert_eq!(mode.to_u32(), code);
    }
}

#[test]
fn blend_code_eighteen_is_reserved() {
    assert_eq!(BlendingMode::from_u32(18), Err(ProcreateError::InvalidValue));
}

#[test]
fn blend_code_above_range_is_invalid() {
    assert_eq!(BlendingMode::from_u32(27), Err(ProcreateError::InvalidValue));
    assert_eq!(BlendingMode::from_u32(u32::MAX), Err(ProcreateError::InvalidValue));
}

#[test]
fn blend_codes_skip_the_reserved_slot() {
    assert_eq!(BlendingMode::from_u32(17), Ok(BlendingMode::SoftLight));
    assert_eq!(BlendingMode::from_u32(19), Ok(BlendingMode::Darken));
    assert_eq!(BlendingMode::from_u32(21), Ok(BlendingMode::VividLight));
    assert_eq!(BlendingMode::from_u32(22), Ok(BlendingMode::LinearLight));
    assert_eq!(BlendingMode::from_u32(26), Ok(BlendingMode::Divide));
}

#[test]
fn blend_names() {
    assert_eq!(BlendingMode::Normal.as_str(), "Normal");
    assert_eq!(BlendingMode::LinearBurn.as_str(), "Linear Burn");
    assert_eq!(BlendingMode::LighterColor.as_str(), "Lighter Color");
    assert_eq!(BlendingMode::Divide.as_str(), "Divide");
}
