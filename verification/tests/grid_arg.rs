use complife::grid_arg::{grid_dims, parse_grid, GridError, IntErrorKind};

#[test]
fn parse_grid_accepts_w_by_h() {
    assert_eq!(parse_grid("240x135"), Ok((240, 135)));
    assert_eq!(parse_grid("+3x4"), Ok((3, 4)));
    assert_eq!(parse_grid("1x1"), Ok((1, 1)));
}

#[test]
fn parse_grid_refuses_bad_format() {
    assert_eq!(
        parse_grid("240"),
        Err("Invalid grid format '240', expected WxH (e.g. 240x135)".to_string())
    );
    assert_eq!(
        parse_grid("2x3x4"),
        Err("Invalid grid format '2x3x4', expected WxH (e.g. 240x135)".to_string())
    );
}

#[test]
fn parse_grid_refuses_bad_numbers() {
    assert_eq!(
        parse_grid("ax5"),
        Err("Invalid grid width: invalid digit found in string".to_string())
    );
    assert_eq!(
        parse_grid("x5"),
        Err("Invalid grid width: cannot parse integer from empty string".to_string())
    );
    assert_eq!(
        parse_grid("5x-1"),
        Err("Invalid grid height: invalid digit found in string".to_string())
    );
    assert_eq!(
        parse_grid("5x99999999999999999999999"),
        Err("Invalid grid height: number too large to fit in target type".to_string())
    );
    assert_eq!(parse_grid("0x5"), Err("Grid dimensions must be positive".to_string()));
}

#[test]
fn parse_grid_agrees_with_std_parse() {
    for text in ["12", "+7", "", "+", "-3", "007", "18446744073709551615", "18446744073709551616", "1a"] {
        let spec = format!("{text}x2");
        let ours = grid_dims(&spec);
        match text.parse::<usize>() {
            Ok(0) => assert_eq!(ours, Err(GridError::NotPositive)),
            Ok(w) => assert_eq!(ours, Ok((w, 2))),
            Err(e) => {
                let kind = match e.kind() {
                    std::num::IntErrorKind::Empty => IntErrorKind::Empty,
                    std::num::IntErrorKind::InvalidDigit => IntErrorKind::InvalidDigit,
                    _ => IntErrorKind::PosOverflow,
                };
                assert_eq!(ours, Err(GridError::Width(kind)));
                assert_eq!(parse_grid(&spec), Err(format!("Invalid grid width: {e}")));
            }
        }
    }
}
