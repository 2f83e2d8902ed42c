use turing_canvas::color::{constrast_color, Color};
use turing_canvas::constant::Constant;

#[test]
fn light_fill_gets_black_text() {
    assert_eq!(constrast_color(Color::white()), Color::black());
    assert_eq!(constrast_color(Color::rgb(0, 255, 255)), Color::black());
}

#[test]
fn dark_fill_gets_white_text() {
    assert_eq!(constrast_color(Color::black()), Color::white());
    assert_eq!(constrast_color(Constant::background_2()), Color::white());
    assert_eq!(constrast_color(Color::rgb(255, 0, 0)), Color::white());
}

#[test]
fn half_luminance_is_white() {
    // 299 * 22 + 587 * 206 is exactly one half of the full scale: not above.
    assert_eq!(constrast_color(Color::rgb(22, 206, 0)), Color::white());
    assert_eq!(constrast_color(Color::rgb(22, 206, 1)), Color::black());
    assert_eq!(constrast_color(Color::rgb(0, 217, 0)), Color::white());
    assert_eq!(constrast_color(Color::rgb(0, 218, 0)), Color::black());
}

#[test]
fn equal_luminance_same_contrast() {
    // 299 * 15 + 114 * 7 == 587 * 9: both pairs have the same luminance.
    let pairs = [
        (Color::rgb(15, 0, 7), Color::rgb(0, 9, 0)),
        (Color::rgb(115, 100, 107), Color::rgb(100, 109, 100)),
        (Color::rgb(22, 197, 7), Color::rgb(7, 206, 0)),
    ];
    for (a, b) in pairs {
        let lum = |c: Color| 299 * c.r as u32 + 587 * c.g as u32 + 114 * c.b as u32;
        assert_eq!(lum(a), lum(b));
        assert_eq!(constrast_color(a), constrast_color(b));
    }
}

#[test]
fn contrast_is_black_or_white() {
    for r in (0..=255).step_by(15) {
        for g in (0..=255).step_by(17) {
            let c = constrast_color(Color::rgb(r, g, 128));
            assert!(c == Color::black() || c == Color::white());
        }
    }
}
