use sh1107g::display::DisplayRotation;
use sh1107g::display::DisplayVariant;

struct FullSquarePanel;

impl DisplayVariant for FullSquarePanel {
    fn dimensions() -> (u8, u8) {
        (128, 128)
    }
}

#[test]
fn variant_reports_dimensions() {
    assert_eq!(FullSquarePanel::dimensions(), (128, 128));
}

#[test]
fn rotation_is_copyable_and_comparable() {
    let r = DisplayRotation::Rotate90;
    let s = r;
    assert_eq!(r, s);
    assert_ne!(DisplayRotation::Rotate0, DisplayRotation::Rotate180);
    assert_ne!(DisplayRotation::Rotate90, DisplayRotation::Rotate270);
}
