use rtc::axis::Axis;
use rtc::error::RenderError;

#[test]
fn axes_have_indices() {
    assert_eq!(Axis::X.index(), 0);
    assert_eq!(Axis::Y.index(), 1);
    assert_eq!(Axis::Z.index(), 2);
}

#[test]
fn render_error_has_a_message() {
    let e = RenderError::SceneError("poisoned".to_string());
    assert_eq!(e.message(), "Could not render the specified scene");
}
