use glp::status::Status;
use glp::style::Label;

// These tests force coloring on, so they live in their own test binary
// and do not interfere with the plain-text rendering tests.

#[test]
fn forced_colors_wrap_labels_in_ansi_escapes() {
    colored::control::set_override(true);
    let label = Label(String::from("build"));
    assert_eq!(
        label.to_string(&Status::Success),
        "\u{1b}[32mbuild\u{1b}[0m"
    );
    assert_eq!(label.to_string(&Status::Failed), "\u{1b}[31mbuild\u{1b}[0m");
    assert_eq!(
        label.to_string(&Status::Running),
        "\u{1b}[33mbuild\u{1b}[0m"
    );
    assert_eq!(label.to_string(&Status::Manual), "build [manual]");
    assert_eq!(label.to_string(&Status::Unknown), "build");
    assert_eq!(
        label.to_string(&Status::from_text(String::from("scheduled"))),
        "build"
    );
}
