use zero_claw::config::{default_port, fill_placeholder, next_placeholder};

#[test]
fn port_default() {
    assert_eq!(default_port(), 3007);
}

#[test]
fn placeholders() {
    let text = "api_key = \"${KEY}\"\nmodel = \"${MODEL}\"";
    assert_eq!(next_placeholder(text), Some("KEY".to_string()));
    let once = fill_placeholder(text, "secret");
    assert_eq!(once, "api_key = \"secret\"\nmodel = \"${MODEL}\"");
    assert_eq!(next_placeholder(&once), Some("MODEL".to_string()));
    let twice = fill_placeholder(&once, "");
    assert_eq!(twice, "api_key = \"secret\"\nmodel = \"\"");
    assert_eq!(next_placeholder(&twice), None);
    assert_eq!(fill_placeholder(&twice, "x"), twice);
}

#[test]
fn unterminated_placeholder_is_left() {
    assert_eq!(next_placeholder("a ${OPEN"), None);
    assert_eq!(fill_placeholder("a ${OPEN", "v"), "a ${OPEN");
    assert_eq!(next_placeholder("} ${}"), Some("".to_string()));
}
