use aeon_bridge::bridge::{complete, dispatch, response, BridgeAction, BridgeMessage};

fn message(path: &str, data: &str, id: &str) -> BridgeMessage {
    BridgeMessage { path: path.to_string(), data: data.to_string(), request_id: id.to_string() }
}

#[test]
fn alert_answers_true_with_its_request_id() {
    let action = dispatch("/core", message("/core/dialogs/alert", "hello", "42"));
    match &action {
        BridgeAction::Alert { text, request_id } => {
            assert_eq!(text, "hello");
            assert_eq!(request_id, "42");
        }
        _ => panic!("not an alert"),
    }
    let script = complete(&action, false).unwrap();
    assert_eq!(script, "window.native_bridge.respond(\"42\", { result:true });");
}

#[test]
fn confirm_answers_the_choice() {
    let action = dispatch("/core", message("/core/dialogs/confirm", "sure?", "7"));
    assert!(matches!(action, BridgeAction::Confirm { .. }));
    assert_eq!(
        complete(&action, false).unwrap(),
        "window.native_bridge.respond(\"7\", { result:false });"
    );
    assert_eq!(
        complete(&action, true).unwrap(),
        "window.native_bridge.respond(\"7\", { result:true });"
    );
}

#[test]
fn unknown_path_gets_no_answer() {
    let action = dispatch("/core", message("/unknown", "x", "1"));
    assert!(matches!(action, BridgeAction::Ignore));
    assert!(complete(&action, true).is_none());
    let other = dispatch("/core", message("/core/dialogs/alert/", "x", "1"));
    assert!(matches!(other, BridgeAction::Ignore));
}

#[test]
fn response_keeps_the_id_verbatim() {
    assert_eq!(response("a b", true), "window.native_bridge.respond(\"a b\", { result:true });");
}

#[test]
fn response_escapes_the_id() {
    assert_eq!(
        response("x\"); alert(1); (\"\\\n\u{2028}", false),
        "window.native_bridge.respond(\"x\\\"); alert(1); (\\\"\\\\\\u000a\\u2028\", { result:false });"
    );
}
