use phosk_pages::calls::{candidate_error_text, error_text, signal_action_error_text, CallError};

#[test]
fn server_messages_pass_through_and_transport_errors_stay_generic() {
    let server = CallError::Server("Cap must be a CHF amount".to_string());
    assert_eq!(error_text(&server), "Cap must be a CHF amount");
    assert_eq!(
        error_text(&CallError::Transport),
        "Could not reach the server. Refresh to see the current state."
    );
    assert_eq!(candidate_error_text(&server), "Cap must be a CHF amount");
    assert_eq!(signal_action_error_text(&server), "Cap must be a CHF amount");
    assert_eq!(
        signal_action_error_text(&CallError::Server(String::new())),
        "could not reach the server, try again"
    );
    assert_eq!(
        signal_action_error_text(&CallError::Transport),
        "could not reach the server, try again"
    );
}
