use site::command::{ClientWSCommand, ServerWSCommand};

fn payload(cmd: &ClientWSCommand) -> Option<String> {
    match cmd {
        ClientWSCommand::Log(p) | ClientWSCommand::Response(p) | ClientWSCommand::Discord(p) => {
            p.clone()
        }
    }
}

#[test]
fn log_with_text_keeps_the_rest_as_payload() {
    let cmd = ClientWSCommand::new("Log hello world").ok().unwrap();
    assert!(matches!(cmd, ClientWSCommand::Log(_)));
    assert_eq!(payload(&cmd), Some("hello world".to_string()));
}

#[test]
fn log_alone_has_no_payload() {
    let cmd = ClientWSCommand::new("Log").ok().unwrap();
    assert!(matches!(cmd, ClientWSCommand::Log(None)));
}

#[test]
fn unknown_verb_is_an_error() {
    assert!(ClientWSCommand::new("Bogus verb").is_err());
    assert!(ClientWSCommand::new("Bogus").is_err());
    assert!(ClientWSCommand::new("").is_err());
    assert!(ClientWSCommand::new("log lowercase").is_err());
    assert!(ClientWSCommand::new(" Log").is_err());
}

#[test]
fn every_verb_parses() {
    let r = ClientWSCommand::new("Response 42").ok().unwrap();
    assert!(matches!(r, ClientWSCommand::Response(_)));
    assert_eq!(payload(&r), Some("42".to_string()));
    let d = ClientWSCommand::new("Discord").ok().unwrap();
    assert!(matches!(d, ClientWSCommand::Discord(None)));
}

#[test]
fn payload_after_first_space_only() {
    let cmd = ClientWSCommand::new("Log  two  spaces ").ok().unwrap();
    assert_eq!(payload(&cmd), Some(" two  spaces ".to_string()));
    let empty = ClientWSCommand::new("Log ").ok().unwrap();
    assert_eq!(payload(&empty), Some(String::new()));
}

#[test]
fn verbs_round_trip_through_as_str() {
    for text in ["Log", "Response", "Discord"] {
        let cmd = ClientWSCommand::new(text).ok().unwrap();
        assert_eq!(cmd.as_str(), text);
    }
    assert_eq!(ServerWSCommand::Update.as_str(), "Update");
    assert_eq!(ServerWSCommand::About.as_str(), "About");
    assert_eq!(ServerWSCommand::Response.as_str(), "Response");
}
