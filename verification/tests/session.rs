//! Tests of the transport decisions, the frame boundaries and the
//! add-word commands.

use ispell::{
    add_word_command, add_word_persist_commands, check_command, frame_complete, frame_result,
    handshake, Error, ErrorType, ReadEvent,
};

#[test]
fn handshake_accepts_version_banner() {
    assert!(handshake("@(#) International Ispell Version 3.1.20").is_ok());
}

#[test]
fn handshake_rejects_other_first_frames() {
    // Session construction must fail with a protocol error when the
    // first frame does not begin with `@`.
    let r = handshake("International Ispell Version 3.1.20");
    assert!(matches!(r, Err(e) if e.variant == ErrorType::Protocol));
    let r = handshake("");
    assert!(matches!(r, Err(e) if e.variant == ErrorType::Protocol));
}

#[test]
fn frame_result_hands_a_frame_through() {
    assert_eq!(
        frame_result(ReadEvent::Frame("*\n\n".to_string())).unwrap(),
        "*\n\n"
    );
}

#[test]
fn frame_result_propagates_a_relay_failure() {
    let r = frame_result(ReadEvent::Failed(Error::process("broken pipe")));
    match r {
        Err(e) => {
            assert_eq!(e.variant, ErrorType::Process);
            assert_eq!(e.msg, "broken pipe");
        },
        Ok(_) => panic!("a relay failure must be propagated"),
    }
}

#[test]
fn frame_result_timeout_is_a_process_error() {
    // No output within the configured timeout: the pending call fails
    // with a process error; nothing panics and nothing hangs.
    let r = frame_result(ReadEvent::TimedOut);
    assert!(matches!(r, Err(e) if e.variant == ErrorType::Process));
}

#[test]
fn frame_complete_boundaries() {
    assert!(frame_complete("hello\n\n"));
    assert!(frame_complete("\n"));
    assert!(frame_complete("@banner"));
    assert!(!frame_complete("hello\n"));
    assert!(!frame_complete(""));
    assert!(!frame_complete("a\nb"));
}

#[test]
fn check_command_escapes_the_line() {
    assert_eq!(check_command("hello world"), "^hello world\n");
    assert_eq!(check_command(""), "^\n");
}

#[test]
fn add_word_session_command() {
    assert_eq!(add_word_command("foobar").unwrap(), "@foobar\n");
}

#[test]
fn add_word_rejects_spaces() {
    let r = add_word_command("foo bar");
    assert!(matches!(r, Err(e) if e.variant == ErrorType::InvalidWord));
}

#[test]
fn add_word_rejects_digits() {
    let r = add_word_command("foo2");
    assert!(matches!(r, Err(e) if e.variant == ErrorType::InvalidWord));
}

#[test]
fn add_word_persist_commands_pair() {
    let (accept, save) = add_word_persist_commands("foobar").unwrap();
    assert_eq!(accept, "*foobar\n");
    assert_eq!(save, "#\n");
}

#[test]
fn add_word_persist_rejects_non_alphabetic() {
    let r = add_word_persist_commands("foo bar");
    assert!(matches!(r, Err(e) if e.variant == ErrorType::InvalidWord));
    let r = add_word_persist_commands("foo2");
    assert!(matches!(r, Err(e) if e.variant == ErrorType::InvalidWord));
}

#[test]
fn add_word_accepts_accented_letters() {
    assert_eq!(add_word_command("café").unwrap(), "@café\n");
}

#[test]
fn error_constructors_classify() {
    assert_eq!(Error::new("m").variant, ErrorType::Default);
    assert_eq!(Error::process("m").variant, ErrorType::Process);
    assert_eq!(Error::utf8("m").variant, ErrorType::Utf8);
    assert_eq!(Error::protocol("m").variant, ErrorType::Protocol);
    assert_eq!(Error::invalid_word("m").variant, ErrorType::InvalidWord);
    assert_eq!(Error::new("some message").msg, "some message");
    assert_eq!(Error::new("some message").message(), "some message");
}
