use orma::platform::asker::{confirmed, piped_answer, AskVia, Rehearsal};

#[test]
fn a_way_to_ask_is_known_by_its_name() {
    assert_eq!("tty".parse::<AskVia>(), Ok(AskVia::Tty));
    assert_eq!("stdin".parse::<AskVia>(), Ok(AskVia::Stdin));
    assert_eq!(
        "systemd-ask-password".parse::<AskVia>(),
        Ok(AskVia::SystemdAskPassword)
    );
    assert_eq!(
        "carrier-pigeon".parse::<AskVia>(),
        Err("unknown way to ask 'carrier-pigeon', expected 'tty', 'stdin' or \
             'systemd-ask-password'"
            .to_owned())
    );
}

#[test]
fn the_terminal_is_asked_unless_told_otherwise() {
    assert_eq!(AskVia::default(), AskVia::Tty);
}

#[test]
fn only_piped_answers_go_unconfirmed() {
    assert!(AskVia::Tty.is_subject_to_typos());
    assert!(AskVia::SystemdAskPassword.is_subject_to_typos());
    assert!(!AskVia::Stdin.is_subject_to_typos());
}

#[test]
fn a_piped_line_answers_without_its_line_end() {
    assert_eq!(piped_answer("hunter2\n"), Some("hunter2".to_owned()));
    assert_eq!(piped_answer("pässword\r\n"), Some("pässword".to_owned()));
    assert_eq!(piped_answer("two words"), Some("two words".to_owned()));
    assert_eq!(piped_answer("\n"), None);
    assert_eq!(piped_answer(""), None);
}

#[test]
fn rehearsed_answers_are_given_in_the_order_read() {
    let mut rehearsal = Rehearsal::new();
    rehearsal.keep("first".to_owned());
    rehearsal.keep("second".to_owned());
    assert_eq!(rehearsal.next_answer(), Some("first".to_owned()));
    rehearsal.keep("third".to_owned());
    assert_eq!(rehearsal.next_answer(), Some("second".to_owned()));
    assert_eq!(rehearsal.next_answer(), Some("third".to_owned()));
    assert_eq!(rehearsal.next_answer(), None);
}

#[test]
fn an_answer_is_kept_only_when_confirmed() {
    assert_eq!(confirmed("hunter2".to_owned(), "hunter2"), Some("hunter2".to_owned()));
    assert_eq!(confirmed("hunter2".to_owned(), "hunter3"), None);
}
