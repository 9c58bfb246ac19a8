use dockerfile_parser::{Error, HeredocMatcher, InstructionFamily, Span, SpannedString};

fn text(start: usize, end: usize, content: &str) -> SpannedString {
    SpannedString { span: Span::new(start, end), content: content.to_string() }
}

/// A matcher in which the given delimiters are open, in this order.
fn opened(delimiters: &[&str]) -> HeredocMatcher {
    let mut matcher = HeredocMatcher::new(InstructionFamily::Copy);
    for (i, delimiter) in delimiters.iter().enumerate() {
        matcher.open(text(10 * i, 10 * i + delimiter.len(), delimiter));
    }
    matcher
}

#[test]
fn matcher_starts_empty() {
    let matcher = HeredocMatcher::new(InstructionFamily::Run);
    assert!(!matcher.is_open());
    assert_eq!(matcher.finish(), Ok(()));
}

#[test]
fn matcher_closes_oldest_first() {
    let mut matcher = opened(&["A", "B", "C"]);
    assert!(matcher.is_open());
    assert_eq!(matcher.close(&text(100, 102, "A\n")), Ok(text(0, 1, "A")));
    assert_eq!(matcher.close(&text(110, 112, "B\n")), Ok(text(10, 11, "B")));
    assert!(matcher.is_open());
    assert_eq!(matcher.close(&text(120, 122, "C\n")), Ok(text(20, 21, "C")));
    assert!(!matcher.is_open());
    assert_eq!(matcher.finish(), Ok(()));
}

#[test]
fn matcher_rejects_reversed_terminators() {
    let mut matcher = opened(&["A", "B"]);
    assert_eq!(
        matcher.close(&text(100, 102, "B\n")),
        Err(Error::HeredocTerminatorMismatch {
            instruction: InstructionFamily::Copy,
            delimiter: text(0, 1, "A"),
            terminator: text(100, 102, "B\n"),
        })
    );
    // the delimiter that was tried has left the queue
    assert_eq!(
        matcher.finish(),
        Err(Error::UnmatchedHeredocDelimiter { delimiter: text(10, 11, "B") })
    );
}

#[test]
fn matcher_same_delimiter_twice() {
    // delimiters that read the same both ways close in either order
    let mut matcher = opened(&["EOF", "EOF"]);
    assert_eq!(matcher.close(&text(100, 104, "EOF\n")), Ok(text(0, 3, "EOF")));
    assert_eq!(matcher.close(&text(110, 114, "EOF\n")), Ok(text(10, 13, "EOF")));
    assert_eq!(matcher.finish(), Ok(()));
}

#[test]
fn matcher_terminator_is_exact() {
    for wrong in ["eof\n", "EOF", "EOF \n", " EOF\n", "EOF\n\n", "EOF\r\n", "", "\n", "EO\n"] {
        let mut matcher = opened(&["EOF"]);
        assert_eq!(
            matcher.close(&text(50, 50 + wrong.len(), wrong)),
            Err(Error::HeredocTerminatorMismatch {
                instruction: InstructionFamily::Copy,
                delimiter: text(0, 3, "EOF"),
                terminator: text(50, 50 + wrong.len(), wrong),
            }),
            "terminator {:?}",
            wrong
        );
    }
    let mut matcher = opened(&["EOF"]);
    assert_eq!(matcher.close(&text(50, 54, "EOF\n")), Ok(text(0, 3, "EOF")));
}

#[test]
fn matcher_terminator_without_delimiter() {
    let mut matcher = HeredocMatcher::new(InstructionFamily::Run);
    assert_eq!(
        matcher.close(&text(5, 9, "EOF\n")),
        Err(Error::UnmatchedHeredocTerminator { terminator: text(5, 9, "EOF\n") })
    );
    assert_eq!(matcher.finish(), Ok(()));

    let mut matcher = opened(&["EOF"]);
    assert_eq!(matcher.close(&text(5, 9, "EOF\n")), Ok(text(0, 3, "EOF")));
    assert_eq!(
        matcher.close(&text(15, 19, "EOF\n")),
        Err(Error::UnmatchedHeredocTerminator { terminator: text(15, 19, "EOF\n") })
    );
}

#[test]
fn matcher_delimiter_left_open() {
    let matcher = opened(&["ONE", "TWO"]);
    assert_eq!(
        matcher.finish(),
        Err(Error::UnmatchedHeredocDelimiter { delimiter: text(0, 3, "ONE") })
    );
}

#[test]
fn matcher_names_its_instruction() {
    let mut matcher = HeredocMatcher::new(InstructionFamily::Run);
    matcher.open(text(0, 3, "EOF"));
    assert_eq!(
        matcher.close(&text(5, 9, "END\n")),
        Err(Error::HeredocTerminatorMismatch {
            instruction: InstructionFamily::Run,
            delimiter: text(0, 3, "EOF"),
            terminator: text(5, 9, "END\n"),
        })
    );
}
