use dockerfile_parser::{BreakableString, Fragment, FragmentKind, Span};

#[test]
fn breakable_effective_text_leaves_comments_out() {
    let text = BreakableString::new(Span::new(0, 10))
        .add_literal(Span::new(0, 1), "a")
        .add_comment(Span::new(3, 6), "# x")
        .add_literal(Span::new(9, 10), "b");
    assert_eq!(text.effective_text(), "ab");
    assert_eq!(
        text.fragments,
        vec![
            Fragment { span: Span::new(0, 1), kind: FragmentKind::Literal, text: "a".to_string() },
            Fragment { span: Span::new(3, 6), kind: FragmentKind::Comment, text: "# x".to_string() },
            Fragment { span: Span::new(9, 10), kind: FragmentKind::Literal, text: "b".to_string() },
        ]
    );
    assert_eq!(text.span, Span::new(0, 10));
}

#[test]
fn breakable_empty() {
    let text = BreakableString::new(Span::new(4, 4));
    assert_eq!(text.effective_text(), "");
    assert!(text.fragments.is_empty());
    assert_eq!(text.span, Span::new(4, 4));
}

#[test]
fn breakable_only_comments() {
    let text = BreakableString::new(Span::new(0, 20))
        .add_comment(Span::new(0, 5), "# one")
        .add_comment(Span::new(6, 11), "# two");
    assert_eq!(text.effective_text(), "");
    assert_eq!(text.fragments.len(), 2);
}

#[test]
fn breakable_keeps_blanks_and_backslashes() {
    let text = BreakableString::new(Span::new(0, 30))
        .add_literal(Span::new(0, 8), "  echo \\")
        .add_literal(Span::new(10, 16), "\t a  b");
    assert_eq!(text.effective_text(), "  echo \\\t a  b");
}

#[test]
fn breakable_single_line() {
    let text = BreakableString::new(Span::new(4, 11)).add_literal(Span::new(4, 11), "echo hi");
    assert_eq!(text.fragments.len(), 1);
    assert_eq!(text.fragments[0].span, text.span);
    assert_eq!(text.effective_text(), "echo hi");
}

#[test]
fn breakable_equality_is_structural() {
    let one = BreakableString::new(Span::new(0, 5)).add_literal(Span::new(0, 5), "hello");
    let same = BreakableString::new(Span::new(0, 5)).add_literal(Span::new(0, 5), "hello");
    assert_eq!(one, same);
    assert_ne!(one, BreakableString::new(Span::new(0, 6)).add_literal(Span::new(0, 5), "hello"));
    assert_ne!(one, BreakableString::new(Span::new(0, 5)).add_literal(Span::new(1, 5), "hello"));
    assert_ne!(one, BreakableString::new(Span::new(0, 5)).add_comment(Span::new(0, 5), "hello"));
    assert_ne!(one, same.add_comment(Span::new(5, 5), ""));
}

#[test]
fn breakable_many_fragments() {
    let mut text = BreakableString::new(Span::new(0, 3000));
    let mut expected = String::new();
    for i in 0..1000 {
        text = text.add_literal(Span::new(3 * i, 3 * i + 1), "x");
        text = text.add_comment(Span::new(3 * i + 1, 3 * i + 3), "#c");
        expected.push('x');
    }
    assert_eq!(text.fragments.len(), 2000);
    assert_eq!(text.effective_text(), expected);
}
