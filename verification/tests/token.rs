use dockerfile_parser::token::{trim_blanks, unescape_text, unquote};
use dockerfile_parser::{
    CopyInstruction, Error, Instruction, InstructionFamily, Rule, RunInstruction, Span,
    SpannedString, Token,
};

fn leaf(rule: Rule, start: usize, end: usize, text: &str) -> Token {
    Token::new(rule, Span::new(start, end), text.to_string(), vec![])
}

fn text(start: usize, end: usize, content: &str) -> SpannedString {
    SpannedString { span: Span::new(start, end), content: content.to_string() }
}

#[test]
fn span_parts() {
    let span = Span::new(3, 9);
    assert_eq!(span, Span { start: 3, end: 9 });
    assert_eq!(span.at_start(), Span::new(3, 3));
    assert!(Span::new(4, 8).is_within(&span));
    assert!(span.is_within(&span));
    assert!(Span::new(3, 3).is_within(&span));
    assert!(!Span::new(2, 8).is_within(&span));
    assert!(!Span::new(4, 10).is_within(&span));
    assert_eq!(SpannedString::empty_at(span), text(3, 3, ""));
    assert_eq!(text(1, 2, "x").clone(), text(1, 2, "x"));
}

#[test]
fn decode_plain_text_is_unchanged() {
    let token = leaf(Rule::CopyPathspec, 5, 14, " \"a\\nb\"  ");
    assert_eq!(token.decode(), text(5, 14, " \"a\\nb\"  "));
    let token = leaf(Rule::HeredocBody, 0, 8, "  x\\n\n\t ");
    assert_eq!(token.decode(), text(0, 8, "  x\\n\n\t "));
    let token = leaf(Rule::HeredocTerminator, 0, 5, " EOF\n");
    assert_eq!(token.decode(), text(0, 5, " EOF\n"));
}

#[test]
fn decode_quoted_string() {
    let token = leaf(Rule::Quoted, 5, 18, "\"hello world\"");
    assert_eq!(token.decode(), text(5, 18, "hello world"));
    assert_eq!(unquote("\"\""), "");
    assert_eq!(unquote("\""), "");
    assert_eq!(unquote(""), "");
    assert_eq!(unquote("\"a"), "a");
    assert_eq!(unquote("a\""), "a");
    assert_eq!(unquote("plain"), "plain");
    assert_eq!(unquote("\"say \\\"hi\\\"\""), "say \"hi\"");
    assert_eq!(unquote("\"tab\\there\""), "tab\there");
    assert_eq!(unquote("\"line\\nbreak\\r\""), "line\nbreak\r");
    assert_eq!(unquote("\"back\\\\slash\""), "back\\slash");
    assert_eq!(unquote("\"\\q\""), "q");
    assert_eq!(unquote("\"h\u{e9}llo \u{1f600}\""), "h\u{e9}llo \u{1f600}");
}

#[test]
fn unescape_cases() {
    assert_eq!(unescape_text(""), "");
    assert_eq!(unescape_text("abc"), "abc");
    assert_eq!(unescape_text("\\"), "\\");
    assert_eq!(unescape_text("a\\"), "a\\");
    assert_eq!(unescape_text("\\\\"), "\\");
    assert_eq!(unescape_text("\\\\n"), "\\n");
    assert_eq!(unescape_text("\\n\\t\\r"), "\n\t\r");
    assert_eq!(unescape_text("\\\\\\n"), "\\\n");
    assert_eq!(unescape_text("\\'x\\'"), "'x'");
}

#[test]
fn decode_delimiter_trims_blanks() {
    let token = leaf(Rule::HeredocDelimiter, 7, 22, "   DELIMITER   ");
    assert_eq!(token.decode(), text(7, 22, "DELIMITER"));
    assert_eq!(trim_blanks("EOF"), "EOF");
    assert_eq!(trim_blanks("\t EOF"), "EOF");
    assert_eq!(trim_blanks("EOF \t"), "EOF");
    assert_eq!(trim_blanks(" A B "), "A B");
    assert_eq!(trim_blanks("   "), "");
    assert_eq!(trim_blanks(""), "");
    assert_eq!(trim_blanks(" EOF\n "), "EOF\n");
    assert_eq!(trim_blanks("\nEOF"), "\nEOF");
}

#[test]
fn token_ranges_consistent() {
    let child = |start, end| leaf(Rule::CopyPathspec, start, end, "");
    let parent = |children| Token::new(Rule::CopyStandard, Span::new(10, 20), String::new(), children);
    assert!(parent(vec![]).is_well_formed());
    assert!(parent(vec![child(10, 12), child(12, 12), child(12, 20)]).is_well_formed());
    assert!(parent(vec![child(20, 20)]).is_well_formed());
    // a child outside its parent
    assert!(!parent(vec![child(9, 12)]).is_well_formed());
    assert!(!parent(vec![child(15, 21)]).is_well_formed());
    // children that overlap or stand in the wrong order
    assert!(!parent(vec![child(10, 15), child(14, 18)]).is_well_formed());
    assert!(!parent(vec![child(15, 18), child(10, 12)]).is_well_formed());
    assert!(!parent(vec![child(10, 11), child(15, 18), child(12, 13)]).is_well_formed());
    // a range that ends before it starts
    assert!(!child(5, 4).is_well_formed());
    assert!(!parent(vec![child(15, 14)]).is_well_formed());
    // a fault further down
    let deep = Token::new(
        Rule::Copy,
        Span::new(0, 30),
        String::new(),
        vec![parent(vec![child(10, 12), child(11, 13)])],
    );
    assert!(!deep.is_well_formed());
}

#[test]
fn token_unexpected_names_kind_and_range() {
    let token = leaf(Rule::Comment, 3, 8, "# hey");
    assert_eq!(token.unexpected(), Error::UnexpectedToken { rule: Rule::Comment, span: Span::new(3, 8) });
    assert_eq!(
        Error::generic("missing run expression"),
        Error::GenericParseError { message: "missing run expression".to_string() }
    );
}

fn copy_of(src: &str) -> Instruction {
    let path = |start: usize, end: usize| leaf(Rule::CopyPathspec, start, end, &src[start..end]);
    let body = Token::new(
        Rule::CopyStandard,
        Span::new(4, 12),
        src[4..12].to_string(),
        vec![path(5, 8), path(9, 12)],
    );
    Instruction::from_record(&Token::new(Rule::Copy, Span::new(0, 12), src.to_string(), vec![body]))
        .unwrap()
}

fn run_of(src: &str) -> Instruction {
    let end = src.len();
    let piece = leaf(Rule::AnyContent, 4, end, &src[4..]);
    let text = Token::new(Rule::AnyBreakable, Span::new(4, end), src[4..].to_string(), vec![piece]);
    let shell = Token::new(Rule::RunShell, Span::new(4, end), src[4..].to_string(), vec![text]);
    Instruction::from_record(&Token::new(Rule::Run, Span::new(0, end), src.to_string(), vec![shell]))
        .unwrap()
}

#[test]
fn narrowing_a_copy_instruction() {
    let instruction = copy_of("copy foo bar");
    assert_eq!(instruction.family(), InstructionFamily::Copy);
    let copy = <&CopyInstruction>::try_from(&instruction).unwrap();
    assert_eq!(Instruction::Copy(copy.clone()), instruction);
    assert_eq!(instruction.as_copy(), Some(copy));
    assert_eq!(instruction.as_run(), None);
    assert_eq!(
        <&RunInstruction>::try_from(&instruction),
        Err(Error::ConversionError {
            from: "CopyInstruction".to_string(),
            to: "RunInstruction".to_string()
        })
    );
    assert_eq!(instruction.clone().into_run(), None);
    assert_eq!(instruction.clone().into_copy().as_ref(), Some(copy));
}

#[test]
fn narrowing_a_run_instruction() {
    let instruction = run_of("run echo hi");
    assert_eq!(instruction.family(), InstructionFamily::Run);
    let run = <&RunInstruction>::try_from(&instruction).unwrap();
    assert_eq!(Instruction::Run(run.clone()), instruction);
    assert_eq!(instruction.as_run(), Some(run));
    assert_eq!(instruction.as_copy(), None);
    assert_eq!(
        <&CopyInstruction>::try_from(&instruction),
        Err(Error::ConversionError {
            from: "RunInstruction".to_string(),
            to: "CopyInstruction".to_string()
        })
    );
    assert_eq!(
        instruction.conversion_error(InstructionFamily::Copy),
        Error::ConversionError {
            from: "RunInstruction".to_string(),
            to: "CopyInstruction".to_string()
        }
    );
    assert_eq!(instruction.clone().into_copy(), None);
    assert_eq!(instruction.clone().into_run().as_ref(), Some(run));
    assert_eq!(Instruction::from(run.clone()), instruction);
}
