use tapevm::parse::{parse, Instr, Span};

#[test]
fn simple() {
    let bf = ">+<++[-].";
    let src: Vec<u8> = bf.bytes().collect();
    let instrs = parse(&src).unwrap();
    let expected = vec![
        (Instr::Right, Span::single(0)),
        (Instr::Add, Span::single(1)),
        (Instr::Left, Span::single(2)),
        (Instr::Add, Span::single(3)),
        (Instr::Add, Span::single(4)),
        (
            Instr::Loop(vec![(Instr::Sub, Span::single(6))]),
            Span::start_end_incl(5, 7),
        ),
        (Instr::Out, Span::single(8)),
    ];
    assert_eq!(instrs, expected);
}

#[test]
fn nested_loop() {
    let bf = "+[-[-[-]]+>>>]";
    let src: Vec<u8> = bf.bytes().collect();
    let instrs = parse(&src).unwrap();
    let innermost = vec![(Instr::Sub, Span::single(6))];
    let middle = vec![
        (Instr::Sub, Span::single(4)),
        (Instr::Loop(innermost), Span::start_end_incl(5, 7)),
    ];
    let outer = vec![
        (Instr::Sub, Span::single(2)),
        (Instr::Loop(middle), Span::start_end_incl(3, 8)),
        (Instr::Add, Span::single(9)),
        (Instr::Right, Span::single(10)),
        (Instr::Right, Span::single(11)),
        (Instr::Right, Span::single(12)),
    ];
    let expected = vec![
        (Instr::Add, Span::single(0)),
        (Instr::Loop(outer), Span::start_end_incl(1, 13)),
    ];
    assert_eq!(instrs, expected);
}

#[test]
fn unterminated_loop_fails() {
    let src = b"[".to_vec();
    assert!(parse(&src).is_err());
}

#[test]
fn bare_close_fails() {
    let src = b"]".to_vec();
    assert!(parse(&src).is_err());
}

#[test]
fn empty_loop_parses() {
    let src = b"[]".to_vec();
    let instrs = parse(&src).unwrap();
    let expected = vec![(Instr::Loop(vec![]), Span::start_end_incl(0, 1))];
    assert_eq!(instrs, expected);
}

#[test]
fn depth_bound_rejects_1001() {
    let src = vec![b'['; 1001];
    assert!(parse(&src).is_err());
}

#[test]
fn depth_bound_accepts_1000() {
    let mut src = vec![b'['; 1000];
    src.extend(vec![b']'; 1000]);
    assert!(parse(&src).is_ok());
}

#[test]
fn comment_bytes_are_ignored() {
    let src = b"hello + world".to_vec();
    let instrs = parse(&src).unwrap();
    let expected = vec![(Instr::Add, Span::single(6))];
    assert_eq!(instrs, expected);
}

#[test]
fn span_accessors() {
    let s = Span::start_end(3, 10);
    assert_eq!(s.start(), 3);
    assert_eq!(s.len(), 7);
    assert_eq!(s.end(), 10);
}

#[test]
fn span_merge_covers_both() {
    let a = Span::start_end(2, 5);
    let b = Span::start_end(4, 9);
    let m = a.merge(b);
    assert_eq!(m.start(), 2);
    assert_eq!(m.end(), 9);
}

#[test]
fn span_until() {
    let a = Span::start_end(2, 5);
    let b = Span::start_end(6, 9);
    let u = a.until(b);
    assert_eq!(u.start(), 2);
    assert_eq!(u.len(), 6);
}
