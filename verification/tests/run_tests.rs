use tapevm::compile;
use tapevm::interp::{run, step, Machine, RunStatus, StepEffect, MEM_SIZE};
use tapevm::lir::{lower, Lir, Stmt};
use tapevm::opts::{ast_to_ir, optimize};
use tapevm::parse::parse;

#[test]
fn wraparound_arithmetic() {
    // one Sub on a zero cell wraps to 255
    let code = Lir {
        stmts: vec![Stmt::Sub(1), Stmt::End],
    };
    let mut m = Machine::new();
    let eff = step(&mut m, &code, None);
    assert!(matches!(eff, StepEffect::Ran));
    assert_eq!(m.tape[0], 255u8);
    // one Add on a cell holding 255 wraps to 0
    let code2 = Lir {
        stmts: vec![Stmt::Add(1), Stmt::End],
    };
    m.ip = 0;
    let eff2 = step(&mut m, &code2, None);
    assert!(matches!(eff2, StepEffect::Ran));
    assert_eq!(m.tape[0], 0u8);
}

#[test]
fn cursor_wraps_right_to_zero() {
    let code = Lir {
        stmts: vec![Stmt::Right(1), Stmt::End],
    };
    let mut m = Machine::new();
    m.ptr = MEM_SIZE - 1;
    let eff = step(&mut m, &code, None);
    assert!(matches!(eff, StepEffect::Ran));
    assert_eq!(m.ptr, 0);
}

#[test]
fn cursor_wraps_left_with_deficit_from_top() {
    // moving left past index 0 lands at MEM_SIZE - 1 - (n - cursor)
    let code = Lir {
        stmts: vec![Stmt::Left(1), Stmt::End],
    };
    let mut m = Machine::new();
    let eff = step(&mut m, &code, None);
    assert!(matches!(eff, StepEffect::Ran));
    assert_eq!(m.ptr, MEM_SIZE - 2);
}

#[test]
fn cursor_moves_without_wrap() {
    let code = Lir {
        stmts: vec![Stmt::Right(5), Stmt::Left(2), Stmt::End],
    };
    let mut m = Machine::new();
    let _ = step(&mut m, &code, None);
    assert_eq!(m.ptr, 5);
    let _ = step(&mut m, &code, None);
    assert_eq!(m.ptr, 3);
}

#[test]
fn hello_end_to_end() {
    // repeated Add/Out sequences emitting the bytes of "HELLO!"
    let mut src: Vec<u8> = Vec::new();
    src.extend(vec![b'+'; 72]); // 'H'
    src.push(b'.');
    src.extend(vec![b'-'; 3]); // 'E'
    src.push(b'.');
    src.extend(vec![b'+'; 7]); // 'L'
    src.push(b'.');
    src.push(b'.'); // 'L'
    src.extend(vec![b'+'; 3]); // 'O'
    src.push(b'.');
    src.extend(vec![b'-'; 46]); // '!'
    src.push(b'.');
    let code = compile(&src).unwrap();
    let r = run(&code, &vec![], 1_000_000);
    assert_eq!(r.output, b"HELLO!".to_vec());
    assert_eq!(r.flushes, 6);
    assert!(matches!(r.status, RunStatus::Done));
}

#[test]
fn input_byte_is_stored() {
    let src = b",.".to_vec();
    let code = compile(&src).unwrap();
    let r = run(&code, &vec![42u8], 100);
    assert_eq!(r.output, vec![42u8]);
    assert!(matches!(r.status, RunStatus::Done));
}

#[test]
fn exhausted_input_fails_the_run() {
    let src = b",".to_vec();
    let code = compile(&src).unwrap();
    let r = run(&code, &vec![], 100);
    assert!(matches!(r.status, RunStatus::InputFailed));
    assert_eq!(r.output.len(), 0);
}

#[test]
fn fuel_bound_stops_infinite_loop() {
    let src = b"+[]".to_vec();
    let code = compile(&src).unwrap();
    let r = run(&code, &vec![], 1000);
    assert!(matches!(r.status, RunStatus::OutOfFuel));
}

#[test]
fn parse_failure_propagates_through_compile() {
    let src = b"[[]".to_vec();
    assert!(compile(&src).is_err());
}

#[test]
fn optimized_and_unoptimized_agree_on_output() {
    let programs: Vec<(Vec<u8>, Vec<u8>)> = vec![
        (b"++++[->++<]>.".to_vec(), vec![]),
        (b",[->+<]>.".to_vec(), vec![7u8]),
        (b"[-]+++.>+<.".to_vec(), vec![]),
        (b"+++>++[-<.>]".to_vec(), vec![]),
    ];
    for (src, input) in programs {
        let ast = parse(&src).unwrap();
        let plain = lower(&ast_to_ir(ast.as_slice()));
        let opt_ir = optimize(ast.as_slice());
        let optimized = lower(&opt_ir);
        let r1 = run(&plain, &input, 1_000_000);
        let r2 = run(&optimized, &input, 1_000_000);
        assert_eq!(r1.output, r2.output);
        assert_eq!(r1.status, r2.status);
    }
}

#[test]
fn jumps_skip_or_repeat_loops() {
    // a loop on a zero cell is skipped entirely
    let src = b"[.]+++.".to_vec();
    let code = compile(&src).unwrap();
    let r = run(&code, &vec![], 1000);
    assert_eq!(r.output, vec![3u8]);
    // a countdown loop runs its body as often as the cell holds
    let src2 = b"+++[.-]".to_vec();
    let code2 = compile(&src2).unwrap();
    let r2 = run(&code2, &vec![], 1000);
    assert_eq!(r2.output, vec![3u8, 2u8, 1u8]);
}
