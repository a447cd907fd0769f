use tapevm::opts::{
    ast_to_ir, optimize, pass_add_sub_offset, pass_cancel_left_right_add_sub, pass_find_set_null,
    pass_group, pass_move_add_to, pass_set_n, window_pass, Ir, Stmt, StmtKind, WindowKind,
};
use tapevm::parse::{parse, Span};

#[test]
fn zero_loop_becomes_set_null() {
    let src = b"[-]".to_vec();
    let ast = parse(&src).unwrap();
    let ir = optimize(ast.as_slice());
    assert_eq!(ir.stmts.len(), 1);
    assert!(matches!(ir.stmts[0].kind, StmtKind::SetN(0)));
}

#[test]
fn move_loop_becomes_move_add_to() {
    let src = b"[->+<]".to_vec();
    let ast = parse(&src).unwrap();
    let ir = optimize(ast.as_slice());
    assert_eq!(ir.stmts.len(), 1);
    assert!(matches!(ir.stmts[0].kind, StmtKind::MoveAddTo { offset: 1 }));
}

#[test]
fn pointer_excursion_becomes_offset_add() {
    let src = b">+<".to_vec();
    let ast = parse(&src).unwrap();
    let ir = optimize(ast.as_slice());
    assert_eq!(ir.stmts.len(), 1);
    assert!(matches!(ir.stmts[0].kind, StmtKind::Add(1, 1)));
}

#[test]
fn grouping_coalesces_runs() {
    let src = b"++>><<--".to_vec();
    let ast = parse(&src).unwrap();
    let mut ir = ast_to_ir(ast.as_slice());
    pass_group(&mut ir);
    let expected = Ir {
        stmts: vec![
            Stmt::new(StmtKind::Add(0, 2), Span::start_end(0, 2)),
            Stmt::new(StmtKind::Right(2), Span::start_end(2, 4)),
            Stmt::new(StmtKind::Left(2), Span::start_end(4, 6)),
            Stmt::new(StmtKind::Sub(0, 2), Span::start_end(6, 8)),
        ],
    };
    assert_eq!(ir, expected);
}

#[test]
fn grouping_twice_equals_grouping_once() {
    let src = b"+++[->>++<<]--".to_vec();
    let ast = parse(&src).unwrap();
    let mut ir = ast_to_ir(ast.as_slice());
    pass_group(&mut ir);
    let once = format!("{:?}", ir);
    pass_group(&mut ir);
    let twice = format!("{:?}", ir);
    assert_eq!(once, twice);
}

#[test]
fn grouping_stops_at_255() {
    let src = vec![b'+'; 300];
    let ast = parse(&src).unwrap();
    let mut ir = ast_to_ir(ast.as_slice());
    pass_group(&mut ir);
    assert_eq!(ir.stmts.len(), 2);
    assert!(matches!(ir.stmts[0].kind, StmtKind::Add(0, 255)));
    assert!(matches!(ir.stmts[1].kind, StmtKind::Add(0, 45)));
}

#[test]
fn cancel_leaves_net_move() {
    let src = b">>><<".to_vec();
    let ast = parse(&src).unwrap();
    let ir = optimize(ast.as_slice());
    assert_eq!(ir.stmts.len(), 1);
    assert!(matches!(ir.stmts[0].kind, StmtKind::Right(1)));
}

#[test]
fn set_n_folds_following_adds() {
    let src = b"[-]+++".to_vec();
    let ast = parse(&src).unwrap();
    let ir = optimize(ast.as_slice());
    assert_eq!(ir.stmts.len(), 1);
    assert!(matches!(ir.stmts[0].kind, StmtKind::SetN(3)));
}

#[test]
fn cancel_pass_nets_unequal_moves() {
    let mut ir = Ir {
        stmts: vec![
            Stmt::new(StmtKind::Left(5), Span::single(0)),
            Stmt::new(StmtKind::Right(3), Span::single(1)),
        ],
    };
    pass_cancel_left_right_add_sub(&mut ir);
    assert_eq!(ir.stmts.len(), 1);
    assert!(matches!(ir.stmts[0].kind, StmtKind::Left(2)));
}

#[test]
fn cancel_pass_removes_equal_moves() {
    let mut ir = Ir {
        stmts: vec![
            Stmt::new(StmtKind::Right(4), Span::single(0)),
            Stmt::new(StmtKind::Left(4), Span::single(1)),
        ],
    };
    window_pass(&mut ir, WindowKind::CancelLeftRightAddSub);
    assert_eq!(ir.stmts.len(), 0);
}

#[test]
fn offset_pass_rewrites_excursion() {
    let mut ir = Ir {
        stmts: vec![
            Stmt::new(StmtKind::Right(9), Span::single(0)),
            Stmt::new(StmtKind::Add(0, 5), Span::single(1)),
            Stmt::new(StmtKind::Left(9), Span::single(2)),
        ],
    };
    pass_add_sub_offset(&mut ir);
    assert_eq!(ir.stmts.len(), 1);
    assert!(matches!(ir.stmts[0].kind, StmtKind::Add(9, 5)));
}

#[test]
fn offset_pass_mirrored_gives_negative_offset() {
    let mut ir = Ir {
        stmts: vec![
            Stmt::new(StmtKind::Left(2), Span::single(0)),
            Stmt::new(StmtKind::Sub(0, 7), Span::single(1)),
            Stmt::new(StmtKind::Right(2), Span::single(2)),
        ],
    };
    pass_add_sub_offset(&mut ir);
    assert_eq!(ir.stmts.len(), 1);
    assert!(matches!(ir.stmts[0].kind, StmtKind::Sub(-2, 7)));
}

#[test]
fn set_n_pass_folds_sub() {
    let mut ir = Ir {
        stmts: vec![
            Stmt::new(StmtKind::SetN(3), Span::single(0)),
            Stmt::new(StmtKind::Sub(0, 5), Span::single(1)),
        ],
    };
    pass_set_n(&mut ir);
    assert_eq!(ir.stmts.len(), 1);
    assert!(matches!(ir.stmts[0].kind, StmtKind::SetN(254)));
}

#[test]
fn find_set_null_reaches_nested_loops() {
    let inner = Ir {
        stmts: vec![Stmt::new(StmtKind::Sub(0, 1), Span::single(2))],
    };
    let body = Ir {
        stmts: vec![
            Stmt::new(StmtKind::Out, Span::single(1)),
            Stmt::new(StmtKind::Loop(inner), Span::start_end_incl(2, 3)),
        ],
    };
    let mut ir = Ir {
        stmts: vec![Stmt::new(StmtKind::Loop(body), Span::start_end_incl(0, 4))],
    };
    pass_find_set_null(&mut ir);
    assert_eq!(ir.stmts.len(), 1);
    match &ir.stmts[0].kind {
        StmtKind::Loop(outer_body) => {
            assert!(matches!(outer_body.stmts[0].kind, StmtKind::Out));
            assert!(matches!(outer_body.stmts[1].kind, StmtKind::SetN(0)));
        }
        other => panic!("expected a loop, got {:?}", other),
    }
}

#[test]
fn move_add_recognized_in_either_order() {
    let body = Ir {
        stmts: vec![
            Stmt::new(StmtKind::Add(3, 1), Span::single(1)),
            Stmt::new(StmtKind::Sub(0, 1), Span::single(2)),
        ],
    };
    let mut ir = Ir {
        stmts: vec![Stmt::new(StmtKind::Loop(body), Span::start_end_incl(0, 3))],
    };
    pass_move_add_to(&mut ir);
    assert_eq!(ir.stmts.len(), 1);
    assert!(matches!(ir.stmts[0].kind, StmtKind::MoveAddTo { offset: 3 }));
}

#[test]
fn unrecognized_patterns_pass_through() {
    let src = b".,".to_vec();
    let ast = parse(&src).unwrap();
    let ir = optimize(ast.as_slice());
    assert_eq!(ir.stmts.len(), 2);
    assert!(matches!(ir.stmts[0].kind, StmtKind::Out));
    assert!(matches!(ir.stmts[1].kind, StmtKind::In));
}
