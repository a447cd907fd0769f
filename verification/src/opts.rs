//! The optimizer: lowers the syntax tree into a flat per-block statement
//! list, then rewrites that list with a fixed ordered chain of peephole
//! passes. Every pass leaves a statement run unchanged unless its pattern
//! matches exactly, so each pass is a safe no-op on unrecognized input.
use vstd::prelude::*;

use crate::parse::{ast_view, ast_wf, instr_view, item_wf, Instr, InstrV, Span};

verus! {

/// A flat block of optimizer statements.
#[derive(Debug, PartialEq, Eq)]
pub struct Ir {
    pub stmts: Vec<Stmt>,
}

/// One optimizer statement: a rewrite-friendly instruction plus the source
/// span it came from, kept merged through every rewrite.
#[derive(Debug, PartialEq, Eq)]
pub struct Stmt {
    pub kind: StmtKind,
    pub span: Span,
}

impl Stmt {
    pub fn new(kind: StmtKind, span: Span) -> (s: Stmt)
        ensures
            s.kind == kind,
            s.span == span,
    {
        Stmt { kind, span }
    }

    pub fn kind(&self) -> (k: &StmtKind)
        ensures
            k == &self.kind,
    {
        &self.kind
    }
}

/// The statement alphabet of the flat intermediate representation. An
/// `offset` of 0 means the cell under the pointer; a nonzero offset means a
/// temporary pointer excursion that cancels before the next statement.
#[derive(Debug, PartialEq, Eq)]
pub enum StmtKind {
    Add(i32, u8),
    Sub(i32, u8),
    /// Sets the current cell to 0 and adds that value of the cell to another
    /// cell at `offset`.
    MoveAddTo { offset: i32 },
    Right(usize),
    Left(usize),
    Loop(Ir),
    Out,
    In,
    SetN(u8),
}

/// Mathematical shape of one statement.
#[verifier::ext_equal]
pub ghost struct StmtV {
    pub kind: StmtKindV,
    pub span: Span,
}

/// Mathematical shape of a statement kind, with loop bodies as sequences.
#[verifier::ext_equal]
pub ghost enum StmtKindV {
    Add(i32, u8),
    Sub(i32, u8),
    MoveAddTo { offset: i32 },
    Right(usize),
    Left(usize),
    Loop(Seq<StmtV>),
    Out,
    In,
    SetN(u8),
}

/// The abstract statement denoted by one executable statement.
pub open spec fn stmt_view(s: Stmt) -> StmtV
    decreases s,
{
    StmtV { kind: kind_view(s.kind), span: s.span }
}

/// The abstract kind denoted by one executable kind.
pub open spec fn kind_view(k: StmtKind) -> StmtKindV
    decreases k,
{
    match k {
        StmtKind::Add(offset, n) => StmtKindV::Add(offset, n),
        StmtKind::Sub(offset, n) => StmtKindV::Sub(offset, n),
        StmtKind::MoveAddTo { offset } => StmtKindV::MoveAddTo { offset },
        StmtKind::Right(n) => StmtKindV::Right(n),
        StmtKind::Left(n) => StmtKindV::Left(n),
        StmtKind::Loop(body) => StmtKindV::Loop(stmts_view(body.stmts@)),
        StmtKind::Out => StmtKindV::Out,
        StmtKind::In => StmtKindV::In,
        StmtKind::SetN(n) => StmtKindV::SetN(n),
    }
}

/// The abstract block denoted by an executable statement sequence.
pub open spec fn stmts_view(s: Seq<Stmt>) -> Seq<StmtV>
    decreases s,
{
    if s.len() == 0 {
        Seq::empty()
    } else {
        stmts_view(s.drop_last()).push(stmt_view(s.last()))
    }
}

/// The abstract block denoted by an `Ir`.
pub open spec fn ir_view(ir: Ir) -> Seq<StmtV> {
    stmts_view(ir.stmts@)
}

/// All spans in the block are well formed, recursively through loop bodies.
pub open spec fn stmts_wf(s: Seq<StmtV>) -> bool
    decreases s,
{
    if s.len() == 0 {
        true
    } else {
        stmts_wf(s.drop_last()) && stmt_wf(s.last())
    }
}

pub open spec fn stmt_wf(s: StmtV) -> bool
    decreases s,
{
    s.span.wf() && match s.kind {
        StmtKindV::Loop(body) => stmts_wf(body),
        _ => true,
    }
}

pub proof fn lemma_stmts_view_push(s: Seq<Stmt>, x: Stmt)
    ensures
        stmts_view(s.push(x)) == stmts_view(s).push(stmt_view(x)),
        stmts_wf(stmts_view(s.push(x))) == (stmts_wf(stmts_view(s)) && stmt_wf(stmt_view(x))),
{
    assert(s.push(x).drop_last() =~= s);
    assert(s.push(x).last() == x);
    assert(stmts_view(s).push(stmt_view(x)).drop_last() =~= stmts_view(s));
}

/// What lowering the syntax tree to the flat form means: leaves become
/// unit-count statements, loop bodies are lowered recursively.
pub open spec fn lower_item(item: (InstrV, Span)) -> StmtV
    decreases item,
{
    let kind = match item.0 {
        InstrV::Add => StmtKindV::Add(0i32, 1u8),
        InstrV::Sub => StmtKindV::Sub(0i32, 1u8),
        InstrV::Right => StmtKindV::Right(1usize),
        InstrV::Left => StmtKindV::Left(1usize),
        InstrV::Out => StmtKindV::Out,
        InstrV::In => StmtKindV::In,
        InstrV::Loop(body) => StmtKindV::Loop(lower_spec(body)),
    };
    StmtV { kind, span: item.1 }
}

pub open spec fn lower_spec(items: Seq<(InstrV, Span)>) -> Seq<StmtV>
    decreases items,
{
    if items.len() == 0 {
        Seq::empty()
    } else {
        lower_spec(items.drop_last()).push(lower_item(items.last()))
    }
}

proof fn lemma_lower_spec_push(s: Seq<(InstrV, Span)>, x: (InstrV, Span))
    ensures
        lower_spec(s.push(x)) == lower_spec(s).push(lower_item(x)),
{
    assert(s.push(x).drop_last() =~= s);
    assert(s.push(x).last() == x);
    assert(lower_spec(s).push(lower_item(x)).drop_last() =~= lower_spec(s));
}

/// Lower a parsed tree into the flat statement form, one nested block per
/// loop.
pub fn ast_to_ir(ast: &[(Instr, Span)]) -> (ir: Ir)
    ensures
        ir_view(ir) == lower_spec(ast_view(ast@)),
        ast_wf(ast_view(ast@)) ==> stmts_wf(ir_view(ir)),
    decreases ast@,
{
    let mut stmts: Vec<Stmt> = Vec::new();
    let mut i: usize = 0;
    while i < ast.len()
        invariant
            i <= ast@.len(),
            stmts_view(stmts@) == lower_spec(ast_view(ast@.subrange(0, i as int))),
            ast_wf(ast_view(ast@.subrange(0, i as int))) ==> stmts_wf(stmts_view(stmts@)),
        decreases ast@.len() - i,
    {
        let ghost prefix = ast@.subrange(0, i as int);
        let ghost prefix1 = ast@.subrange(0, i + 1 as int);
        proof {
            assert(prefix1.drop_last() =~= prefix);
            assert(prefix1.last() == ast@[i as int]);
            crate::parse::lemma_ast_view_push(prefix, ast@[i as int]);
            lemma_lower_spec_push(ast_view(prefix), (instr_view(ast@[i as int].0), ast@[i as int].1));
        }
        let item = &ast[i];
        let kind = match &item.0 {
            Instr::Add => StmtKind::Add(0, 1),
            Instr::Sub => StmtKind::Sub(0, 1),
            Instr::Right => StmtKind::Right(1),
            Instr::Left => StmtKind::Left(1),
            Instr::Out => StmtKind::Out,
            Instr::In => StmtKind::In,
            Instr::Loop(body) => {
                proof {
                    assert(decreases_to!(ast@ => ast@[i as int]));
                    assert(decreases_to!(ast@[i as int] => ast@[i as int].0));
                }
                let ir_body = ast_to_ir(body.as_slice());
                StmtKind::Loop(ir_body)
            },
        };
        let st = Stmt { kind, span: item.1 };
        proof {
            lemma_stmts_view_push(stmts@, st);
        }
        stmts.push(st);
        i = i + 1;
    }
    proof {
        assert(ast@.subrange(0, ast@.len() as int) =~= ast@);
    }
    Ir { stmts }
}

pub proof fn lemma_stmts_view_props(s: Seq<Stmt>)
    ensures
        stmts_view(s).len() == s.len(),
        forall|i: int| 0 <= i < s.len() ==> #[trigger] stmts_view(s)[i] == stmt_view(s[i]),
    decreases s,
{
    if s.len() > 0 {
        lemma_stmts_view_props(s.drop_last());
        assert forall|i: int| 0 <= i < s.len() implies #[trigger] stmts_view(s)[i] == stmt_view(
            s[i],
        ) by {
            if i < s.len() - 1 {
                assert(s.drop_last()[i] == s[i]);
            }
        }
    }
}

pub proof fn lemma_stmts_wf_forall(s: Seq<StmtV>)
    requires
        stmts_wf(s),
    ensures
        forall|i: int| 0 <= i < s.len() ==> #[trigger] stmt_wf(s[i]),
    decreases s,
{
    if s.len() > 0 {
        lemma_stmts_wf_forall(s.drop_last());
        assert forall|i: int| 0 <= i < s.len() implies #[trigger] stmt_wf(s[i]) by {
            if i < s.len() - 1 {
                assert(s.drop_last()[i] == s[i]);
            }
        }
    }
}

pub proof fn lemma_stmts_wf_from_forall(s: Seq<StmtV>)
    requires
        forall|i: int| 0 <= i < s.len() ==> #[trigger] stmt_wf(s[i]),
    ensures
        stmts_wf(s),
    decreases s,
{
    if s.len() > 0 {
        assert forall|i: int| 0 <= i < s.drop_last().len() implies #[trigger] stmt_wf(
            s.drop_last()[i],
        ) by {
            assert(s.drop_last()[i] == s[i]);
        }
        lemma_stmts_wf_from_forall(s.drop_last());
        assert(stmt_wf(s[s.len() - 1]));
        assert(s.last() == s[s.len() - 1]);
    }
}

/// May two adjacent statements be coalesced by the Group pass? Identical
/// kinds at the same offset, while the left count has not yet reached 255
/// and the summed count still fits its counter.
pub open spec fn can_group(a: StmtKindV, b: StmtKindV) -> bool {
    match (a, b) {
        (StmtKindV::Add(oa, x), StmtKindV::Add(ob, y)) => oa == ob && x < 255 && x + y <= 255,
        (StmtKindV::Sub(oa, x), StmtKindV::Sub(ob, y)) => oa == ob && x < 255 && x + y <= 255,
        (StmtKindV::Right(x), StmtKindV::Right(y)) => x < 255 && x + y <= usize::MAX,
        (StmtKindV::Left(x), StmtKindV::Left(y)) => x < 255 && x + y <= usize::MAX,
        _ => false,
    }
}

/// The single statement kind two groupable statements coalesce into.
pub open spec fn group_merge(a: StmtKindV, b: StmtKindV) -> StmtKindV {
    match (a, b) {
        (StmtKindV::Add(oa, x), StmtKindV::Add(ob, y)) => StmtKindV::Add(oa, (x + y) as u8),
        (StmtKindV::Sub(oa, x), StmtKindV::Sub(ob, y)) => StmtKindV::Sub(oa, (x + y) as u8),
        (StmtKindV::Right(x), StmtKindV::Right(y)) => StmtKindV::Right((x + y) as usize),
        (StmtKindV::Left(x), StmtKindV::Left(y)) => StmtKindV::Left((x + y) as usize),
        _ => a,
    }
}

/// One step of the Group pass's left fold: merge `next` into the last
/// accumulated statement when possible, otherwise append it (grouping its
/// body first when it is a loop).
pub open spec fn group_step(acc: Seq<StmtV>, next: StmtV) -> Seq<StmtV>
    decreases next,
{
    if acc.len() > 0 && can_group(acc.last().kind, next.kind) {
        acc.update(
            acc.len() - 1,
            StmtV {
                kind: group_merge(acc.last().kind, next.kind),
                span: acc.last().span.spec_merge(next.span),
            },
        )
    } else {
        match next.kind {
            StmtKindV::Loop(body) => acc.push(
                StmtV { kind: StmtKindV::Loop(group_spec(body)), span: next.span },
            ),
            _ => acc.push(next),
        }
    }
}

/// The Group pass: coalesce consecutive identical-offset `Add`/`Add`,
/// `Sub`/`Sub` and consecutive `Right`/`Right`, `Left`/`Left` runs, summing
/// counts, starting a new statement once a count has reached 255; loop
/// bodies are grouped recursively.
pub open spec fn group_spec(s: Seq<StmtV>) -> Seq<StmtV>
    decreases s,
{
    if s.len() == 0 {
        Seq::empty()
    } else {
        group_step(group_spec(s.drop_last()), s.last())
    }
}

fn group_stmts(stmts: Vec<Stmt>) -> (out: Vec<Stmt>)
    requires
        stmts_wf(stmts_view(stmts@)),
    ensures
        stmts_view(out@) == group_spec(stmts_view(stmts@)),
        stmts_wf(stmts_view(out@)),
    decreases stmts@,
{
    let ghost origv = stmts_view(stmts@);
    proof {
        lemma_stmts_view_props(stmts@);
        lemma_stmts_wf_forall(origv);
    }
    let mut rest = stmts;
    let mut out: Vec<Stmt> = Vec::new();
    let ghost mut k: int = 0;
    while rest.len() > 0
        invariant
            origv == stmts_view(stmts@),
            stmts_view(stmts@).len() == stmts@.len(),
            forall|i: int| 0 <= i < stmts@.len() ==> #[trigger] stmts_view(stmts@)[i]
                == stmt_view(stmts@[i]),
            forall|i: int| 0 <= i < origv.len() ==> #[trigger] stmt_wf(origv[i]),
            0 <= k <= stmts@.len(),
            k + rest@.len() == stmts@.len(),
            rest@ == stmts@.subrange(k, stmts@.len() as int),
            stmts_view(out@) == group_spec(origv.subrange(0, k)),
            stmts_wf(stmts_view(out@)),
        decreases rest@.len(),
    {
        proof {
            assert(rest@[0] == stmts@[k]);
        }
        let next = rest.remove(0);
        let ghost nextv = stmt_view(next);
        proof {
            assert(stmts@.subrange(k, stmts@.len() as int).remove(0) =~= stmts@.subrange(
                k + 1,
                stmts@.len() as int,
            ));
            assert(nextv == origv[k]);
            assert(stmt_wf(nextv));
            assert(origv.subrange(0, k + 1).drop_last() =~= origv.subrange(0, k));
            assert(origv.subrange(0, k + 1).last() == origv[k]);
            assert(group_spec(origv.subrange(0, k + 1)) == group_step(
                group_spec(origv.subrange(0, k)),
                nextv,
            ));
            lemma_stmts_view_props(out@);
            lemma_stmts_wf_forall(stmts_view(out@));
        }
        let out_len = out.len();
        let mut merged: Option<Stmt> = None;
        if out_len > 0 {
            let prev = &out[out_len - 1];
            proof {
                assert(stmt_wf(stmts_view(out@)[out_len - 1]));
                assert(stmts_view(out@)[out_len - 1] == stmt_view(out@[out_len - 1]));
                assert(out@[out_len - 1].span.wf());
                assert(next.span.wf());
            }
            match (&prev.kind, &next.kind) {
                (StmtKind::Add(oa, x), StmtKind::Add(ob, y)) => {
                    if *oa == *ob && *x < 255 && *y <= 255 - *x {
                        merged = Some(
                            Stmt { kind: StmtKind::Add(*oa, *x + *y), span: prev.span.merge(next.span) },
                        );
                    }
                },
                (StmtKind::Sub(oa, x), StmtKind::Sub(ob, y)) => {
                    if *oa == *ob && *x < 255 && *y <= 255 - *x {
                        merged = Some(
                            Stmt { kind: StmtKind::Sub(*oa, *x + *y), span: prev.span.merge(next.span) },
                        );
                    }
                },
                (StmtKind::Right(x), StmtKind::Right(y)) => {
                    if *x < 255 && *y <= usize::MAX - *x {
                        merged = Some(
                            Stmt { kind: StmtKind::Right(*x + *y), span: prev.span.merge(next.span) },
                        );
                    }
                },
                (StmtKind::Left(x), StmtKind::Left(y)) => {
                    if *x < 255 && *y <= usize::MAX - *x {
                        merged = Some(
                            Stmt { kind: StmtKind::Left(*x + *y), span: prev.span.merge(next.span) },
                        );
                    }
                },
                _ => {},
            }
        }
        match merged {
            Some(m) => {
                proof {
                    assert(can_group(stmts_view(out@).last().kind, nextv.kind));
                }
                let ghost old_out = out@;
                out[out_len - 1] = m;
                proof {
                    lemma_stmts_view_props(out@);
                    assert(stmts_view(out@) =~= stmts_view(old_out).update(
                        out_len - 1,
                        stmt_view(m),
                    ));
                    assert forall|i: int| 0 <= i < stmts_view(out@).len() implies #[trigger] stmt_wf(
                        stmts_view(out@)[i],
                    ) by {
                        if i < out_len - 1 {
                            assert(stmts_view(out@)[i] == stmts_view(old_out)[i]);
                        }
                    }
                    lemma_stmts_wf_from_forall(stmts_view(out@));
                }
            },
            None => {
                proof {
                    if out@.len() > 0 {
                        assert(!can_group(stmts_view(out@).last().kind, nextv.kind));
                    }
                }
                match next.kind {
                    StmtKind::Loop(body_ir) => {
                        proof {
                            assert(decreases_to!(stmts@ => stmts@[k]));
                            assert(decreases_to!(stmts@[k] => stmts@[k].kind));
                            assert(decreases_to!(stmts@[k].kind => stmts@[k].kind->Loop_0));
                            assert(decreases_to!(stmts@[k].kind->Loop_0
                                => stmts@[k].kind->Loop_0.stmts));
                            assert(stmts@[k].kind->Loop_0.stmts == body_ir.stmts);
                        }
                        let grouped = group_stmts(body_ir.stmts);
                        let st = Stmt { kind: StmtKind::Loop(Ir { stmts: grouped }), span: next.span };
                        proof {
                            lemma_stmts_view_push(out@, st);
                        }
                        out.push(st);
                    },
                    k2 => {
                        let st = Stmt { kind: k2, span: next.span };
                        proof {
                            assert(stmt_view(st) == nextv);
                            lemma_stmts_view_push(out@, st);
                        }
                        out.push(st);
                    },
                }
            },
        }
        proof {
            k = k + 1;
        }
    }
    proof {
        assert(origv.subrange(0, k) =~= origv);
    }
    out
}

/// Coalesce runs of identical adjacent statements: `Sub(1) Sub(1)` becomes
/// `Sub(2)`, and likewise for `Add`, `Right` and `Left`, recursing into loop
/// bodies.
pub fn pass_group(ir: &mut Ir)
    requires
        stmts_wf(ir_view(*old(ir))),
    ensures
        ir_view(*final(ir)) == group_spec(ir_view(*old(ir))),
        stmts_wf(ir_view(*final(ir))),
{
    let mut tmp: Vec<Stmt> = Vec::new();
    core::mem::swap(&mut tmp, &mut ir.stmts);
    let grouped = group_stmts(tmp);
    ir.stmts = grouped;
}

/// Size of one statement: itself plus everything nested below it.
pub open spec fn stmt_size(s: StmtV) -> nat
    decreases s,
{
    1 + match s.kind {
        StmtKindV::Loop(body) => stmts_size(body),
        _ => 0nat,
    }
}

/// Size of a block: the sum of its statements' sizes.
pub open spec fn stmts_size(s: Seq<StmtV>) -> nat
    decreases s,
{
    if s.len() == 0 {
        0
    } else {
        stmts_size(s.drop_last()) + stmt_size(s.last())
    }
}

proof fn lemma_stmts_size_drop_first(s: Seq<StmtV>)
    requires
        s.len() > 0,
    ensures
        stmts_size(s) == stmt_size(s[0]) + stmts_size(s.drop_first()),
    decreases s,
{
    if s.len() == 1 {
        assert(s.drop_first() =~= Seq::empty());
        assert(s.drop_last() =~= Seq::empty());
    } else {
        lemma_stmts_size_drop_first(s.drop_last());
        assert(s.drop_last()[0] == s[0]);
        assert(s.drop_first().drop_last() =~= s.drop_last().drop_first());
        assert(s.drop_first().last() == s.last());
    }
}

proof fn lemma_stmts_size_skip(s: Seq<StmtV>, k: int)
    requires
        0 <= k <= s.len(),
    ensures
        stmts_size(s.skip(k)) + k <= stmts_size(s),
    decreases k,
{
    if k == 0 {
        assert(s.skip(0) =~= s);
    } else {
        lemma_stmts_size_drop_first(s);
        lemma_stmts_size_skip(s.drop_first(), k - 1);
        assert(s.skip(k) =~= s.drop_first().skip(k - 1));
    }
}

/// Which peephole pass a window decision implements.
#[derive(Clone, Copy, PartialEq, Eq, Structural, Debug)]
pub enum WindowKind {
    /// Fold `SetN(k) Add(0,n)` / `SetN(k) Sub(0,n)` into one `SetN`.
    SetN,
    /// Cancel adjacent opposite pointer moves and opposite deltas.
    CancelLeftRightAddSub,
    /// Collapse `Right(r) Add(0,n) Left(r)` into a single offset delta.
    AddSubOffset,
}

/// What the decision function asks the engine to do with the current window.
#[derive(Debug, PartialEq, Eq)]
pub enum WindowPassAction {
    /// Leave the window unchanged and advance by one statement.
    Keep,
    /// Replace the whole window by one merged statement (spans merged).
    Merge(StmtKind),
    /// Delete the whole window.
    RemoveAll,
}

/// Mathematical shape of a window action.
#[verifier::ext_equal]
pub ghost enum WActionV {
    Keep,
    Merge(StmtKindV),
    RemoveAll,
}

pub open spec fn action_view(a: WindowPassAction) -> WActionV
    decreases a,
{
    match a {
        WindowPassAction::Keep => WActionV::Keep,
        WindowPassAction::Merge(k) => WActionV::Merge(kind_view(k)),
        WindowPassAction::RemoveAll => WActionV::RemoveAll,
    }
}

/// How many consecutive statements each pass inspects at once.
pub open spec fn spec_window_width(kind: WindowKind) -> int {
    match kind {
        WindowKind::SetN => 2,
        WindowKind::CancelLeftRightAddSub => 2,
        WindowKind::AddSubOffset => 3,
    }
}

fn window_width(kind: WindowKind) -> (n: usize)
    ensures
        n == spec_window_width(kind),
        2 <= n <= 3,
{
    match kind {
        WindowKind::SetN => 2,
        WindowKind::CancelLeftRightAddSub => 2,
        WindowKind::AddSubOffset => 3,
    }
}

/// Decision of the SetN-fold pass on a two-statement window.
pub open spec fn decide_set_n(a: StmtV, b: StmtV) -> WActionV {
    match (a.kind, b.kind) {
        (StmtKindV::SetN(before), StmtKindV::Add(o, n)) => if o == 0 {
            WActionV::Merge(StmtKindV::SetN(vstd::wrapping::u8_specs::wrapping_add(before, n)))
        } else {
            WActionV::Keep
        },
        (StmtKindV::SetN(before), StmtKindV::Sub(o, n)) => if o == 0 {
            WActionV::Merge(StmtKindV::SetN(vstd::wrapping::u8_specs::wrapping_sub(before, n)))
        } else {
            WActionV::Keep
        },
        _ => WActionV::Keep,
    }
}

/// Decision of the cancellation pass on a two-statement window: opposite
/// pointer moves, or opposite deltas at one offset, net out.
pub open spec fn decide_cancel(a: StmtV, b: StmtV) -> WActionV {
    match (a.kind, b.kind) {
        (StmtKindV::Right(r), StmtKindV::Left(l)) => if r == l {
            WActionV::RemoveAll
        } else if r < l {
            WActionV::Merge(StmtKindV::Left((l - r) as usize))
        } else {
            WActionV::Merge(StmtKindV::Right((r - l) as usize))
        },
        (StmtKindV::Left(l), StmtKindV::Right(r)) => if r == l {
            WActionV::RemoveAll
        } else if r < l {
            WActionV::Merge(StmtKindV::Left((l - r) as usize))
        } else {
            WActionV::Merge(StmtKindV::Right((r - l) as usize))
        },
        (StmtKindV::Add(oa, r), StmtKindV::Sub(ob, l)) => if oa == ob {
            if r == l {
                WActionV::RemoveAll
            } else if r < l {
                WActionV::Merge(StmtKindV::Sub(oa, (l - r) as u8))
            } else {
                WActionV::Merge(StmtKindV::Add(oa, (r - l) as u8))
            }
        } else {
            WActionV::Keep
        },
        (StmtKindV::Sub(oa, l), StmtKindV::Add(ob, r)) => if oa == ob {
            if r == l {
                WActionV::RemoveAll
            } else if r < l {
                WActionV::Merge(StmtKindV::Sub(oa, (l - r) as u8))
            } else {
                WActionV::Merge(StmtKindV::Add(oa, (r - l) as u8))
            }
        } else {
            WActionV::Keep
        },
        _ => WActionV::Keep,
    }
}

/// Decision of the offset-arithmetic pass on a three-statement window:
/// `Right(r) Add(0,n) Left(r)` becomes a delta at offset `r`, and the
/// mirrored form a delta at offset `-r`.
pub open spec fn decide_offset(a: StmtV, b: StmtV, c: StmtV) -> WActionV {
    match (a.kind, b.kind, c.kind) {
        (StmtKindV::Right(r), StmtKindV::Add(o, n), StmtKindV::Left(l)) => if o == 0 && r == l
            && r <= i32::MAX {
            WActionV::Merge(StmtKindV::Add(r as i32, n))
        } else {
            WActionV::Keep
        },
        (StmtKindV::Left(l), StmtKindV::Add(o, n), StmtKindV::Right(r)) => if o == 0 && r == l
            && r <= i32::MAX {
            WActionV::Merge(StmtKindV::Add((0 - r as int) as i32, n))
        } else {
            WActionV::Keep
        },
        (StmtKindV::Right(r), StmtKindV::Sub(o, n), StmtKindV::Left(l)) => if o == 0 && r == l
            && r <= i32::MAX {
            WActionV::Merge(StmtKindV::Sub(r as i32, n))
        } else {
            WActionV::Keep
        },
        (StmtKindV::Left(l), StmtKindV::Sub(o, n), StmtKindV::Right(r)) => if o == 0 && r == l
            && r <= i32::MAX {
            WActionV::Merge(StmtKindV::Sub((0 - r as int) as i32, n))
        } else {
            WActionV::Keep
        },
        _ => WActionV::Keep,
    }
}

/// The decision a pass makes on a full window.
pub open spec fn window_decide(kind: WindowKind, w: Seq<StmtV>) -> WActionV {
    match kind {
        WindowKind::SetN => decide_set_n(w[0], w[1]),
        WindowKind::CancelLeftRightAddSub => decide_cancel(w[0], w[1]),
        WindowKind::AddSubOffset => decide_offset(w[0], w[1], w[2]),
    }
}

/// The sliding-window rewrite engine, as a fold over the statement list.
///
/// `front` is the statement under the cursor, its loop body (if any) already
/// rewritten; `rest` is the raw tail behind it. When fewer than a full
/// window's worth of statements remain, the cursor statement and the raw tail
/// pass through unchanged. Otherwise the decision function inspects the
/// window `front + rest`: it either keeps the cursor statement (which is then
/// emitted), replaces the window with one merged statement that becomes the
/// new cursor (so it is re-examined against its new neighbors), or deletes
/// the window.
pub open spec fn window_flow(kind: WindowKind, rest: Seq<StmtV>, front: Option<StmtV>) -> Seq<
    StmtV,
>
    decreases stmts_size(rest), (if front is Some { 1int } else { 0int })
        via window_flow_decreases
{
    let n = spec_window_width(kind);
    match front {
        Option::None => {
            if rest.len() == 0 {
                Seq::empty()
            } else {
                let x = rest[0];
                let fixed = match x.kind {
                    StmtKindV::Loop(body) => StmtV {
                        kind: StmtKindV::Loop(window_flow(kind, body, Option::None)),
                        span: x.span,
                    },
                    _ => x,
                };
                window_flow(kind, rest.drop_first(), Option::Some(fixed))
            }
        },
        Option::Some(f) => {
            if rest.len() < n - 1 {
                seq![f] + rest
            } else {
                let w = seq![f] + rest.take(n - 1);
                match window_decide(kind, w) {
                    WActionV::Keep => seq![f] + window_flow(kind, rest, Option::None),
                    WActionV::Merge(km) => window_flow(
                        kind,
                        rest.skip(n - 1),
                        Option::Some(StmtV { kind: km, span: f.span.spec_merge(w.last().span) }),
                    ),
                    WActionV::RemoveAll => window_flow(kind, rest.skip(n - 1), Option::None),
                }
            }
        },
    }
}

#[via_fn]
proof fn window_flow_decreases(kind: WindowKind, rest: Seq<StmtV>, front: Option<StmtV>) {
    let n = spec_window_width(kind);
    if front is None {
        if rest.len() > 0 {
            lemma_stmts_size_drop_first(rest);
        }
    } else {
        if rest.len() >= n - 1 {
            lemma_stmts_size_skip(rest, n - 1);
        }
    }
}

pub proof fn lemma_stmts_view_concat(a: Seq<Stmt>, b: Seq<Stmt>)
    ensures
        stmts_view(a + b) == stmts_view(a) + stmts_view(b),
    decreases b,
{
    if b.len() == 0 {
        assert(a + b =~= a);
        assert(stmts_view(a) + stmts_view(b) =~= stmts_view(a));
    } else {
        lemma_stmts_view_concat(a, b.drop_last());
        assert((a + b).drop_last() =~= a + b.drop_last());
        assert((a + b).last() == b.last());
        assert(stmts_view(a) + stmts_view(b) =~= (stmts_view(a) + stmts_view(b.drop_last())).push(
            stmt_view(b.last()),
        ));
    }
}

fn exec_decide_set_n(a: &Stmt, b: &Stmt) -> (r: WindowPassAction)
    ensures
        action_view(r) == decide_set_n(stmt_view(*a), stmt_view(*b)),
{
    match (&a.kind, &b.kind) {
        (StmtKind::SetN(before), StmtKind::Add(o, n)) => {
            if *o == 0 {
                WindowPassAction::Merge(StmtKind::SetN(before.wrapping_add(*n)))
            } else {
                WindowPassAction::Keep
            }
        },
        (StmtKind::SetN(before), StmtKind::Sub(o, n)) => {
            if *o == 0 {
                WindowPassAction::Merge(StmtKind::SetN(before.wrapping_sub(*n)))
            } else {
                WindowPassAction::Keep
            }
        },
        _ => WindowPassAction::Keep,
    }
}

fn exec_decide_cancel(a: &Stmt, b: &Stmt) -> (r: WindowPassAction)
    ensures
        action_view(r) == decide_cancel(stmt_view(*a), stmt_view(*b)),
{
    match (&a.kind, &b.kind) {
        (StmtKind::Right(r), StmtKind::Left(l)) => {
            if *r == *l {
                WindowPassAction::RemoveAll
            } else if *r < *l {
                WindowPassAction::Merge(StmtKind::Left(*l - *r))
            } else {
                WindowPassAction::Merge(StmtKind::Right(*r - *l))
            }
        },
        (StmtKind::Left(l), StmtKind::Right(r)) => {
            if *r == *l {
                WindowPassAction::RemoveAll
            } else if *r < *l {
                WindowPassAction::Merge(StmtKind::Left(*l - *r))
            } else {
                WindowPassAction::Merge(StmtKind::Right(*r - *l))
            }
        },
        (StmtKind::Add(oa, r), StmtKind::Sub(ob, l)) => {
            if *oa == *ob {
                if *r == *l {
                    WindowPassAction::RemoveAll
                } else if *r < *l {
                    WindowPassAction::Merge(StmtKind::Sub(*oa, *l - *r))
                } else {
                    WindowPassAction::Merge(StmtKind::Add(*oa, *r - *l))
                }
            } else {
                WindowPassAction::Keep
            }
        },
        (StmtKind::Sub(oa, l), StmtKind::Add(ob, r)) => {
            if *oa == *ob {
                if *r == *l {
                    WindowPassAction::RemoveAll
                } else if *r < *l {
                    WindowPassAction::Merge(StmtKind::Sub(*oa, *l - *r))
                } else {
                    WindowPassAction::Merge(StmtKind::Add(*oa, *r - *l))
                }
            } else {
                WindowPassAction::Keep
            }
        },
        _ => WindowPassAction::Keep,
    }
}

fn exec_decide_offset(a: &Stmt, b: &Stmt, c: &Stmt) -> (r: WindowPassAction)
    ensures
        action_view(r) == decide_offset(stmt_view(*a), stmt_view(*b), stmt_view(*c)),
{
    let limit: usize = i32::MAX as usize;
    match (&a.kind, &b.kind, &c.kind) {
        (StmtKind::Right(r), StmtKind::Add(o, n), StmtKind::Left(l)) => {
            if *o == 0 && *r == *l && *r <= limit {
                WindowPassAction::Merge(StmtKind::Add(*r as i32, *n))
            } else {
                WindowPassAction::Keep
            }
        },
        (StmtKind::Left(l), StmtKind::Add(o, n), StmtKind::Right(r)) => {
            if *o == 0 && *r == *l && *r <= limit {
                WindowPassAction::Merge(StmtKind::Add(-(*r as i32), *n))
            } else {
                WindowPassAction::Keep
            }
        },
        (StmtKind::Right(r), StmtKind::Sub(o, n), StmtKind::Left(l)) => {
            if *o == 0 && *r == *l && *r <= limit {
                WindowPassAction::Merge(StmtKind::Sub(*r as i32, *n))
            } else {
                WindowPassAction::Keep
            }
        },
        (StmtKind::Left(l), StmtKind::Sub(o, n), StmtKind::Right(r)) => {
            if *o == 0 && *r == *l && *r <= limit {
                WindowPassAction::Merge(StmtKind::Sub(-(*r as i32), *n))
            } else {
                WindowPassAction::Keep
            }
        },
        _ => WindowPassAction::Keep,
    }
}

/// The view of the cursor statement, if one is held.
pub open spec fn front_view(f: Option<Stmt>) -> Option<StmtV> {
    match f {
        Option::None => Option::None,
        Option::Some(st) => Option::Some(stmt_view(st)),
    }
}

#[verifier::rlimit(60)]
#[verifier::spinoff_prover]
fn window_stmts(stmts: Vec<Stmt>, kind: WindowKind) -> (out: Vec<Stmt>)
    requires
        stmts_wf(stmts_view(stmts@)),
    ensures
        stmts_view(out@) == window_flow(kind, stmts_view(stmts@), Option::None),
        stmts_wf(stmts_view(out@)),
    decreases stmts@,
{
    let ghost origv = stmts_view(stmts@);
    proof {
        lemma_stmts_view_props(stmts@);
        lemma_stmts_wf_forall(origv);
    }
    let n = window_width(kind);
    let mut rest = stmts;
    let mut out: Vec<Stmt> = Vec::new();
    let mut front: Option<Stmt> = None;
    let ghost mut k: int = 0;
    loop
        invariant_except_break
            origv == stmts_view(stmts@),
            stmts_view(stmts@).len() == stmts@.len(),
            forall|i: int| 0 <= i < stmts@.len() ==> #[trigger] stmts_view(stmts@)[i]
                == stmt_view(stmts@[i]),
            forall|i: int| 0 <= i < origv.len() ==> #[trigger] stmt_wf(origv[i]),
            2 <= n <= 3,
            n == spec_window_width(kind),
            0 <= k <= stmts@.len(),
            rest@ == stmts@.skip(k),
            front matches Some(f) ==> stmt_wf(stmt_view(f)),
            stmts_wf(stmts_view(out@)),
            window_flow(kind, origv, Option::None) == stmts_view(out@) + window_flow(
                kind,
                stmts_view(rest@),
                front_view(front),
            ),
        ensures
            stmts_view(out@) == window_flow(kind, origv, Option::None),
            stmts_wf(stmts_view(out@)),
        decreases stmts_size(stmts_view(rest@)), (if front is Some { 1int } else { 0int }),
    {
        proof {
            lemma_stmts_view_props(rest@);
            assert forall|i: int| 0 <= i < rest@.len() implies #[trigger] stmt_wf(
                stmts_view(rest@)[i],
            ) by {
                assert(rest@[i] == stmts@[k + i]);
                assert(stmts_view(rest@)[i] == stmt_view(stmts@[k + i]));
                assert(stmt_wf(origv[k + i]));
            }
        }
        match front {
            None => {
                if rest.len() == 0 {
                    proof {
                        assert(stmts_view(rest@) =~= Seq::<StmtV>::empty());
                        assert(stmts_view(out@) + window_flow(
                            kind,
                            stmts_view(rest@),
                            front_view(None),
                        ) =~= stmts_view(out@));
                    }
                    break;
                }
                let ghost restv = stmts_view(rest@);
                proof {
                    assert(rest@[0] == stmts@[k]);
                    assert(restv[0] == stmt_view(rest@[0]));
                    assert(stmts_view(rest@.remove(0)) =~= restv.drop_first()) by {
                        lemma_stmts_view_props(rest@.remove(0));
                        assert(rest@.remove(0) =~= rest@.drop_first());
                    }
                    assert(rest@.remove(0) =~= stmts@.skip(k + 1));
                }
                let x = rest.remove(0);
                let fixed = match x.kind {
                    StmtKind::Loop(body_ir) => {
                        proof {
                            assert(decreases_to!(stmts@ => stmts@[k]));
                            assert(decreases_to!(stmts@[k] => stmts@[k].kind));
                            assert(decreases_to!(stmts@[k].kind => stmts@[k].kind->Loop_0));
                            assert(decreases_to!(stmts@[k].kind->Loop_0
                                => stmts@[k].kind->Loop_0.stmts));
                            assert(stmts@[k].kind->Loop_0.stmts == body_ir.stmts);
                            assert(stmt_wf(stmt_view(stmts@[k])));
                        }
                        let fixed_body = window_stmts(body_ir.stmts, kind);
                        Stmt { kind: StmtKind::Loop(Ir { stmts: fixed_body }), span: x.span }
                    },
                    other => Stmt { kind: other, span: x.span },
                };
                proof {
                    k = k + 1;
                    assert(stmt_wf(stmt_view(fixed)));
                    assert(window_flow(kind, restv, Option::None) == window_flow(
                        kind,
                        restv.drop_first(),
                        Option::Some(stmt_view(fixed)),
                    ));
                    lemma_stmts_size_drop_first(restv);
                }
                front = Some(fixed);
            },
            Some(f) => {
                let ghost fv = stmt_view(f);
                let ghost restv = stmts_view(rest@);
                if rest.len() < n - 1 {
                    proof {
                        assert(window_flow(kind, restv, Option::Some(fv)) == seq![fv] + restv);
                        lemma_stmts_view_push(out@, f);
                    }
                    out.push(f);
                    proof {
                        lemma_stmts_view_concat(out@, rest@);
                        lemma_stmts_view_props(out@);
                        lemma_stmts_view_props(out@ + rest@);
                        lemma_stmts_wf_forall(stmts_view(out@));
                        let fseq = stmts_view(out@ + rest@);
                        assert(fseq =~= stmts_view(out@) + stmts_view(rest@));
                        assert forall|i: int| 0 <= i < fseq.len() implies #[trigger] stmt_wf(
                            fseq[i],
                        ) by {
                            if i < out@.len() {
                                assert(fseq[i] == stmts_view(out@)[i]);
                            } else {
                                assert(fseq[i] == stmts_view(rest@)[i - out@.len()]);
                            }
                        }
                        lemma_stmts_wf_from_forall(fseq);
                        assert(stmts_view(out@) + stmts_view(rest@) =~= (stmts_view(
                            out@.drop_last(),
                        ) + seq![fv]) + restv);
                        assert(out@.drop_last() =~= out@.subrange(0, out@.len() - 1));
                    }
                    out.append(&mut rest);
                    break;
                }
                let ghost w = seq![fv] + restv.take(n - 1);
                proof {
                    assert(w[0] == fv);
                    assert(w[1] == restv[0]);
                    if n == 3 {
                        assert(w[2] == restv[1]);
                    }
                    assert(w.last() == restv[n - 2]);
                    assert(restv[0] == stmt_view(rest@[0]));
                    assert(stmt_wf(restv[n - 2]));
                }
                let action = match kind {
                    WindowKind::SetN => exec_decide_set_n(&f, &rest[0]),
                    WindowKind::CancelLeftRightAddSub => exec_decide_cancel(&f, &rest[0]),
                    WindowKind::AddSubOffset => exec_decide_offset(&f, &rest[0], &rest[1]),
                };
                proof {
                    assert(action_view(action) == window_decide(kind, w));
                }
                match action {
                    WindowPassAction::Keep => {
                        proof {
                            assert(window_flow(kind, restv, Option::Some(fv)) == seq![fv]
                                + window_flow(kind, restv, Option::None));
                            lemma_stmts_view_push(out@, f);
                            assert((stmts_view(out@) + (seq![fv] + window_flow(
                                kind,
                                restv,
                                Option::None,
                            ))) =~= (stmts_view(out@).push(fv) + window_flow(
                                kind,
                                restv,
                                Option::None,
                            )));
                        }
                        out.push(f);
                        front = None;
                    },
                    WindowPassAction::Merge(km) => {
                        let last_span = if n == 2 {
                            rest[0].span
                        } else {
                            rest[1].span
                        };
                        proof {
                            assert(last_span == restv[n - 2].span);
                            assert(fv.span.wf() && last_span.wf());
                        }
                        let sp = f.span.merge(last_span);
                        proof {
                            assert(rest@.remove(0) =~= stmts@.skip(k + 1));
                            if n == 3 {
                                assert(rest@.remove(0).remove(0) =~= stmts@.skip(k + 2));
                            }
                        }
                        let _first = rest.remove(0);
                        if n == 3 {
                            let _second = rest.remove(0);
                        }
                        proof {
                            k = k + (n - 1);
                            assert(rest@ =~= stmts@.skip(k));
                            lemma_stmts_view_props(rest@);
                            assert(stmts_view(rest@) =~= restv.skip(n - 1)) by {
                                assert forall|i: int| 0 <= i < rest@.len() implies stmts_view(
                                    rest@,
                                )[i] == restv.skip(n - 1)[i] by {
                                    assert(rest@[i] == stmts@[k + i]);
                                    assert(stmts_view(rest@)[i] == stmt_view(stmts@[k + i]));
                                }
                            }
                            assert(!(kind_view(km) is Loop));
                            lemma_stmts_size_skip(restv, n - 1);
                        }
                        let merged = Stmt { kind: km, span: sp };
                        proof {
                            assert(stmt_wf(stmt_view(merged)));
                            assert(window_flow(kind, restv, Option::Some(fv)) == window_flow(
                                kind,
                                restv.skip(n - 1),
                                Option::Some(stmt_view(merged)),
                            ));
                        }
                        front = Some(merged);
                    },
                    WindowPassAction::RemoveAll => {
                        proof {
                            assert(rest@.remove(0) =~= stmts@.skip(k + 1));
                            if n == 3 {
                                assert(rest@.remove(0).remove(0) =~= stmts@.skip(k + 2));
                            }
                        }
                        let _first = rest.remove(0);
                        if n == 3 {
                            let _second = rest.remove(0);
                        }
                        proof {
                            k = k + (n - 1);
                            assert(rest@ =~= stmts@.skip(k));
                            lemma_stmts_view_props(rest@);
                            assert(stmts_view(rest@) =~= restv.skip(n - 1)) by {
                                assert forall|i: int| 0 <= i < rest@.len() implies stmts_view(
                                    rest@,
                                )[i] == restv.skip(n - 1)[i] by {
                                    assert(rest@[i] == stmts@[k + i]);
                                    assert(stmts_view(rest@)[i] == stmt_view(stmts@[k + i]));
                                }
                            }
                            assert(window_flow(kind, restv, Option::Some(fv)) == window_flow(
                                kind,
                                restv.skip(n - 1),
                                Option::None,
                            ));
                            lemma_stmts_size_skip(restv, n - 1);
                        }
                        front = None;
                    },
                }
            },
        }
    }
    out
}

/// The generic sliding-window rewrite engine: slide a window of the pass's
/// width over the block, recursing into a loop body whenever a loop reaches
/// the window's leading edge, and apply the pass's decision to each full
/// window. A merged statement stays under the cursor and is re-examined
/// against its new neighbors; a deletion likewise reprocesses what follows.
pub fn window_pass(ir: &mut Ir, kind: WindowKind)
    requires
        stmts_wf(ir_view(*old(ir))),
    ensures
        ir_view(*final(ir)) == window_flow(kind, ir_view(*old(ir)), Option::None),
        stmts_wf(ir_view(*final(ir))),
{
    let mut tmp: Vec<Stmt> = Vec::new();
    core::mem::swap(&mut tmp, &mut ir.stmts);
    let out = window_stmts(tmp, kind);
    ir.stmts = out;
}

/// Fold `SetN(k)` immediately followed by `Add(0,n)` or `Sub(0,n)` into
/// `SetN(k ± n)`, with 8-bit wrapping arithmetic on `k`.
pub fn pass_set_n(ir: &mut Ir)
    requires
        stmts_wf(ir_view(*old(ir))),
    ensures
        ir_view(*final(ir)) == window_flow(WindowKind::SetN, ir_view(*old(ir)), Option::None),
        stmts_wf(ir_view(*final(ir))),
{
    window_pass(ir, WindowKind::SetN)
}

/// Cancel adjacent opposite pointer moves (`Right`/`Left` in either order)
/// and adjacent opposite deltas at one offset, leaving the net movement or
/// delta, or nothing when they cancel exactly.
pub fn pass_cancel_left_right_add_sub(ir: &mut Ir)
    requires
        stmts_wf(ir_view(*old(ir))),
    ensures
        ir_view(*final(ir)) == window_flow(
            WindowKind::CancelLeftRightAddSub,
            ir_view(*old(ir)),
            Option::None,
        ),
        stmts_wf(ir_view(*final(ir))),
{
    window_pass(ir, WindowKind::CancelLeftRightAddSub)
}

/// Collapse `Right(r) Add(0,n) Left(r)` (or the mirrored order) into a
/// single `Add`/`Sub` at offset `±r`, eliminating the temporary pointer
/// excursion.
pub fn pass_add_sub_offset(ir: &mut Ir)
    requires
        stmts_wf(ir_view(*old(ir))),
    ensures
        ir_view(*final(ir)) == window_flow(
            WindowKind::AddSubOffset,
            ir_view(*old(ir)),
            Option::None,
        ),
        stmts_wf(ir_view(*final(ir))),
{
    window_pass(ir, WindowKind::AddSubOffset)
}

/// A statement is grouped when every loop body below it is grouped.
pub open spec fn grouped_stmt(s: StmtV) -> bool
    decreases s,
{
    match s.kind {
        StmtKindV::Loop(body) => grouped_seq(body),
        _ => true,
    }
}

/// A block is grouped when no two adjacent statements could still be
/// coalesced, and every loop body is grouped in turn.
pub open spec fn grouped_seq(s: Seq<StmtV>) -> bool
    decreases s,
{
    &&& forall|i: int| 0 <= i < s.len() - 1 ==> !can_group((#[trigger] s[i]).kind, s[i + 1].kind)
    &&& forall|i: int| 0 <= i < s.len() ==> grouped_stmt(#[trigger] s[i])
}

proof fn lemma_grouped_drop_last(s: Seq<StmtV>)
    requires
        grouped_seq(s),
        s.len() > 0,
    ensures
        grouped_seq(s.drop_last()),
{
    let d = s.drop_last();
    assert forall|i: int| 0 <= i < d.len() - 1 implies !can_group((#[trigger] d[i]).kind, d[i + 1].kind) by {
        assert(d[i] == s[i] && d[i + 1] == s[i + 1]);
    }
    assert forall|i: int| 0 <= i < d.len() implies grouped_stmt(#[trigger] d[i]) by {
        assert(d[i] == s[i]);
    }
}

/// The Group pass leaves nothing left to coalesce: its output is grouped.
proof fn lemma_group_normal(s: Seq<StmtV>)
    ensures
        grouped_seq(group_spec(s)),
    decreases s,
{
    if s.len() > 0 {
        lemma_group_normal(s.drop_last());
        let acc = group_spec(s.drop_last());
        let x = s.last();
        let out = group_step(acc, x);
        if acc.len() > 0 && can_group(acc.last().kind, x.kind) {
            let merged = StmtV {
                kind: group_merge(acc.last().kind, x.kind),
                span: acc.last().span.spec_merge(x.span),
            };
            assert(out == acc.update(acc.len() - 1, merged));
            assert forall|i: int| 0 <= i < out.len() - 1 implies !can_group(
                (#[trigger] out[i]).kind,
                out[i + 1].kind,
            ) by {
                if i < out.len() - 2 {
                    assert(out[i] == acc[i] && out[i + 1] == acc[i + 1]);
                } else {
                    assert(out[i] == acc[i] && out[i + 1] == merged);
                    assert(!can_group(acc[i].kind, acc[i + 1].kind));
                }
            }
            assert forall|i: int| 0 <= i < out.len() implies grouped_stmt(#[trigger] out[i]) by {
                if i < out.len() - 1 {
                    assert(out[i] == acc[i]);
                } else {
                    assert(out[i] == merged);
                }
            }
        } else {
            match x.kind {
                StmtKindV::Loop(body) => {
                    assert(decreases_to!(s => x));
                    assert(decreases_to!(x => x.kind));
                    assert(decreases_to!(x.kind => body));
                    lemma_group_normal(body);
                    let pushed = StmtV { kind: StmtKindV::Loop(group_spec(body)), span: x.span };
                    assert(out == acc.push(pushed));
                    assert forall|i: int| 0 <= i < out.len() - 1 implies !can_group(
                        (#[trigger] out[i]).kind,
                        out[i + 1].kind,
                    ) by {
                        if i < out.len() - 2 {
                            assert(out[i] == acc[i] && out[i + 1] == acc[i + 1]);
                        } else {
                            assert(out[i + 1] == pushed);
                        }
                    }
                    assert forall|i: int| 0 <= i < out.len() implies grouped_stmt(
                        #[trigger] out[i],
                    ) by {
                        if i < out.len() - 1 {
                            assert(out[i] == acc[i]);
                        } else {
                            assert(out[i] == pushed);
                        }
                    }
                },
                _ => {
                    assert(out == acc.push(x));
                    assert forall|i: int| 0 <= i < out.len() - 1 implies !can_group(
                        (#[trigger] out[i]).kind,
                        out[i + 1].kind,
                    ) by {
                        if i < out.len() - 2 {
                            assert(out[i] == acc[i] && out[i + 1] == acc[i + 1]);
                        } else {
                            assert(out[i] == acc.last() && out[i + 1] == x);
                        }
                    }
                    assert forall|i: int| 0 <= i < out.len() implies grouped_stmt(
                        #[trigger] out[i],
                    ) by {
                        if i < out.len() - 1 {
                            assert(out[i] == acc[i]);
                        } else {
                            assert(out[i] == x);
                            assert(grouped_stmt(x));
                        }
                    }
                },
            }
        }
    }
}

/// The Group pass changes nothing on a block that is already grouped.
proof fn lemma_grouped_id(s: Seq<StmtV>)
    requires
        grouped_seq(s),
    ensures
        group_spec(s) == s,
    decreases s,
{
    if s.len() > 0 {
        lemma_grouped_drop_last(s);
        lemma_grouped_id(s.drop_last());
        let acc = s.drop_last();
        let x = s.last();
        if acc.len() > 0 {
            assert(acc.last() == s[s.len() - 2] && x == s[s.len() - 1]);
            assert(!can_group(acc.last().kind, x.kind));
        }
        match x.kind {
            StmtKindV::Loop(body) => {
                assert(decreases_to!(s => x));
                assert(decreases_to!(x => x.kind));
                assert(decreases_to!(x.kind => body));
                assert(grouped_stmt(s[s.len() - 1]));
                lemma_grouped_id(body);
                assert(group_step(acc, x) == acc.push(
                    StmtV { kind: StmtKindV::Loop(group_spec(body)), span: x.span },
                ));
                assert(StmtV { kind: StmtKindV::Loop(group_spec(body)), span: x.span } == x);
                assert(acc.push(x) =~= s);
            },
            _ => {
                assert(group_step(acc, x) == acc.push(x));
                assert(acc.push(x) =~= s);
            },
        }
    } else {
        assert(group_spec(s) =~= s);
    }
}

/// Law: running the Group pass twice in succession produces the same result
/// as running it once.
pub proof fn lemma_group_idempotent(s: Seq<StmtV>)
    ensures
        group_spec(group_spec(s)) == group_spec(s),
{
    lemma_group_normal(s);
    lemma_grouped_id(group_spec(s));
}

/// Is this loop body the zeroing idiom: exactly one `Sub` at offset 0, of
/// any count? Decrementing by any nonzero amount reaches zero under 8-bit
/// wraparound.
pub open spec fn is_zeroing_body(body: Seq<StmtV>) -> bool {
    body.len() == 1 && match body[0].kind {
        StmtKindV::Sub(o, _) => o == 0,
        _ => false,
    }
}

/// One statement after the find-set-null pass: a zeroing loop becomes
/// `SetN(0)`, any other loop is rewritten recursively, everything else is
/// untouched.
pub open spec fn fsn_stmt(s: StmtV) -> StmtV
    decreases s,
{
    match s.kind {
        StmtKindV::Loop(body) => if is_zeroing_body(body) {
            StmtV { kind: StmtKindV::SetN(0), span: s.span }
        } else {
            StmtV { kind: StmtKindV::Loop(fsn_spec(body)), span: s.span }
        },
        _ => s,
    }
}

/// The find-set-null pass over a whole block.
pub open spec fn fsn_spec(s: Seq<StmtV>) -> Seq<StmtV>
    decreases s,
{
    if s.len() == 0 {
        Seq::empty()
    } else {
        fsn_spec(s.drop_last()).push(fsn_stmt(s.last()))
    }
}

/// The offset a loop body denotes under the move-add idiom: exactly
/// `{Sub(0,1), Add(offset,1)}` in either order.
pub open spec fn move_add_offset(body: Seq<StmtV>) -> Option<i32> {
    if body.len() == 2 {
        match (body[0].kind, body[1].kind) {
            (StmtKindV::Sub(o0, n0), StmtKindV::Add(o1, n1)) => if o0 == 0 && n0 == 1 && n1
                == 1 {
                Option::Some(o1)
            } else {
                Option::None
            },
            (StmtKindV::Add(o1, n1), StmtKindV::Sub(o0, n0)) => if o0 == 0 && n0 == 1 && n1
                == 1 {
                Option::Some(o1)
            } else {
                Option::None
            },
            _ => Option::None,
        }
    } else {
        Option::None
    }
}

/// One statement after the move-add pass.
pub open spec fn mat_stmt(s: StmtV) -> StmtV
    decreases s,
{
    match s.kind {
        StmtKindV::Loop(body) => match move_add_offset(body) {
            Option::Some(offset) => StmtV { kind: StmtKindV::MoveAddTo { offset }, span: s.span },
            Option::None => StmtV { kind: StmtKindV::Loop(mat_spec(body)), span: s.span },
        },
        _ => s,
    }
}

/// The move-add pass over a whole block.
pub open spec fn mat_spec(s: Seq<StmtV>) -> Seq<StmtV>
    decreases s,
{
    if s.len() == 0 {
        Seq::empty()
    } else {
        mat_spec(s.drop_last()).push(mat_stmt(s.last()))
    }
}

fn fsn_stmts(stmts: Vec<Stmt>) -> (out: Vec<Stmt>)
    requires
        stmts_wf(stmts_view(stmts@)),
    ensures
        stmts_view(out@) == fsn_spec(stmts_view(stmts@)),
        stmts_wf(stmts_view(out@)),
    decreases stmts@,
{
    let ghost origv = stmts_view(stmts@);
    proof {
        lemma_stmts_view_props(stmts@);
        lemma_stmts_wf_forall(origv);
    }
    let mut rest = stmts;
    let mut out: Vec<Stmt> = Vec::new();
    let ghost mut k: int = 0;
    while rest.len() > 0
        invariant
            origv == stmts_view(stmts@),
            stmts_view(stmts@).len() == stmts@.len(),
            forall|i: int| 0 <= i < stmts@.len() ==> #[trigger] stmts_view(stmts@)[i]
                == stmt_view(stmts@[i]),
            forall|i: int| 0 <= i < origv.len() ==> #[trigger] stmt_wf(origv[i]),
            0 <= k <= stmts@.len(),
            k + rest@.len() == stmts@.len(),
            rest@ == stmts@.skip(k),
            stmts_view(out@) == fsn_spec(origv.subrange(0, k)),
            stmts_wf(stmts_view(out@)),
        decreases rest@.len(),
    {
        proof {
            assert(rest@[0] == stmts@[k]);
            assert(rest@.remove(0) =~= stmts@.skip(k + 1));
            assert(origv.subrange(0, k + 1).drop_last() =~= origv.subrange(0, k));
            assert(origv.subrange(0, k + 1).last() == origv[k]);
        }
        let x = rest.remove(0);
        let ghost xv = stmt_view(x);
        let st = match x.kind {
            StmtKind::Loop(body_ir) => {
                let mut is_zeroing = false;
                if body_ir.stmts.len() == 1 {
                    match &body_ir.stmts[0].kind {
                        StmtKind::Sub(o, _) => {
                            if *o == 0 {
                                is_zeroing = true;
                            }
                        },
                        _ => {},
                    }
                }
                proof {
                    lemma_stmts_view_props(body_ir.stmts@);
                    assert(xv.kind == StmtKindV::Loop(stmts_view(body_ir.stmts@)));
                    assert(is_zeroing == is_zeroing_body(stmts_view(body_ir.stmts@)));
                }
                if is_zeroing {
                    Stmt { kind: StmtKind::SetN(0), span: x.span }
                } else {
                    proof {
                        assert(decreases_to!(stmts@ => stmts@[k]));
                        assert(decreases_to!(stmts@[k] => stmts@[k].kind));
                        assert(decreases_to!(stmts@[k].kind => stmts@[k].kind->Loop_0));
                        assert(decreases_to!(stmts@[k].kind->Loop_0
                            => stmts@[k].kind->Loop_0.stmts));
                        assert(stmts@[k].kind->Loop_0.stmts == body_ir.stmts);
                        assert(stmt_wf(xv));
                    }
                    let nb = fsn_stmts(body_ir.stmts);
                    Stmt { kind: StmtKind::Loop(Ir { stmts: nb }), span: x.span }
                }
            },
            other => Stmt { kind: other, span: x.span },
        };
        proof {
            assert(stmt_view(st) == fsn_stmt(xv));
            assert(stmt_wf(xv));
            assert(stmt_wf(stmt_view(st)));
            lemma_stmts_view_push(out@, st);
        }
        out.push(st);
        proof {
            k = k + 1;
        }
    }
    proof {
        assert(origv.subrange(0, k) =~= origv);
    }
    out
}

/// Replace a loop whose body is exactly one `Sub` at offset 0 with
/// `SetN(0)`; recurse into every other loop body.
pub fn pass_find_set_null(ir: &mut Ir)
    requires
        stmts_wf(ir_view(*old(ir))),
    ensures
        ir_view(*final(ir)) == fsn_spec(ir_view(*old(ir))),
        stmts_wf(ir_view(*final(ir))),
{
    let mut tmp: Vec<Stmt> = Vec::new();
    core::mem::swap(&mut tmp, &mut ir.stmts);
    let out = fsn_stmts(tmp);
    ir.stmts = out;
}

fn mat_stmts(stmts: Vec<Stmt>) -> (out: Vec<Stmt>)
    requires
        stmts_wf(stmts_view(stmts@)),
    ensures
        stmts_view(out@) == mat_spec(stmts_view(stmts@)),
        stmts_wf(stmts_view(out@)),
    decreases stmts@,
{
    let ghost origv = stmts_view(stmts@);
    proof {
        lemma_stmts_view_props(stmts@);
        lemma_stmts_wf_forall(origv);
    }
    let mut rest = stmts;
    let mut out: Vec<Stmt> = Vec::new();
    let ghost mut k: int = 0;
    while rest.len() > 0
        invariant
            origv == stmts_view(stmts@),
            stmts_view(stmts@).len() == stmts@.len(),
            forall|i: int| 0 <= i < stmts@.len() ==> #[trigger] stmts_view(stmts@)[i]
                == stmt_view(stmts@[i]),
            forall|i: int| 0 <= i < origv.len() ==> #[trigger] stmt_wf(origv[i]),
            0 <= k <= stmts@.len(),
            k + rest@.len() == stmts@.len(),
            rest@ == stmts@.skip(k),
            stmts_view(out@) == mat_spec(origv.subrange(0, k)),
            stmts_wf(stmts_view(out@)),
        decreases rest@.len(),
    {
        proof {
            assert(rest@[0] == stmts@[k]);
            assert(rest@.remove(0) =~= stmts@.skip(k + 1));
            assert(origv.subrange(0, k + 1).drop_last() =~= origv.subrange(0, k));
            assert(origv.subrange(0, k + 1).last() == origv[k]);
        }
        let x = rest.remove(0);
        let ghost xv = stmt_view(x);
        let st = match x.kind {
            StmtKind::Loop(body_ir) => {
                let mut offset_found: Option<i32> = None;
                if body_ir.stmts.len() == 2 {
                    match (&body_ir.stmts[0].kind, &body_ir.stmts[1].kind) {
                        (StmtKind::Sub(o0, n0), StmtKind::Add(o1, n1)) => {
                            if *o0 == 0 && *n0 == 1 && *n1 == 1 {
                                offset_found = Some(*o1);
                            }
                        },
                        (StmtKind::Add(o1, n1), StmtKind::Sub(o0, n0)) => {
                            if *o0 == 0 && *n0 == 1 && *n1 == 1 {
                                offset_found = Some(*o1);
                            }
                        },
                        _ => {},
                    }
                }
                proof {
                    lemma_stmts_view_props(body_ir.stmts@);
                    assert(xv.kind == StmtKindV::Loop(stmts_view(body_ir.stmts@)));
                    assert(offset_found == move_add_offset(stmts_view(body_ir.stmts@)));
                }
                match offset_found {
                    Some(offset) => Stmt { kind: StmtKind::MoveAddTo { offset }, span: x.span },
                    None => {
                        proof {
                            assert(decreases_to!(stmts@ => stmts@[k]));
                            assert(decreases_to!(stmts@[k] => stmts@[k].kind));
                            assert(decreases_to!(stmts@[k].kind => stmts@[k].kind->Loop_0));
                            assert(decreases_to!(stmts@[k].kind->Loop_0
                                => stmts@[k].kind->Loop_0.stmts));
                            assert(stmts@[k].kind->Loop_0.stmts == body_ir.stmts);
                            assert(stmt_wf(xv));
                        }
                        let nb = mat_stmts(body_ir.stmts);
                        Stmt { kind: StmtKind::Loop(Ir { stmts: nb }), span: x.span }
                    },
                }
            },
            other => Stmt { kind: other, span: x.span },
        };
        proof {
            assert(stmt_view(st) == mat_stmt(xv));
            assert(stmt_wf(xv));
            assert(stmt_wf(stmt_view(st)));
            lemma_stmts_view_push(out@, st);
        }
        out.push(st);
        proof {
            k = k + 1;
        }
    }
    proof {
        assert(origv.subrange(0, k) =~= origv);
    }
    out
}

/// Collapse a loop whose body is exactly `{Sub(0,1), Add(offset,1)}` in
/// either order into `MoveAddTo(offset)`: zero the current cell and add its
/// prior value to the cell at `offset`. Anything else recurses unchanged.
pub fn pass_move_add_to(ir: &mut Ir)
    requires
        stmts_wf(ir_view(*old(ir))),
    ensures
        ir_view(*final(ir)) == mat_spec(ir_view(*old(ir))),
        stmts_wf(ir_view(*final(ir))),
{
    let mut tmp: Vec<Stmt> = Vec::new();
    core::mem::swap(&mut tmp, &mut ir.stmts);
    let out = mat_stmts(tmp);
    ir.stmts = out;
}

/// The whole optimizer chain, in its fixed order.
pub open spec fn optimize_spec(ast: Seq<(InstrV, Span)>) -> Seq<StmtV> {
    mat_spec(
        window_flow(
            WindowKind::AddSubOffset,
            window_flow(
                WindowKind::CancelLeftRightAddSub,
                window_flow(
                    WindowKind::SetN,
                    fsn_spec(group_spec(lower_spec(ast))),
                    Option::None,
                ),
                Option::None,
            ),
            Option::None,
        ),
    )
}

/// Lower a parsed tree and apply every peephole pass once, in the fixed
/// documented order.
pub fn optimize(instrs: &[(Instr, Span)]) -> (ir: Ir)
    requires
        ast_wf(ast_view(instrs@)),
    ensures
        ir_view(ir) == optimize_spec(ast_view(instrs@)),
        stmts_wf(ir_view(ir)),
{
    let mut ir = ast_to_ir(instrs);
    pass_group(&mut ir);
    pass_find_set_null(&mut ir);
    pass_set_n(&mut ir);
    pass_cancel_left_right_add_sub(&mut ir);
    pass_add_sub_offset(&mut ir);
    pass_move_add_to(&mut ir);
    ir
}

} // verus!
