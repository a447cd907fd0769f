//! The low-level statement form actually executed: loops are lowered into
//! explicit conditional jumps over absolute statement indices, and the list
//! ends with its single `End` terminator. Lowering establishes, once and by
//! construction, the invariants the interpreter relies on: every jump target
//! is a valid index and the only `End` is the final statement.
use vstd::prelude::*;

use crate::opts::{stmts_view, stmt_view, kind_view, lemma_stmts_view_props, Ir, StmtKindV, StmtV};

verus! {

/// One executable low-level statement.
#[derive(Clone, Copy, PartialEq, Eq, Structural, Debug)]
pub enum Stmt {
    Add(u8),
    Sub(u8),
    AddOffset { offset: i32, n: u8 },
    SubOffset { offset: i32, n: u8 },
    MoveAddTo { offset: i32 },
    Right(usize),
    Left(usize),
    Out,
    In,
    SetN(u8),
    JmpIfZero(usize),
    JmpIfNonZero(usize),
    End,
}

/// A flattened, execution-ready statement list.
#[derive(Debug, PartialEq, Eq)]
pub struct Lir {
    pub stmts: Vec<Stmt>,
}

/// Does this statement keep its jump target, if any, inside a list of
/// length `len`?
pub open spec fn jump_ok(st: Stmt, len: int) -> bool {
    match st {
        Stmt::JmpIfZero(p) => p < len,
        Stmt::JmpIfNonZero(p) => p < len,
        _ => true,
    }
}

/// The invariants execution relies on: the list ends with its only `End`,
/// and every jump targets a valid index of the same list.
pub open spec fn lir_wf(s: Seq<Stmt>) -> bool {
    &&& s.len() >= 1
    &&& s.last() == Stmt::End
    &&& forall|i: int| 0 <= i < s.len() - 1 ==> s[i] != Stmt::End
    &&& forall|i: int| 0 <= i < s.len() ==> jump_ok(#[trigger] s[i], s.len() as int)
}

impl Lir {
    pub open spec fn wf(self) -> bool {
        lir_wf(self.stmts@)
    }
}

/// The statements one optimizer statement lowers to, placed at absolute
/// index `base`. A loop becomes a `JmpIfZero` past the loop bracketing the
/// body, closed by a `JmpIfNonZero` back to the body's start.
pub open spec fn lower_stmt(s: StmtV, base: int) -> Seq<Stmt>
    decreases s,
{
    match s.kind {
        StmtKindV::Add(o, n) => if o == 0 {
            seq![Stmt::Add(n)]
        } else {
            seq![Stmt::AddOffset { offset: o, n }]
        },
        StmtKindV::Sub(o, n) => if o == 0 {
            seq![Stmt::Sub(n)]
        } else {
            seq![Stmt::SubOffset { offset: o, n }]
        },
        StmtKindV::MoveAddTo { offset } => seq![Stmt::MoveAddTo { offset }],
        StmtKindV::Right(n) => seq![Stmt::Right(n)],
        StmtKindV::Left(n) => seq![Stmt::Left(n)],
        StmtKindV::Out => seq![Stmt::Out],
        StmtKindV::In => seq![Stmt::In],
        StmtKindV::SetN(n) => seq![Stmt::SetN(n)],
        StmtKindV::Loop(body) => {
            let inner = lower_block(body, base + 1);
            seq![Stmt::JmpIfZero(((base + 1) + inner.len() + 1) as usize)] + inner + seq![
                Stmt::JmpIfNonZero((base + 1) as usize),
            ]
        },
    }
}

/// The statements a whole block lowers to, starting at absolute index
/// `base`.
pub open spec fn lower_block(b: Seq<StmtV>, base: int) -> Seq<Stmt>
    decreases b,
{
    if b.len() == 0 {
        Seq::empty()
    } else {
        let front = lower_stmt(b[0], base);
        front + lower_block(b.drop_first(), base + front.len())
    }
}

/// A whole program: the lowered top-level block closed by the terminator.
pub open spec fn lir_of(b: Seq<StmtV>) -> Seq<Stmt> {
    lower_block(b, 0).push(Stmt::End)
}

proof fn lemma_lower_block_push(b: Seq<StmtV>, x: StmtV, base: int)
    ensures
        lower_block(b.push(x), base) == lower_block(b, base) + lower_stmt(
            x,
            base + lower_block(b, base).len(),
        ),
    decreases b,
{
    if b.len() == 0 {
        let s1 = b.push(x);
        assert(s1.len() == 1);
        assert(s1[0] == x);
        assert(s1.drop_first() =~= Seq::<StmtV>::empty());
        assert(lower_block(s1, base) == lower_stmt(s1[0], base) + lower_block(
            s1.drop_first(),
            base + lower_stmt(s1[0], base).len(),
        ));
        assert(lower_stmt(x, base) + Seq::<Stmt>::empty() =~= lower_stmt(x, base));
        assert(lower_block(b, base) + lower_stmt(x, base) =~= lower_stmt(x, base));
    } else {
        assert(b.push(x)[0] == b[0]);
        assert(b.push(x).drop_first() =~= b.drop_first().push(x));
        let front = lower_stmt(b[0], base);
        lemma_lower_block_push(b.drop_first(), x, base + front.len());
        assert(lower_block(b, base) + lower_stmt(x, base + lower_block(b, base).len()) =~= front
            + (lower_block(b.drop_first(), base + front.len()) + lower_stmt(
            x,
            base + front.len() + lower_block(b.drop_first(), base + front.len()).len(),
        )));
    }
}

/// Everything a lowered block's statements satisfy: no terminator inside,
/// and every jump target stays between `base + 1` and the end of the block.
pub open spec fn block_targets_ok(out: Seq<Stmt>, base: int) -> bool {
    forall|i: int| 0 <= i < out.len() ==> (#[trigger] out[i]) != Stmt::End && match out[i] {
        Stmt::JmpIfZero(p) => base < p <= base + out.len(),
        Stmt::JmpIfNonZero(p) => base < p <= base + out.len(),
        _ => true,
    }
}

proof fn lemma_lower_stmt_len(s: StmtV, base: int)
    ensures
        lower_stmt(s, base).len() == stmt_emit_len(s),
    decreases s,
{
    match s.kind {
        StmtKindV::Loop(body) => {
            lemma_lower_block_len(body, base + 1);
        },
        _ => {},
    }
}

proof fn lemma_lower_block_len(b: Seq<StmtV>, base: int)
    ensures
        lower_block(b, base).len() == block_emit_len(b),
    decreases b,
{
    if b.len() > 0 {
        lemma_lower_stmt_len(b[0], base);
        lemma_lower_block_len(b.drop_first(), base + lower_stmt(b[0], base).len());
    }
}

proof fn lemma_lower_stmt_props(s: StmtV, base: int)
    requires
        base >= 0,
        base + stmt_emit_len(s) <= usize::MAX,
    ensures
        lower_stmt(s, base).len() == stmt_emit_len(s),
        block_targets_ok(lower_stmt(s, base), base),
    decreases s,
{
    lemma_lower_stmt_len(s, base);
    match s.kind {
        StmtKindV::Loop(body) => {
            lemma_lower_block_len(body, base + 1);
            lemma_lower_block_props(body, base + 1);
            let inner = lower_block(body, base + 1);
            let out = lower_stmt(s, base);
            assert(out.len() == inner.len() + 2);
            assert forall|i: int| 0 <= i < out.len() implies (#[trigger] out[i]) != Stmt::End
                && match out[i] {
                Stmt::JmpIfZero(p) => base < p <= base + out.len(),
                Stmt::JmpIfNonZero(p) => base < p <= base + out.len(),
                _ => true,
            } by {
                if i == 0 {
                    assert(out[0] == Stmt::JmpIfZero(((base + 1) + inner.len() + 1) as usize));
                } else if i < out.len() - 1 {
                    assert(out[i] == inner[i - 1]);
                } else {
                    assert(out[i] == Stmt::JmpIfNonZero((base + 1) as usize));
                }
            }
        },
        _ => {},
    }
}

proof fn lemma_lower_block_props(b: Seq<StmtV>, base: int)
    requires
        base >= 0,
        base + block_emit_len(b) <= usize::MAX,
    ensures
        lower_block(b, base).len() == block_emit_len(b),
        block_targets_ok(lower_block(b, base), base),
    decreases b,
{
    lemma_lower_block_len(b, base);
    if b.len() > 0 {
        let front = lower_stmt(b[0], base);
        let rest = lower_block(b.drop_first(), base + front.len());
        lemma_lower_stmt_len(b[0], base);
        lemma_lower_block_len(b.drop_first(), base + front.len());
        lemma_lower_stmt_props(b[0], base);
        lemma_lower_block_props(b.drop_first(), base + front.len());
        let out = lower_block(b, base);
        assert(out =~= front + rest);
        assert forall|i: int| 0 <= i < out.len() implies (#[trigger] out[i]) != Stmt::End
            && match out[i] {
            Stmt::JmpIfZero(p) => base < p <= base + out.len(),
            Stmt::JmpIfNonZero(p) => base < p <= base + out.len(),
            _ => true,
        } by {
            if i < front.len() {
                assert(out[i] == front[i]);
            } else {
                assert(out[i] == rest[i - front.len()]);
            }
        }
    }
}

/// How many low-level statements one optimizer statement emits.
pub open spec fn stmt_emit_len(s: StmtV) -> nat
    decreases s,
{
    match s.kind {
        StmtKindV::Loop(body) => block_emit_len(body) + 2,
        _ => 1nat,
    }
}

/// How many low-level statements a block emits.
pub open spec fn block_emit_len(b: Seq<StmtV>) -> nat
    decreases b,
{
    if b.len() == 0 {
        0
    } else {
        stmt_emit_len(b[0]) + block_emit_len(b.drop_first())
    }
}

/// Append the lowering of block `b` to `out`, jumps made absolute against
/// the statements already emitted.
fn emit_block(out: &mut Vec<Stmt>, b: &Ir)
    ensures
        final(out)@ == old(out)@ + lower_block(stmts_view(b.stmts@), old(out)@.len() as int),
    decreases b.stmts@,
{
    let ghost bv = stmts_view(b.stmts@);
    proof {
        lemma_stmts_view_props(b.stmts@);
    }
    let mut i: usize = 0;
    while i < b.stmts.len()
        invariant
            bv == stmts_view(b.stmts@),
            stmts_view(b.stmts@).len() == b.stmts@.len(),
            forall|j: int| 0 <= j < b.stmts@.len() ==> #[trigger] stmts_view(b.stmts@)[j]
                == stmt_view(b.stmts@[j]),
            i <= b.stmts@.len(),
            out@ == old(out)@ + lower_block(bv.take(i as int), old(out)@.len() as int),
        decreases b.stmts@.len() - i,
    {
        let ghost base: int = old(out)@.len() as int;
        let ghost seg_base: int = out@.len() as int;
        proof {
            assert(bv.take(i + 1 as int) =~= bv.take(i as int).push(bv[i as int]));
            lemma_lower_block_push(bv.take(i as int), bv[i as int], base);
            assert(seg_base == base + lower_block(bv.take(i as int), base).len());
            assert(bv[i as int] == stmt_view(b.stmts@[i as int]));
        }
        match &b.stmts[i].kind {
            crate::opts::StmtKind::Add(o, n) => {
                if *o == 0 {
                    out.push(Stmt::Add(*n));
                } else {
                    out.push(Stmt::AddOffset { offset: *o, n: *n });
                }
            },
            crate::opts::StmtKind::Sub(o, n) => {
                if *o == 0 {
                    out.push(Stmt::Sub(*n));
                } else {
                    out.push(Stmt::SubOffset { offset: *o, n: *n });
                }
            },
            crate::opts::StmtKind::MoveAddTo { offset } => {
                out.push(Stmt::MoveAddTo { offset: *offset });
            },
            crate::opts::StmtKind::Right(n) => {
                out.push(Stmt::Right(*n));
            },
            crate::opts::StmtKind::Left(n) => {
                out.push(Stmt::Left(*n));
            },
            crate::opts::StmtKind::Out => {
                out.push(Stmt::Out);
            },
            crate::opts::StmtKind::In => {
                out.push(Stmt::In);
            },
            crate::opts::StmtKind::SetN(n) => {
                out.push(Stmt::SetN(*n));
            },
            crate::opts::StmtKind::Loop(body_ir) => {
                proof {
                    assert(decreases_to!(b.stmts@ => b.stmts@[i as int]));
                    assert(decreases_to!(b.stmts@[i as int] => b.stmts@[i as int].kind));
                    assert(decreases_to!(b.stmts@[i as int].kind
                        => b.stmts@[i as int].kind->Loop_0));
                    assert(decreases_to!(b.stmts@[i as int].kind->Loop_0
                        => b.stmts@[i as int].kind->Loop_0.stmts));
                }
                let jz = out.len();
                out.push(Stmt::JmpIfZero(0));
                emit_block(out, body_ir);
                let cur_len = out.len();
                proof {
                    assert(jz + 1 <= cur_len);
                }
                out.push(Stmt::JmpIfNonZero(jz + 1));
                let exit = out.len();
                let ghost before_patch = out@;
                out[jz] = Stmt::JmpIfZero(exit);
                proof {
                    let bodyv = kind_view(b.stmts@[i as int].kind)->Loop_0;
                    let inner = lower_block(bodyv, seg_base + 1);
                    assert(before_patch == (old(out)@ + lower_block(bv.take(i as int), base)).push(
                        Stmt::JmpIfZero(0),
                    ) + inner + seq![Stmt::JmpIfNonZero((jz + 1) as usize)]);
                    assert(exit == seg_base + 1 + inner.len() + 1);
                    assert(out@ =~= (old(out)@ + lower_block(bv.take(i as int), base)) + (seq![
                        Stmt::JmpIfZero(((seg_base + 1) + inner.len() + 1) as usize),
                    ] + inner + seq![Stmt::JmpIfNonZero((seg_base + 1) as usize)]));
                    assert(lower_stmt(bv[i as int], seg_base) == seq![
                        Stmt::JmpIfZero(((seg_base + 1) + inner.len() + 1) as usize),
                    ] + inner + seq![Stmt::JmpIfNonZero((seg_base + 1) as usize)]);
                }
            },
        }
        proof {
            assert(out@ =~= old(out)@ + lower_block(bv.take(i + 1 as int), base));
        }
        i = i + 1;
    }
    proof {
        assert(bv.take(b.stmts@.len() as int) =~= bv);
    }
}

/// Lower an optimized block into the flat, jump-based executable form,
/// establishing the interpreter's safety invariants by construction.
pub fn lower(ir: &Ir) -> (lir: Lir)
    ensures
        lir.stmts@ == lir_of(crate::opts::ir_view(*ir)),
        lir.wf(),
{
    let mut out: Vec<Stmt> = Vec::new();
    emit_block(&mut out, ir);
    out.push(Stmt::End);
    let total = out.len();
    proof {
        let bv = crate::opts::ir_view(*ir);
        assert(out@ =~= lir_of(bv));
        lemma_lower_block_len(bv, 0);
        assert(block_emit_len(bv) == total - 1);
        lemma_lower_block_props(bv, 0);
        let blk = lower_block(bv, 0);
        assert forall|i: int| 0 <= i < out@.len() - 1 implies out@[i] != Stmt::End by {
            assert(out@[i] == blk[i]);
        }
        assert forall|i: int| 0 <= i < out@.len() implies jump_ok(
            #[trigger] out@[i],
            out@.len() as int,
        ) by {
            if i < out@.len() - 1 {
                assert(out@[i] == blk[i]);
            }
        }
    }
    Lir { stmts: out }
}

} // verus!
