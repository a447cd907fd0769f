//! Source-text parser: turns a byte stream into a nested instruction tree
//! annotated with source spans, enforcing balanced brackets and a nesting
//! depth bound.
use vstd::prelude::*;

verus! {

/// Deepest bracket nesting the parser accepts: a source whose open brackets
/// nest more deeply than this is rejected with a structural error.
pub const MAX_DEPTH: u16 = 1000;

/// The recognized source bytes: `+ - > < . , [ ]`.
pub const B_ADD: u8 = 43;

pub const B_SUB: u8 = 45;

pub const B_RIGHT: u8 = 62;

pub const B_LEFT: u8 = 60;

pub const B_OUT: u8 = 46;

pub const B_IN: u8 = 44;

pub const B_OPEN: u8 = 91;

pub const B_CLOSE: u8 = 93;

/// A half-open byte range `start .. start + len` into the original source.
#[derive(Clone, Copy, PartialEq, Eq, Structural, Debug, Default)]
pub struct Span {
    pub start: u32,
    pub len: u32,
}

impl Span {
    /// The span's end stays representable as a `u32`.
    pub open spec fn wf(self) -> bool {
        self.start + self.len <= u32::MAX
    }

    /// One past the last byte covered by the span.
    pub open spec fn spec_end(self) -> int {
        self.start + self.len
    }

    /// The single-byte span covering position `idx`.
    pub open spec fn spec_single(idx: int) -> Span {
        Span { start: idx as u32, len: 1u32 }
    }

    /// The smallest span covering both `self` and `other`.
    pub open spec fn spec_merge(self, other: Span) -> Span {
        let s = if self.start <= other.start { self.start } else { other.start };
        let e = if self.spec_end() >= other.spec_end() { self.spec_end() } else { other.spec_end() };
        Span { start: s, len: (e - s) as u32 }
    }

    pub fn single(idx: usize) -> (s: Span)
        requires
            idx < u32::MAX,
        ensures
            s == Self::spec_single(idx as int),
            s.wf(),
    {
        Span { start: idx as u32, len: 1 }
    }

    /// The span covering `start..end`.
    pub fn start_end(start: usize, end: usize) -> (s: Span)
        requires
            start <= end,
            end <= u32::MAX,
        ensures
            s == (Span { start: start as u32, len: (end - start) as u32 }),
            s.wf(),
    {
        Span { start: start as u32, len: (end - start) as u32 }
    }

    /// The span covering `start..=end`.
    pub fn start_end_incl(start: usize, end: usize) -> (s: Span)
        requires
            start <= end,
            end < u32::MAX,
        ensures
            s == (Span { start: start as u32, len: (end + 1 - start) as u32 }),
            s.wf(),
    {
        Span { start: start as u32, len: (end - start + 1) as u32 }
    }

    #[must_use]
    pub fn until(&self, other: Span) -> (s: Span)
        requires
            other.start + other.len <= u32::MAX,
            self.len <= other.start + other.len,
        ensures
            s == (Span { start: self.start, len: (other.start + other.len - self.len) as u32 }),
    {
        Span { start: self.start, len: (other.start + other.len) - self.len }
    }

    #[must_use]
    pub fn merge(&self, other: Span) -> (s: Span)
        requires
            self.wf(),
            other.wf(),
        ensures
            s == self.spec_merge(other),
            s.wf(),
    {
        let a = if self.start() <= other.start() { self.start() } else { other.start() };
        let b = if self.end() >= other.end() { self.end() } else { other.end() };
        Span::start_end(a, b)
    }

    pub fn start(&self) -> (r: usize)
        ensures
            r == self.start,
    {
        self.start as usize
    }

    pub fn len(&self) -> (r: usize)
        ensures
            r == self.len,
    {
        self.len as usize
    }

    /// `..end`: one past the last byte covered.
    pub fn end(&self) -> (r: usize)
        requires
            self.wf(),
        ensures
            r == self.spec_end(),
    {
        self.start() + self.len()
    }
}

/// One node of the syntax tree: a leaf instruction or a loop owning a fully
/// nested child sequence.
#[derive(Debug, PartialEq, Eq)]
pub enum Instr {
    Add,
    Sub,
    Right,
    Left,
    Out,
    In,
    Loop(Vec<(Instr, Span)>),
}

/// Structural parse failure: unmatched `]`, unterminated `[`, or nesting
/// deeper than `MAX_DEPTH`.
#[derive(Debug, Clone, PartialEq, Eq)]
pub struct ParseError;

/// Mathematical shape of a syntax tree node, with loop bodies as sequences.
#[verifier::ext_equal]
pub ghost enum InstrV {
    Add,
    Sub,
    Right,
    Left,
    Out,
    In,
    Loop(Seq<(InstrV, Span)>),
}

/// The abstract tree denoted by one executable node.
pub open spec fn instr_view(i: Instr) -> InstrV
    decreases i,
{
    match i {
        Instr::Add => InstrV::Add,
        Instr::Sub => InstrV::Sub,
        Instr::Right => InstrV::Right,
        Instr::Left => InstrV::Left,
        Instr::Out => InstrV::Out,
        Instr::In => InstrV::In,
        Instr::Loop(body) => InstrV::Loop(ast_view(body@)),
    }
}

/// The abstract tree denoted by an executable instruction sequence.
pub open spec fn ast_view(s: Seq<(Instr, Span)>) -> Seq<(InstrV, Span)>
    decreases s,
{
    if s.len() == 0 {
        Seq::empty()
    } else {
        ast_view(s.drop_last()).push((instr_view(s.last().0), s.last().1))
    }
}

/// All spans in the tree are well formed, recursively through loop bodies.
pub open spec fn ast_wf(s: Seq<(InstrV, Span)>) -> bool
    decreases s,
{
    if s.len() == 0 {
        true
    } else {
        ast_wf(s.drop_last()) && item_wf(s.last())
    }
}

pub open spec fn item_wf(item: (InstrV, Span)) -> bool
    decreases item,
{
    item.1.wf() && match item.0 {
        InstrV::Loop(body) => ast_wf(body),
        _ => true,
    }
}

/// Is `b` one of the six leaf instruction bytes?
pub open spec fn is_leaf_byte(b: u8) -> bool {
    b == B_ADD || b == B_SUB || b == B_RIGHT || b == B_LEFT || b == B_OUT || b == B_IN
}

/// The leaf instruction a byte stands for.
pub open spec fn leaf_view(b: u8) -> InstrV {
    if b == B_ADD {
        InstrV::Add
    } else if b == B_SUB {
        InstrV::Sub
    } else if b == B_RIGHT {
        InstrV::Right
    } else if b == B_LEFT {
        InstrV::Left
    } else if b == B_OUT {
        InstrV::Out
    } else {
        InstrV::In
    }
}

/// The grammar of the source language, read from position `pos` with `depth`
/// brackets already open and `acc` the items parsed so far at this level.
///
/// Returns `None` on a structural failure (too-deep nesting, or a bracket
/// opened here that never closes); otherwise the items of this level together
/// with the stopping position: the index of the `]` that ends the level, or
/// the source length when the input ran out first.
pub open spec fn parse_items(
    src: Seq<u8>,
    pos: int,
    depth: int,
    acc: Seq<(InstrV, Span)>,
) -> Option<(Seq<(InstrV, Span)>, int)>
    decreases src.len() - pos,
{
    if pos < 0 || pos >= src.len() {
        Some((acc, src.len() as int))
    } else if src[pos] == B_CLOSE {
        Some((acc, pos))
    } else if src[pos] == B_OPEN {
        if depth + 1 > MAX_DEPTH {
            None
        } else {
            match parse_items(src, pos + 1, depth + 1, Seq::empty()) {
                None => None,
                Some((body, p)) => {
                    if p >= src.len() {
                        None
                    } else if p < pos + 1 {
                        None
                    } else {
                        parse_items(
                            src,
                            p + 1,
                            depth,
                            acc.push((
                                InstrV::Loop(body),
                                Span { start: pos as u32, len: (p + 1 - pos) as u32 },
                            )),
                        )
                    }
                }
            }
        }
    } else if is_leaf_byte(src[pos]) {
        parse_items(src, pos + 1, depth, acc.push((leaf_view(src[pos]), Span::spec_single(pos))))
    } else {
        parse_items(src, pos + 1, depth, acc)
    }
}

/// What parsing a whole source means: every bracket balanced, nesting within
/// the depth bound, every non-instruction byte ignored.
pub open spec fn parse_spec(src: Seq<u8>) -> Option<Seq<(InstrV, Span)>> {
    match parse_items(src, 0, 0, Seq::empty()) {
        None => None,
        Some((items, p)) => if p == src.len() {
            Some(items)
        } else {
            None
        },
    }
}

pub proof fn lemma_ast_view_push(s: Seq<(Instr, Span)>, x: (Instr, Span))
    ensures
        ast_view(s.push(x)) == ast_view(s).push((instr_view(x.0), x.1)),
        ast_wf(ast_view(s.push(x))) == (ast_wf(ast_view(s)) && item_wf((instr_view(x.0), x.1))),
{
    assert(s.push(x).drop_last() =~= s);
    assert(s.push(x).last() == x);
    assert(ast_view(s).push((instr_view(x.0), x.1)).drop_last() =~= ast_view(s));
}

/// Parse the body of one loop: `start_pos` is the position just after the
/// opening bracket at `open_idx`, and `depth` counts the brackets now open.
/// On success returns the body, the loop's span (opening through closing
/// bracket inclusive), and the position just after the closing bracket.
fn parse_loop(src: &Vec<u8>, start_pos: usize, depth: u16, open_idx: usize) -> (r: Result<
    (Vec<(Instr, Span)>, Span, usize),
    ParseError,
>)
    requires
        src@.len() <= u32::MAX,
        start_pos <= src@.len(),
        open_idx < start_pos,
        1 <= depth <= MAX_DEPTH,
    ensures
        match r {
            Ok(ok) => {
                &&& start_pos < ok.2 <= src@.len()
                &&& src@[ok.2 - 1] == B_CLOSE
                &&& parse_items(src@, start_pos as int, depth as int, Seq::empty()) == Some(
                    (ast_view(ok.0@), ok.2 - 1),
                )
                &&& ok.1 == (Span {
                    start: open_idx as u32,
                    len: (ok.2 - open_idx) as u32,
                })
                &&& ast_wf(ast_view(ok.0@))
            },
            Err(_) => ({
                let res = parse_items(src@, start_pos as int, depth as int, Seq::empty());
                res is None || (res matches Some(pr) && pr.1 == src@.len())
            }),
        },
    decreases src@.len() - start_pos,
{
    let mut instrs: Vec<(Instr, Span)> = Vec::new();
    let mut cur: usize = start_pos;
    loop
        invariant
            src@.len() <= u32::MAX,
            start_pos <= cur <= src@.len(),
            open_idx < start_pos,
            1 <= depth <= MAX_DEPTH,
            parse_items(src@, start_pos as int, depth as int, Seq::empty()) == parse_items(
                src@,
                cur as int,
                depth as int,
                ast_view(instrs@),
            ),
            ast_wf(ast_view(instrs@)),
        decreases src@.len() - cur,
    {
        if cur >= src.len() {
            return Err(ParseError);
        }
        let b = src[cur];
        if b == B_CLOSE {
            let sp = Span::start_end_incl(open_idx, cur);
            let next = cur + 1;
            return Ok((instrs, sp, next));
        } else if b == B_OPEN {
            if depth + 1 > MAX_DEPTH {
                return Err(ParseError);
            }
            match parse_loop(src, cur + 1, depth + 1, cur) {
                Err(e) => {
                    return Err(e);
                },
                Ok((body, sp, next)) => {
                    proof {
                        assert(src@[next - 1] == B_CLOSE && src@[cur as int] == B_OPEN);
                        lemma_ast_view_push(instrs@, (Instr::Loop(body), sp));
                    }
                    let loop_instr = (Instr::Loop(body), sp);
                    instrs.push(loop_instr);
                    cur = next;
                },
            }
        } else if b == B_ADD || b == B_SUB || b == B_RIGHT || b == B_LEFT || b == B_OUT || b == B_IN {
            let leaf = if b == B_ADD {
                Instr::Add
            } else if b == B_SUB {
                Instr::Sub
            } else if b == B_RIGHT {
                Instr::Right
            } else if b == B_LEFT {
                Instr::Left
            } else if b == B_OUT {
                Instr::Out
            } else {
                Instr::In
            };
            let sp = Span::single(cur);
            proof {
                lemma_ast_view_push(instrs@, (leaf, sp));
            }
            instrs.push((leaf, sp));
            cur = cur + 1;
        } else {
            cur = cur + 1;
        }
    }
}

/// Parse a whole source. Recognized bytes `+ - > < . ,` map to leaf
/// instructions, `[` opens a nested block closed by the matching `]`, and any
/// other byte is ignored as commentary. Fails exactly when a `]` has no open
/// `[`, a `[` is never closed, or brackets nest deeper than `MAX_DEPTH`.
pub fn parse(src: &Vec<u8>) -> (r: Result<Vec<(Instr, Span)>, ParseError>)
    requires
        src@.len() <= u32::MAX,
    ensures
        match r {
            Ok(ast) => {
                &&& parse_spec(src@) == Some(ast_view(ast@))
                &&& ast_wf(ast_view(ast@))
            },
            Err(_) => parse_spec(src@) is None,
        },
{
    let mut instrs: Vec<(Instr, Span)> = Vec::new();
    let mut cur: usize = 0;
    loop
        invariant
            src@.len() <= u32::MAX,
            cur <= src@.len(),
            parse_items(src@, 0, 0, Seq::empty()) == parse_items(
                src@,
                cur as int,
                0,
                ast_view(instrs@),
            ),
            ast_wf(ast_view(instrs@)),
        decreases src@.len() - cur,
    {
        if cur >= src.len() {
            return Ok(instrs);
        }
        let b = src[cur];
        if b == B_CLOSE {
            return Err(ParseError);
        } else if b == B_OPEN {
            match parse_loop(src, cur + 1, 1, cur) {
                Err(e) => {
                    return Err(e);
                },
                Ok((body, sp, next)) => {
                    proof {
                        assert(src@[next - 1] == B_CLOSE && src@[cur as int] == B_OPEN);
                        lemma_ast_view_push(instrs@, (Instr::Loop(body), sp));
                    }
                    let loop_instr = (Instr::Loop(body), sp);
                    instrs.push(loop_instr);
                    cur = next;
                },
            }
        } else if b == B_ADD || b == B_SUB || b == B_RIGHT || b == B_LEFT || b == B_OUT || b == B_IN {
            let leaf = if b == B_ADD {
                Instr::Add
            } else if b == B_SUB {
                Instr::Sub
            } else if b == B_RIGHT {
                Instr::Right
            } else if b == B_LEFT {
                Instr::Left
            } else if b == B_OUT {
                Instr::Out
            } else {
                Instr::In
            };
            let sp = Span::single(cur);
            proof {
                lemma_ast_view_push(instrs@, (leaf, sp));
            }
            instrs.push((leaf, sp));
            cur = cur + 1;
        } else {
            cur = cur + 1;
        }
    }
}

} // verus!
