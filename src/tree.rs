//! What every flattening satisfies: the shape of plain templates, the
//! pre-order numbering of ids, and independence from where numbering starts.
use std::rc::Rc;
use vstd::prelude::*;

use crate::blocks::{
    arms, arms_nodes, flat, is_plain, lemma_run_start, n_nodes, path_of, push_of, run_start, Block, Branch, NodeId,
    Op,
};
use crate::codegen::{block_stmt, arm_stmt, arms_routines, arms_stmt, program, routines, skeleton};
use crate::parse::{Constituent, Else, If};

verus! {

/// The ids of `bs` and of everything nested in them, in pre-order: a block,
/// then for a conditional each alternative followed by its body.
pub open spec fn block_ids(bs: Seq<Block>) -> Seq<nat>
    decreases bs,
{
    if bs.len() == 0 {
        Seq::empty()
    } else {
        let last = bs[bs.len() - 1];
        block_ids(bs.subrange(0, bs.len() - 1)) + seq![last.id.id as nat] + match last.op {
            Op::Push(_) => Seq::empty(),
            Op::Branch(brs) => arm_ids(brs@),
        }
    }
}

/// The ids of alternatives and their bodies, in pre-order.
pub open spec fn arm_ids(brs: Seq<Branch>) -> Seq<nat>
    decreases brs,
{
    if brs.len() == 0 {
        Seq::empty()
    } else {
        seq![brs[0].id.id as nat] + block_ids(brs[0].body@) + arm_ids(brs.subrange(1, brs.len() as int))
    }
}

/// `ids` is `lo, lo + 1, ..., lo + n - 1`.
pub open spec fn counts_from(ids: Seq<nat>, lo: nat, n: nat) -> bool {
    ids.len() == n && forall|k: int| 0 <= k < n ==> #[trigger] ids[k] == lo + k
}

proof fn lemma_counts_concat(a: Seq<nat>, b: Seq<nat>, lo: nat, n1: nat, n2: nat)
    requires
        counts_from(a, lo, n1),
        counts_from(b, lo + n1, n2),
    ensures
        counts_from(a + b, lo, n1 + n2),
{
    assert forall|k: int| 0 <= k < n1 + n2 implies #[trigger] (a + b)[k] == lo + k by {
        if k >= n1 {
            assert(b[k - n1] == lo + n1 + (k - n1));
        }
    }
}

proof fn lemma_run_start_bounds(cs: Seq<Constituent>)
    requires
        cs.len() > 0,
        is_plain(cs[cs.len() - 1]),
    ensures
        run_start(cs) < cs.len(),
        forall|m: int| run_start(cs) <= m < cs.len() ==> is_plain(#[trigger] cs[m]),
        run_start(cs) == 0 || !is_plain(cs[run_start(cs) - 1]),
    decreases cs.len(),
{
    let pre = cs.drop_last();
    assert(run_start(cs) == run_start(pre));
    if pre.len() > 0 && is_plain(pre.last()) {
        lemma_run_start_bounds(pre);
        assert forall|m: int| run_start(cs) <= m < cs.len() implies is_plain(#[trigger] cs[m]) by {
            if m < cs.len() - 1 {
                assert(pre[m] == cs[m]);
            }
        }
    } else {
        assert(run_start(pre) == pre.len());
    }
}

/// A template made of literals and bound values alone flattens into exactly
/// one leaf block, whose pushes are the template's constituents one for one,
/// in source order.
pub proof fn lemma_plain_template_one_block(
    cs: Seq<Constituent>,
    bs: Seq<Block>,
    parent: Option<Rc<NodeId>>,
    lo: nat,
)
    requires
        cs.len() > 0,
        forall|k: int| 0 <= k < cs.len() ==> (#[trigger] cs[k] is Literal || cs[k] is Bind),
        flat(cs, bs, parent, lo),
    ensures
        bs.len() == 1,
        bs[0].op is Push,
        bs[0].op->Push_0@ == cs.map_values(|c| push_of(c)),
{
    assert(cs[cs.len() - 1] is Literal || cs[cs.len() - 1] is Bind);
    lemma_run_start_bounds(cs);
    assert(run_start(cs) == 0) by {
        if run_start(cs) > 0 {
            assert(is_plain(cs[run_start(cs) - 1]));
        }
    }
    assert(cs.subrange(0, cs.len() as int) =~= cs);
    assert(flat(cs.subrange(0, 0), bs.subrange(0, bs.len() - 1), parent, lo));
    assert(cs.subrange(0, 0).len() == 0);
    assert(bs.subrange(0, bs.len() - 1).len() == 0);
}

/// Ids are handed out in pre-order without gaps: the ids of a flattening
/// started at `lo`, read in pre-order, are `lo, lo + 1, ...`, one for each
/// id that the template needs, so they are distinct and strictly increasing.
pub proof fn lemma_ids_preorder(cs: Seq<Constituent>, bs: Seq<Block>, parent: Option<Rc<NodeId>>, lo: nat)
    requires
        flat(cs, bs, parent, lo),
    ensures
        counts_from(block_ids(bs), lo, n_nodes(cs)),
        forall|i: int, j: int| 0 <= i < j < block_ids(bs).len() ==> block_ids(bs)[i] < block_ids(bs)[j],
{
    lemma_flat_ids(cs, bs, parent, lo);
}

proof fn lemma_flat_ids(cs: Seq<Constituent>, bs: Seq<Block>, parent: Option<Rc<NodeId>>, lo: nat)
    requires
        flat(cs, bs, parent, lo),
    ensures
        counts_from(block_ids(bs), lo, n_nodes(cs)),
    decreases cs,
{
    if cs.len() == 0 {
        assert(block_ids(bs) =~= Seq::<nat>::empty());
    } else {
        let last = bs[bs.len() - 1];
        let pre = bs.subrange(0, bs.len() - 1);
        let cpre = cs.subrange(0, cs.len() - 1);
        match cs[cs.len() - 1] {
            Constituent::If(i) => {
                let first = lo + n_nodes(cpre);
                lemma_flat_ids(cpre, pre, parent, lo);
                lemma_arms_ids(i, last.op->Branch_0@, Some(last.id), 0, first + 1, "if"@);
                lemma_counts_concat(block_ids(pre), seq![last.id.id as nat], lo, n_nodes(cpre), 1);
                lemma_counts_concat(
                    block_ids(pre) + seq![last.id.id as nat],
                    arm_ids(last.op->Branch_0@),
                    lo,
                    n_nodes(cpre) + 1,
                    arms_nodes(i),
                );
            },
            Constituent::Match(_) => {},
            _ => {
                let k = run_start(cs);
                lemma_run_start_bounds(cs);
                lemma_run_start(cs, k);
                lemma_flat_ids(cs.subrange(0, k as int), pre, parent, lo);
                lemma_counts_concat(block_ids(pre), seq![last.id.id as nat], lo, n_nodes(cs.subrange(0, k as int)), 1);
                assert(block_ids(bs) =~= block_ids(pre) + seq![last.id.id as nat]);
            },
        }
    }
}

proof fn lemma_arms_ids(i: If, brs: Seq<Branch>, parent: Option<Rc<NodeId>>, pos: nat, lo: nat, kw: Seq<char>)
    requires
        arms(i, brs, parent, pos, lo, kw),
    ensures
        counts_from(arm_ids(brs), lo, arms_nodes(i)),
    decreases i,
{
    let body = i.then_branch.constituents@;
    let body_end = lo + 1 + n_nodes(body);
    let rest = brs.subrange(1, brs.len() as int);
    lemma_flat_ids(body, brs[0].body@, Some(brs[0].id), lo + 1);
    lemma_counts_concat(seq![brs[0].id.id as nat], block_ids(brs[0].body@), lo, 1, n_nodes(body));
    let head = seq![brs[0].id.id as nat] + block_ids(brs[0].body@);
    match i.else_branch {
        None => {
            assert(arm_ids(rest) =~= Seq::<nat>::empty());
            assert(arm_ids(brs) =~= head);
        },
        Some(Else::If(j)) => {
            lemma_arms_ids(*j, rest, parent, pos + 1, body_end, "else if"@);
            lemma_counts_concat(head, arm_ids(rest), lo, 1 + n_nodes(body), arms_nodes(*j));
        },
        Some(Else::Block(b)) => {
            let els = b.constituents@;
            lemma_flat_ids(els, brs[1].body@, Some(brs[1].id), body_end + 1);
            assert(rest[0] == brs[1]);
            assert(rest.subrange(1, rest.len() as int) =~= Seq::<Branch>::empty());
            assert(arm_ids(rest.subrange(1, rest.len() as int)) =~= Seq::<nat>::empty());
            lemma_counts_concat(seq![brs[1].id.id as nat], block_ids(brs[1].body@), body_end, 1, n_nodes(els));
            assert(arm_ids(rest) =~= seq![brs[1].id.id as nat] + block_ids(brs[1].body@));
            lemma_counts_concat(head, arm_ids(rest), lo, 1 + n_nodes(body), 1 + n_nodes(els));
        },
    }
}

/// `m` and `n` sit at the same sibling position, and their ids are as far
/// from `lx` and from `ly` respectively.
pub open spec fn same_node(m: NodeId, n: NodeId, lx: nat, ly: nat) -> bool {
    m.local_index == n.local_index && m.id + ly == n.id + lx
}

/// `x` and `y` have the same shape, keywords, conditions, pushes and sibling
/// positions, and ids at the same distances from `lx` and from `ly`.
pub open spec fn same_blocks(x: Seq<Block>, y: Seq<Block>, lx: nat, ly: nat) -> bool
    decreases x,
{
    &&& x.len() == y.len()
    &&& x.len() > 0 ==> {
        &&& same_blocks(x.subrange(0, x.len() - 1), y.subrange(0, y.len() - 1), lx, ly)
        &&& same_block(x[x.len() - 1], y[y.len() - 1], lx, ly)
    }
}

/// See [`same_blocks`].
pub open spec fn same_block(a: Block, b: Block, lx: nat, ly: nat) -> bool
    decreases a,
{
    &&& same_node(*a.id, *b.id, lx, ly)
    &&& match a.op {
        Op::Push(p) => b.op is Push && b.op->Push_0@ == p@,
        Op::Branch(r) => b.op is Branch && same_arms(r@, b.op->Branch_0@, lx, ly),
    }
}

/// See [`same_blocks`].
pub open spec fn same_arms(r: Seq<Branch>, s: Seq<Branch>, lx: nat, ly: nat) -> bool
    decreases r,
{
    &&& r.len() == s.len()
    &&& r.len() > 0 ==> {
        &&& same_arm(r[0], s[0], lx, ly)
        &&& same_arms(r.subrange(1, r.len() as int), s.subrange(1, s.len() as int), lx, ly)
    }
}

/// See [`same_blocks`].
pub open spec fn same_arm(a: Branch, b: Branch, lx: nat, ly: nat) -> bool
    decreases a,
{
    &&& a.keywords@ == b.keywords@
    &&& a.cond == b.cond
    &&& same_node(*a.id, *b.id, lx, ly)
    &&& same_blocks(a.body@, b.body@, lx, ly)
}

/// Flattening the same template twice gives the same tree: the same shape,
/// keywords, conditions, pushes and sibling positions, with ids at the same
/// distances from where each numbering started (so the same ids where both
/// counters started alike), whatever the parents.
pub proof fn lemma_flattening_repeatable(
    cs: Seq<Constituent>,
    x: Seq<Block>,
    px: Option<Rc<NodeId>>,
    lx: nat,
    y: Seq<Block>,
    py: Option<Rc<NodeId>>,
    ly: nat,
)
    requires
        flat(cs, x, px, lx),
        flat(cs, y, py, ly),
    ensures
        same_blocks(x, y, lx, ly),
{
    lemma_flat_same(cs, x, px, lx, y, py, ly, lx, ly);
}

proof fn lemma_flat_same(
    cs: Seq<Constituent>,
    x: Seq<Block>,
    px: Option<Rc<NodeId>>,
    ax: nat,
    y: Seq<Block>,
    py: Option<Rc<NodeId>>,
    ay: nat,
    lx: nat,
    ly: nat,
)
    requires
        flat(cs, x, px, ax),
        flat(cs, y, py, ay),
        ax + ly == ay + lx,
    ensures
        same_blocks(x, y, lx, ly),
    decreases cs,
{
    if cs.len() > 0 {
        let cpre = cs.subrange(0, cs.len() - 1);
        let xl = x[x.len() - 1];
        let yl = y[y.len() - 1];
        let xp = x.subrange(0, x.len() - 1);
        let yp = y.subrange(0, y.len() - 1);
        match cs[cs.len() - 1] {
            Constituent::If(i) => {
                lemma_flat_same(cpre, xp, px, ax, yp, py, ay, lx, ly);
                let fx = ax + n_nodes(cpre);
                let fy = ay + n_nodes(cpre);
                lemma_arms_same(i, xl.op->Branch_0@, Some(xl.id), fx + 1, yl.op->Branch_0@, Some(yl.id), fy + 1, 0, "if"@, lx, ly);
                assert(same_block(xl, yl, lx, ly));
            },
            Constituent::Match(_) => {},
            _ => {
                let k = run_start(cs);
                lemma_flat_same(cs.subrange(0, k as int), xp, px, ax, yp, py, ay, lx, ly);
                assert(same_block(xl, yl, lx, ly));
            },
        }
    }
}

proof fn lemma_arms_same(
    i: If,
    r: Seq<Branch>,
    px: Option<Rc<NodeId>>,
    ax: nat,
    s: Seq<Branch>,
    py: Option<Rc<NodeId>>,
    ay: nat,
    pos: nat,
    kw: Seq<char>,
    lx: nat,
    ly: nat,
)
    requires
        arms(i, r, px, pos, ax, kw),
        arms(i, s, py, pos, ay, kw),
        ax + ly == ay + lx,
    ensures
        same_arms(r, s, lx, ly),
    decreases i,
{
    let body = i.then_branch.constituents@;
    lemma_flat_same(body, r[0].body@, Some(r[0].id), ax + 1, s[0].body@, Some(s[0].id), ay + 1, lx, ly);
    assert(same_arm(r[0], s[0], lx, ly));
    let rr = r.subrange(1, r.len() as int);
    let sr = s.subrange(1, s.len() as int);
    let ex = ax + 1 + n_nodes(body);
    let ey = ay + 1 + n_nodes(body);
    match i.else_branch {
        None => {
            assert(same_arms(rr, sr, lx, ly));
        },
        Some(Else::If(j)) => {
            lemma_arms_same(*j, rr, px, ex, sr, py, ey, pos + 1, "else if"@, lx, ly);
        },
        Some(Else::Block(b)) => {
            lemma_flat_same(b.constituents@, r[1].body@, Some(r[1].id), ex + 1, s[1].body@, Some(s[1].id), ey + 1, lx, ly);
            assert(rr[0] == r[1]);
            assert(sr[0] == s[1]);
            assert(same_arm(r[1], s[1], lx, ly));
            assert(rr.subrange(1, rr.len() as int).len() == 0);
            assert(sr.subrange(1, sr.len() as int).len() == 0);
            assert(same_arms(rr.subrange(1, rr.len() as int), sr.subrange(1, sr.len() as int), lx, ly));
            assert(same_arms(rr, sr, lx, ly));
        },
    }
}

/// The path of the node that `p` names, empty at the root.
pub open spec fn parent_path(p: Option<Rc<NodeId>>) -> Seq<u32> {
    match p {
        Some(n) => path_of(*n),
        None => Seq::empty(),
    }
}

proof fn lemma_path_of(n: Rc<NodeId>)
    ensures
        path_of(*n) == parent_path(n.parent).push(n.local_index),
{
    assert(seq![n.local_index] =~= Seq::<u32>::empty().push(n.local_index));
}

proof fn lemma_arms_text_pointwise(r: Seq<Branch>, s: Seq<Branch>)
    requires
        r.len() == s.len(),
        forall|k: int| 0 <= k < r.len() ==> arm_stmt(#[trigger] r[k]) == arm_stmt(s[k]),
        forall|k: int| 0 <= k < r.len() ==> routines(#[trigger] r[k].body@) == routines(s[k].body@),
    ensures
        arms_stmt(r) == arms_stmt(s),
        arms_routines(r) == arms_routines(s),
    decreases r.len(),
{
    if r.len() > 0 {
        let rp = r.subrange(0, r.len() - 1);
        let sp = s.subrange(0, s.len() - 1);
        assert forall|k: int| 0 <= k < rp.len() implies arm_stmt(#[trigger] rp[k]) == arm_stmt(sp[k]) by {
            assert(rp[k] == r[k] && sp[k] == s[k]);
        }
        assert forall|k: int| 0 <= k < rp.len() implies routines(#[trigger] rp[k].body@) == routines(
            sp[k].body@,
        ) by {
            assert(rp[k] == r[k] && sp[k] == s[k]);
        }
        lemma_arms_text_pointwise(rp, sp);
        assert(routines(r[r.len() - 1].body@) == routines(s[s.len() - 1].body@));
        assert(arm_stmt(r[r.len() - 1]) == arm_stmt(s[s.len() - 1]));
    }
}

proof fn lemma_flat_text(
    cs: Seq<Constituent>,
    x: Seq<Block>,
    px: Option<Rc<NodeId>>,
    ax: nat,
    y: Seq<Block>,
    py: Option<Rc<NodeId>>,
    ay: nat,
)
    requires
        flat(cs, x, px, ax),
        flat(cs, y, py, ay),
        parent_path(px) == parent_path(py),
    ensures
        x.len() == y.len(),
        skeleton(x) == skeleton(y),
        routines(x) == routines(y),
    decreases cs,
{
    if cs.len() > 0 {
        let cpre = cs.subrange(0, cs.len() - 1);
        let xl = x[x.len() - 1];
        let yl = y[y.len() - 1];
        let xp = x.subrange(0, x.len() - 1);
        let yp = y.subrange(0, y.len() - 1);
        lemma_path_of(xl.id);
        lemma_path_of(yl.id);
        match cs[cs.len() - 1] {
            Constituent::If(i) => {
                lemma_flat_text(cpre, xp, px, ax, yp, py, ay);
                assert(path_of(*xl.id) == path_of(*yl.id));
                let fx = ax + n_nodes(cpre);
                let fy = ay + n_nodes(cpre);
                let r = xl.op->Branch_0@;
                let s = yl.op->Branch_0@;
                lemma_arms_text(i, r, Some(xl.id), fx + 1, s, Some(yl.id), fy + 1, 0, "if"@);
                lemma_arms_text_pointwise(r, s);
                assert(block_stmt(xl) == block_stmt(yl));
            },
            Constituent::Match(_) => {},
            _ => {
                let k = run_start(cs);
                lemma_flat_text(cs.subrange(0, k as int), xp, px, ax, yp, py, ay);
                assert(path_of(*xl.id) == path_of(*yl.id));
                assert(xl.op->Push_0@ == yl.op->Push_0@);
                assert(block_stmt(xl) == block_stmt(yl));
            },
        }
    }
}

proof fn lemma_arms_text(
    i: If,
    r: Seq<Branch>,
    px: Option<Rc<NodeId>>,
    ax: nat,
    s: Seq<Branch>,
    py: Option<Rc<NodeId>>,
    ay: nat,
    pos: nat,
    kw: Seq<char>,
)
    requires
        arms(i, r, px, pos, ax, kw),
        arms(i, s, py, pos, ay, kw),
        parent_path(px) == parent_path(py),
    ensures
        r.len() == s.len(),
        forall|k: int| 0 <= k < r.len() ==> arm_stmt(#[trigger] r[k]) == arm_stmt(s[k]),
        forall|k: int| 0 <= k < r.len() ==> routines(#[trigger] r[k].body@) == routines(s[k].body@),
    decreases i,
{
    let body = i.then_branch.constituents@;
    lemma_path_of(r[0].id);
    lemma_path_of(s[0].id);
    lemma_flat_text(body, r[0].body@, Some(r[0].id), ax + 1, s[0].body@, Some(s[0].id), ay + 1);
    assert(arm_stmt(r[0]) == arm_stmt(s[0]));
    let rr = r.subrange(1, r.len() as int);
    let sr = s.subrange(1, s.len() as int);
    let ex = ax + 1 + n_nodes(body);
    let ey = ay + 1 + n_nodes(body);
    match i.else_branch {
        None => {},
        Some(Else::If(j)) => {
            lemma_arms_text(*j, rr, px, ex, sr, py, ey, pos + 1, "else if"@);
            assert forall|k: int| 0 <= k < r.len() implies arm_stmt(#[trigger] r[k]) == arm_stmt(s[k])
                && routines(r[k].body@) == routines(s[k].body@) by {
                if k > 0 {
                    assert(rr[k - 1] == r[k] && sr[k - 1] == s[k]);
                }
            }
        },
        Some(Else::Block(b)) => {
            lemma_path_of(r[1].id);
            lemma_path_of(s[1].id);
            lemma_flat_text(b.constituents@, r[1].body@, Some(r[1].id), ex + 1, s[1].body@, Some(s[1].id), ey + 1);
            assert(arm_stmt(r[1]) == arm_stmt(s[1]));
        },
    }
}

/// Compiling the same template twice gives the same program text: any two
/// texts that are each the program of a flattening of `cs` from the root
/// are equal, whatever ids the two flattenings started from.
pub proof fn lemma_codegen_repeatable(cs: Seq<Constituent>, x: Seq<Block>, lx: nat, y: Seq<Block>, ly: nat)
    requires
        flat(cs, x, None, lx),
        flat(cs, y, None, ly),
    ensures
        program(x) == program(y),
{
    lemma_flat_text(cs, x, None, lx, y, None, ly);
}

} // verus!
