//! Flattening of a template into addressable emission blocks.
use std::rc::Rc;
use vstd::prelude::*;

use crate::parse::{constituent_has_match, has_match, if_has_match, Constituent, Else, If};

verus! {

/// The id source of one compilation.
pub struct Counter {
    next_id: u32,
}

impl View for Counter {
    type V = nat;

    closed spec fn view(&self) -> nat {
        self.next_id as nat
    }
}

impl Counter {
    /// A counter that hands out 0 first.
    pub fn new() -> (r: Self)
        ensures
            r@ == 0,
    {
        Counter { next_id: 0 }
    }

    /// Hands out the current id and moves past it.
    pub fn next(&mut self) -> (r: u32)
        requires
            old(self)@ < u32::MAX,
        ensures
            r as nat == old(self)@,
            final(self)@ == old(self)@ + 1,
    {
        let next = self.next_id;
        self.next_id = self.next_id + 1;
        next
    }
}

/// The identity of one block or branch: a fresh id, the position among its
/// siblings, and the identity of the node it sits under (none at the root).
pub struct NodeId {
    pub parent: Option<Rc<NodeId>>,
    pub id: u32,
    pub local_index: u32,
}

/// The sibling positions on the way from the root down to `n`, `n`'s own last.
pub open spec fn path_of(n: NodeId) -> Seq<u32>
    decreases n,
{
    match n.parent {
        Some(p) => path_of(*p).push(n.local_index),
        None => seq![n.local_index],
    }
}

/// The node under which new children are created.
pub struct Parent(Option<Rc<NodeId>>);

impl View for Parent {
    type V = Option<Rc<NodeId>>;

    closed spec fn view(&self) -> Option<Rc<NodeId>> {
        self.0
    }
}

impl Parent {
    /// The parent of the template's top-level blocks.
    pub fn root() -> (r: Self)
        ensures
            r@ is None,
    {
        Parent(None)
    }

    /// The identity of this parent; there is one except at the root.
    pub fn id(&self) -> (r: Rc<NodeId>)
        requires
            self@ is Some,
        ensures
            r == self@->Some_0,
    {
        match &self.0 {
            Some(n) => n.clone(),
            None => vstd::pervasive::unreached(),
        }
    }

    /// Creates the child at sibling position `index`, with the next id.
    pub fn child(&self, index: usize, counter: &mut Counter) -> (r: Parent)
        requires
            old(counter)@ < u32::MAX,
            index <= u32::MAX,
        ensures
            final(counter)@ == old(counter)@ + 1,
            r@ is Some,
            node_is(*r@->Some_0, self@, index as nat, old(counter)@),
    {
        let parent = match &self.0 {
            Some(n) => Some(n.clone()),
            None => None,
        };
        Parent(Some(Rc::new(NodeId { parent, id: counter.next(), local_index: index as u32 })))
    }
}

/// `n` is the node with id `id` at sibling position `pos` under `parent`.
pub open spec fn node_is(n: NodeId, parent: Option<Rc<NodeId>>, pos: nat, id: nat) -> bool {
    n.parent == parent && n.local_index as nat == pos && n.id as nat == id
}

/// One emission operation of a leaf block.
pub enum Push {
    Lit(String),
    Bind(String),
    /// A nested scope: a unit of its own, which writes nothing here.
    Empty,
}

/// One alternative of a conditional: its keywords (`if`, `else if` or
/// `else`), its condition (none for a final `else`), and its body.
pub struct Branch {
    pub keywords: String,
    pub cond: Option<String>,
    pub body: Vec<Block>,
    pub id: Rc<NodeId>,
}

pub enum Op {
    Push(Vec<Push>),
    /// A flattened conditional: one entry per alternative, in source order.
    Branch(Vec<Branch>),
}

pub struct Block {
    pub op: Op,
    pub id: Rc<NodeId>,
}

/// The template holds a `match`, which is never lowered.
#[derive(Debug, PartialEq, Eq, Structural)]
pub enum Unsupported {
    Match,
}

/// Literals, bound values and nested scopes go into leaf blocks.
pub open spec fn is_plain(c: Constituent) -> bool {
    c is Literal || c is Bind || c is Block
}

/// The push that a plain constituent becomes.
pub open spec fn push_of(c: Constituent) -> Push {
    match c {
        Constituent::Literal(s) => Push::Lit(s),
        Constituent::Bind(e) => Push::Bind(e),
        _ => Push::Empty,
    }
}

/// Where the run of plain constituents that ends `cs` begins.
pub open spec fn run_start(cs: Seq<Constituent>) -> nat
    decreases cs.len(),
{
    if cs.len() > 0 && is_plain(cs.last()) {
        run_start(cs.drop_last())
    } else {
        cs.len()
    }
}

/// How many ids the flattening of `cs` hands out: one per leaf block, and for
/// each conditional one for the block and those of its alternatives.
pub open spec fn n_nodes(cs: Seq<Constituent>) -> nat
    decreases cs,
{
    if cs.len() == 0 {
        0
    } else {
        let pre = cs.subrange(0, cs.len() - 1);
        n_nodes(pre) + match cs[cs.len() - 1] {
            Constituent::If(i) => 1 + arms_nodes(i),
            Constituent::Match(_) => 0,
            _ => if pre.len() == 0 || !is_plain(pre.last()) { 1 } else { 0 },
        }
    }
}

/// How many ids the alternatives of an `if` chain hand out: one per
/// alternative and those of its body.
pub open spec fn arms_nodes(i: If) -> nat
    decreases i,
{
    1 + n_nodes(i.then_branch.constituents@) + match i.else_branch {
        None => 0,
        Some(Else::If(j)) => arms_nodes(*j),
        Some(Else::Block(b)) => 1 + n_nodes(b.constituents@),
    }
}

/// `bs` is the flattening of `cs` under `parent`, with ids handed out from
/// `lo` in pre-order: each maximal run of plain constituents is one leaf
/// block, each `if` chain one conditional block, in source order.
pub open spec fn flat(cs: Seq<Constituent>, bs: Seq<Block>, parent: Option<Rc<NodeId>>, lo: nat) -> bool
    decreases cs,
{
    if cs.len() == 0 {
        bs.len() == 0
    } else if bs.len() == 0 {
        false
    } else {
        let last = bs[bs.len() - 1];
        let pos = (bs.len() - 1) as nat;
        let pre = bs.subrange(0, bs.len() - 1);
        match cs[cs.len() - 1] {
            Constituent::If(i) => {
                let first = lo + n_nodes(cs.subrange(0, cs.len() - 1));
                &&& last.op is Branch
                &&& node_is(*last.id, parent, pos, first)
                &&& arms(i, last.op->Branch_0@, Some(last.id), 0, first + 1, "if"@)
                &&& flat(cs.subrange(0, cs.len() - 1), pre, parent, lo)
            },
            Constituent::Match(_) => false,
            _ => {
                let k = run_start(cs);
                &&& k < cs.len()
                &&& last.op is Push
                &&& last.op->Push_0@ == cs.subrange(k as int, cs.len() as int).map_values(|c| push_of(c))
                &&& node_is(*last.id, parent, pos, lo + n_nodes(cs.subrange(0, k as int)))
                &&& flat(cs.subrange(0, k as int), pre, parent, lo)
            },
        }
    }
}

/// `brs` are the alternatives of the `if` chain `i` at sibling positions
/// from `pos` under `parent`, the first labelled `kw`, with ids from `lo`.
pub open spec fn arms(i: If, brs: Seq<Branch>, parent: Option<Rc<NodeId>>, pos: nat, lo: nat, kw: Seq<char>) -> bool
    decreases i,
{
    let body_end = lo + 1 + n_nodes(i.then_branch.constituents@);
    &&& brs.len() > 0
    &&& brs[0].keywords@ == kw
    &&& brs[0].cond == Some(i.cond)
    &&& node_is(*brs[0].id, parent, pos, lo)
    &&& flat(i.then_branch.constituents@, brs[0].body@, Some(brs[0].id), lo + 1)
    &&& match i.else_branch {
        None => brs.len() == 1,
        Some(Else::If(j)) => arms(*j, brs.subrange(1, brs.len() as int), parent, pos + 1, body_end, "else if"@),
        Some(Else::Block(b)) => {
            &&& brs.len() == 2
            &&& brs[1].keywords@ == "else"@
            &&& brs[1].cond is None
            &&& node_is(*brs[1].id, parent, pos + 1, body_end)
            &&& flat(b.constituents@, brs[1].body@, Some(brs[1].id), body_end + 1)
        },
    }
}

pub(crate) proof fn lemma_run_start(cs: Seq<Constituent>, start: nat)
    requires
        start < cs.len(),
        forall|m: int| start <= m < cs.len() ==> is_plain(#[trigger] cs[m]),
        start == 0 || !is_plain(cs[start - 1]),
    ensures
        run_start(cs) == start,
        n_nodes(cs) == n_nodes(cs.subrange(0, start as int)) + 1,
    decreases cs.len(),
{
    let pre = cs.subrange(0, cs.len() - 1);
    assert(pre =~= cs.drop_last());
    assert(is_plain(cs[cs.len() - 1]));
    if cs.len() - 1 == start {
        assert(pre =~= cs.subrange(0, start as int));
        if start > 0 {
            assert(pre.last() == cs[start - 1]);
        }
        assert(run_start(pre) == start);
    } else {
        lemma_run_start(pre, start);
        assert(pre.subrange(0, start as int) =~= cs.subrange(0, start as int));
    }
}

proof fn lemma_n_nodes_prefix(cs: Seq<Constituent>, k: int)
    requires
        0 <= k <= cs.len(),
    ensures
        n_nodes(cs.subrange(0, k)) <= n_nodes(cs),
    decreases cs.len(),
{
    if k == cs.len() {
        assert(cs.subrange(0, k) =~= cs);
    } else {
        let pre = cs.subrange(0, cs.len() - 1);
        lemma_n_nodes_prefix(pre, k);
        assert(pre.subrange(0, k) =~= cs.subrange(0, k));
    }
}

proof fn lemma_has_match_step(cs: Seq<Constituent>, k: int)
    requires
        0 <= k < cs.len(),
        !has_match(cs.subrange(0, k)),
        !constituent_has_match(cs[k]),
    ensures
        !has_match(cs.subrange(0, k + 1)),
{
    assert(cs.subrange(0, k + 1).subrange(0, k) =~= cs.subrange(0, k));
}

proof fn lemma_has_match_prefix(cs: Seq<Constituent>, k: int)
    requires
        0 <= k < cs.len(),
        constituent_has_match(cs[k]),
    ensures
        has_match(cs),
    decreases cs.len(),
{
    if k < cs.len() - 1 {
        lemma_has_match_prefix(cs.subrange(0, cs.len() - 1), k);
    }
}

proof fn lemma_flush(cs: Seq<Constituent>, start: nat, idx: nat)
    requires
        start < idx <= cs.len(),
        forall|m: int| start <= m < idx ==> is_plain(#[trigger] cs[m]),
        start == 0 || !is_plain(cs[start - 1]),
    ensures
        run_start(cs.subrange(0, idx as int)) == start,
        n_nodes(cs.subrange(0, idx as int)) == n_nodes(cs.subrange(0, start as int)) + 1,
{
    let c = cs.subrange(0, idx as int);
    lemma_run_start(c, start);
    assert(c.subrange(0, start as int) =~= cs.subrange(0, start as int));
}

proof fn lemma_flush_flat(
    cs: Seq<Constituent>,
    start: nat,
    idx: nat,
    before: Seq<Block>,
    after: Seq<Block>,
    parent: Option<Rc<NodeId>>,
    lo: nat,
)
    requires
        start < idx <= cs.len(),
        forall|m: int| start <= m < idx ==> is_plain(#[trigger] cs[m]),
        start == 0 || !is_plain(cs[start - 1]),
        flat(cs.subrange(0, start as int), before, parent, lo),
        after.len() == before.len() + 1,
        after.subrange(0, before.len() as int) == before,
        after.last().op is Push,
        after.last().op->Push_0@ == cs.subrange(start as int, idx as int).map_values(|c| push_of(c)),
        node_is(*after.last().id, parent, before.len() as nat, lo + n_nodes(cs.subrange(0, start as int))),
    ensures
        flat(cs.subrange(0, idx as int), after, parent, lo),
{
    let c = cs.subrange(0, idx as int);
    lemma_flush(cs, start, idx);
    assert(is_plain(c[c.len() - 1]));
    assert(c.subrange(0, start as int) =~= cs.subrange(0, start as int));
    assert(c.subrange(start as int, c.len() as int) =~= cs.subrange(start as int, idx as int));
}

/// Whether `cs` holds a `match` at any depth.
fn seq_has_match(cs: &Vec<Constituent>) -> (r: bool)
    ensures
        r == has_match(cs@),
    decreases cs@,
{
    let mut k: usize = 0;
    while k < cs.len()
        invariant
            k <= cs.len(),
            !has_match(cs@.subrange(0, k as int)),
        decreases cs.len() - k,
    {
        let found = match &cs[k] {
            Constituent::Match(_) => true,
            Constituent::Block(b) => seq_has_match(&b.constituents),
            Constituent::If(i) => if_chain_has_match(i),
            _ => false,
        };
        if found {
            assert(constituent_has_match(cs@[k as int]));
            proof { lemma_has_match_prefix(cs@, k as int); }
            return true;
        }
        proof { lemma_has_match_step(cs@, k as int); }
        k = k + 1;
    }
    assert(cs@.subrange(0, k as int) =~= cs@);
    false
}

/// Whether any body of an `if` chain holds a `match`.
fn if_chain_has_match(i: &If) -> (r: bool)
    ensures
        r == if_has_match(*i),
    decreases i,
{
    if seq_has_match(&i.then_branch.constituents) {
        return true;
    }
    match &i.else_branch {
        None => false,
        Some(Else::If(j)) => if_chain_has_match(j),
        Some(Else::Block(b)) => seq_has_match(&b.constituents),
    }
}

/// Appends a leaf block holding `pushes` at the next sibling position.
fn push_block(blocks: &mut Vec<Block>, pushes: Vec<Push>, parent: &Parent, counter: &mut Counter)
    requires
        old(counter)@ < u32::MAX,
        old(blocks)@.len() <= u32::MAX,
    ensures
        final(counter)@ == old(counter)@ + 1,
        final(blocks)@.len() == old(blocks)@.len() + 1,
        final(blocks)@.subrange(0, old(blocks)@.len() as int) == old(blocks)@,
        final(blocks)@.last().op == Op::Push(pushes),
        node_is(*final(blocks)@.last().id, parent@, old(blocks)@.len() as nat, old(counter)@),
{
    let child = parent.child(blocks.len(), counter);
    blocks.push(Block { op: Op::Push(pushes), id: child.id() });
    assert(blocks@.subrange(0, blocks@.len() - 1) =~= old(blocks)@);
}

/// Flattens `cs` into blocks under `parent`, taking ids from `counter`.
fn flatten(cs: &Vec<Constituent>, parent: &Parent, counter: &mut Counter) -> (r: Result<Vec<Block>, Unsupported>)
    requires
        old(counter)@ + n_nodes(cs@) <= u32::MAX,
    ensures
        r is Err <==> has_match(cs@),
        r is Ok ==> flat(cs@, r->Ok_0@, parent@, old(counter)@),
        r is Ok ==> final(counter)@ == old(counter)@ + n_nodes(cs@),
    decreases cs@,
{
    let ghost lo = counter@;
    let mut blocks: Vec<Block> = Vec::new();
    let mut pushes: Vec<Push> = Vec::new();
    let mut start: usize = 0;
    let mut idx: usize = 0;
    assert(cs@.subrange(0, 0) =~= Seq::<Constituent>::empty());
    while idx < cs.len()
        invariant
            start <= idx <= cs.len(),
            pushes@ == cs@.subrange(start as int, idx as int).map_values(|c| push_of(c)),
            forall|m: int| start <= m < idx ==> is_plain(#[trigger] cs@[m]),
            start == 0 || !is_plain(cs@[start - 1]),
            !has_match(cs@.subrange(0, idx as int)),
            flat(cs@.subrange(0, start as int), blocks@, parent@, lo),
            counter@ == lo + n_nodes(cs@.subrange(0, start as int)),
            blocks@.len() <= n_nodes(cs@.subrange(0, start as int)),
            lo + n_nodes(cs@) <= u32::MAX,
        decreases cs.len() - idx,
    {
        match &cs[idx] {
            Constituent::Literal(s) => {
                pushes.push(Push::Lit(s.clone()));
            },
            Constituent::Bind(e) => {
                pushes.push(Push::Bind(e.clone()));
            },
            Constituent::Block(b) => {
                if seq_has_match(&b.constituents) {
                    assert(constituent_has_match(cs@[idx as int]));
                    proof { lemma_has_match_prefix(cs@, idx as int); }
                    return Err(Unsupported::Match);
                }
                pushes.push(Push::Empty);
            },
            Constituent::If(iff) => {
                if start < idx {
                    proof {
                        lemma_flush(cs@, start as nat, idx as nat);
                        lemma_n_nodes_prefix(cs@, idx as int);
                    }
                    let ghost before = blocks@;
                    let ghost pending = pushes@;
                    push_block(&mut blocks, pushes, parent, counter);
                    pushes = Vec::new();
                    proof {
                        assert(blocks@.last().op->Push_0@ == pending);
                        lemma_flush_flat(cs@, start as nat, idx as nat, before, blocks@, parent@, lo);
                    }
                    start = idx;
                }
                let ghost c_if = cs@.subrange(0, idx + 1);
                proof {
                    assert(c_if.subrange(0, idx as int) =~= cs@.subrange(0, idx as int));
                    lemma_n_nodes_prefix(cs@, idx + 1);
                }
                let branch_parent = parent.child(blocks.len(), counter);
                let mut branches: Vec<Branch> = Vec::new();
                match create_branches(iff, &branch_parent, "if".to_owned(), counter, &mut branches) {
                    Ok(()) => {},
                    Err(e) => {
                        proof { lemma_has_match_prefix(cs@, idx as int); }
                        return Err(e);
                    },
                }
                let ghost before = blocks@;
                blocks.push(Block { op: Op::Branch(branches), id: branch_parent.id() });
                proof {
                    assert(branches@.subrange(0, branches@.len() as int) =~= branches@);
                    assert(blocks@.subrange(0, blocks@.len() - 1) =~= before);
                    assert(c_if =~= cs@.subrange(0, start + 1));
                }
                start = idx + 1;
            },
            Constituent::Match(_) => {
                assert(constituent_has_match(cs@[idx as int]));
                proof { lemma_has_match_prefix(cs@, idx as int); }
                return Err(Unsupported::Match);
            },
        }
        proof { lemma_has_match_step(cs@, idx as int); }
        idx = idx + 1;
        proof {
            assert(pushes@ =~= cs@.subrange(start as int, idx as int).map_values(|c| push_of(c)));
        }
    }
    if start < idx {
        proof {
            lemma_flush(cs@, start as nat, idx as nat);
            lemma_n_nodes_prefix(cs@, idx as int);
        }
        let ghost before = blocks@;
        let ghost pending = pushes@;
        push_block(&mut blocks, pushes, parent, counter);
        proof {
            assert(blocks@.last().op->Push_0@ == pending);
            lemma_flush_flat(cs@, start as nat, idx as nat, before, blocks@, parent@, lo);
        }
        start = idx;
    }
    assert(cs@.subrange(0, start as int) =~= cs@);
    Ok(blocks)
}

/// Flattens a template's constituents into blocks under `parent`, taking ids
/// from `counter` in pre-order. A template that holds a `match` anywhere is
/// refused.
pub fn create_blocks(constituents: Vec<Constituent>, parent: Parent, counter: &mut Counter) -> (r: Result<
    Vec<Block>,
    Unsupported,
>)
    requires
        old(counter)@ + n_nodes(constituents@) <= u32::MAX,
    ensures
        r is Err <==> has_match(constituents@),
        r is Ok ==> flat(constituents@, r->Ok_0@, parent@, old(counter)@),
        r is Ok ==> final(counter)@ == old(counter)@ + n_nodes(constituents@),
{
    flatten(&constituents, &parent, counter)
}

/// The number of ids that flattening `cs` hands out, or `limit` where that
/// number is larger.
pub fn count_nodes(cs: &Vec<Constituent>, limit: u64) -> (r: u64)
    ensures
        r == if n_nodes(cs@) <= limit { n_nodes(cs@) } else { limit as nat },
    decreases cs@,
{
    let mut total: u64 = 0;
    let mut k: usize = 0;
    while k < cs.len()
        invariant
            k <= cs.len(),
            total == if n_nodes(cs@.subrange(0, k as int)) <= limit {
                n_nodes(cs@.subrange(0, k as int))
            } else {
                limit as nat
            },
        decreases cs.len() - k,
    {
        let ghost pre = cs@.subrange(0, k as int);
        let ghost next = cs@.subrange(0, k + 1);
        assert(next.subrange(0, k as int) =~= pre);
        let add: u64 = match &cs[k] {
            Constituent::If(iff) => {
                let arms = count_arms(iff, limit);
                if arms < limit { arms + 1 } else { limit }
            },
            Constituent::Match(_) => 0,
            _ => if k == 0 || !is_plain_constituent(&cs[k - 1]) { 1 } else { 0 },
        };
        total = if add <= limit && total <= limit - add { total + add } else { limit };
        k = k + 1;
    }
    assert(cs@.subrange(0, k as int) =~= cs@);
    total
}

/// The number of ids that the alternatives of `iff` hand out, or `limit`
/// where that number is larger.
fn count_arms(iff: &If, limit: u64) -> (r: u64)
    ensures
        r == if arms_nodes(*iff) <= limit { arms_nodes(*iff) } else { limit as nat },
    decreases iff,
{
    let body = count_nodes(&iff.then_branch.constituents, limit);
    let rest: u64 = match &iff.else_branch {
        None => 0,
        Some(Else::If(next)) => count_arms(next, limit),
        Some(Else::Block(b)) => {
            let n = count_nodes(&b.constituents, limit);
            if n < limit { n + 1 } else { limit }
        },
    };
    let mut total: u64 = if 1 <= limit { 1 } else { limit };
    total = if total <= limit - body { total + body } else { limit };
    total = if total <= limit - rest { total + rest } else { limit };
    total
}

fn is_plain_constituent(c: &Constituent) -> (r: bool)
    ensures
        r == is_plain(*c),
{
    match c {
        Constituent::Literal(_) | Constituent::Bind(_) | Constituent::Block(_) => true,
        _ => false,
    }
}

/// Appends the alternatives of the `if` chain `iff` to `branches`, the
/// first labelled `keywords`, each under `branch_parent`.
fn create_branches(
    iff: &If,
    branch_parent: &Parent,
    keywords: String,
    counter: &mut Counter,
    branches: &mut Vec<Branch>,
) -> (r: Result<(), Unsupported>)
    requires
        old(branches)@.len() <= old(counter)@,
        old(counter)@ + arms_nodes(*iff) <= u32::MAX,
    ensures
        r is Err <==> if_has_match(*iff),
        r is Ok ==> final(counter)@ == old(counter)@ + arms_nodes(*iff),
        r is Ok ==> final(branches)@.len() > old(branches)@.len(),
        r is Ok ==> final(branches)@.subrange(0, old(branches)@.len() as int) == old(branches)@,
        r is Ok ==> arms(
            *iff,
            final(branches)@.subrange(old(branches)@.len() as int, final(branches)@.len() as int),
            branch_parent@,
            old(branches)@.len() as nat,
            old(counter)@,
            keywords@,
        ),
    decreases iff,
{
    let ghost lo = counter@;
    let ghost n0 = branches@.len();
    let arm_parent = branch_parent.child(branches.len(), counter);
    let body = match flatten(&iff.then_branch.constituents, &arm_parent, counter) {
        Ok(body) => body,
        Err(e) => return Err(e),
    };
    branches.push(Branch { keywords, cond: Some(iff.cond.clone()), body, id: arm_parent.id() });
    let ghost first = branches@.last();
    assert(branches@.subrange(0, n0 as int) =~= old(branches)@);
    match &iff.else_branch {
        None => {
            assert(branches@.subrange(n0 as int, branches@.len() as int) =~= seq![first]);
            Ok(())
        },
        Some(Else::If(next)) => {
            let ghost mid = branches@;
            match create_branches(next, branch_parent, "else if".to_owned(), counter, branches) {
                Ok(()) => {},
                Err(e) => return Err(e),
            }
            proof {
                let all = branches@.subrange(n0 as int, branches@.len() as int);
                assert(branches@.subrange(0, n0 as int) =~= mid.subrange(0, n0 as int));
                assert(all[0] == mid[n0 as int]);
                assert(all.subrange(1, all.len() as int) =~= branches@.subrange(n0 + 1 as int, branches@.len() as int));
            }
            Ok(())
        },
        Some(Else::Block(b)) => {
            let else_parent = branch_parent.child(branches.len(), counter);
            let body = match flatten(&b.constituents, &else_parent, counter) {
                Ok(body) => body,
                Err(e) => return Err(e),
            };
            let ghost mid = branches@;
            branches.push(Branch { keywords: "else".to_owned(), cond: None, body, id: else_parent.id() });
            proof {
                assert(branches@.subrange(0, n0 as int) =~= old(branches)@);
                assert(branches@.subrange(n0 as int, branches@.len() as int) =~= seq![first, branches@.last()]);
            }
            Ok(())
        },
    }
}

} // verus!
