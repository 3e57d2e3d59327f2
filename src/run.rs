//! Running a block tree against a [`Builder`] the way the emitted code does,
//! with the host's expressions given by their values.
use vstd::prelude::*;

use crate::blocks::{Block, Branch, Op, Push};
use crate::query::{apply, empty_state, step, BuilderCall, BuilderState, Builder, Query};

verus! {

/// What the host's expressions evaluate to: the conditions that hold, and
/// the byte size of each bound value.
pub struct Host {
    pub holding: Vec<String>,
    pub sizes: Vec<(String, usize)>,
}

/// Whether the condition written `c` holds.
pub open spec fn holds(h: Host, c: Seq<char>) -> bool {
    exists|k: int| 0 <= k < h.holding@.len() && #[trigger] h.holding@[k]@ == c
}

/// The byte size of the value written `e`: the last entry for it, 0 where
/// there is none.
pub open spec fn size_in(sizes: Seq<(String, usize)>, e: Seq<char>) -> nat
    decreases sizes.len(),
{
    if sizes.len() == 0 {
        0
    } else if sizes.last().0@ == e {
        sizes.last().1 as nat
    } else {
        size_in(sizes.drop_last(), e)
    }
}

/// The builder calls that a leaf block's routine makes for `p`.
pub open spec fn push_calls(p: Push) -> Seq<BuilderCall> {
    match p {
        Push::Lit(s) => seq![BuilderCall::PushSql(s@)],
        Push::Bind(_) => seq![BuilderCall::PushSqlArg],
        Push::Empty => Seq::empty(),
    }
}

/// The builder calls of a leaf block's routine.
pub open spec fn routine_calls(ps: Seq<Push>) -> Seq<BuilderCall>
    decreases ps.len(),
{
    if ps.len() == 0 {
        Seq::empty()
    } else {
        routine_calls(ps.drop_last()) + push_calls(ps.last())
    }
}

/// The calls that record the bound values of a leaf block.
pub open spec fn bind_calls(ps: Seq<Push>, h: Host) -> Seq<BuilderCall>
    decreases ps.len(),
{
    if ps.len() == 0 {
        Seq::empty()
    } else {
        bind_calls(ps.drop_last(), h) + match ps.last() {
            Push::Bind(e) => seq![BuilderCall::BindArg(size_in(h.sizes@, e@))],
            _ => Seq::empty(),
        }
    }
}

/// The builder calls that running `bs` makes, in order.
pub open spec fn run_calls(bs: Seq<Block>, h: Host) -> Seq<BuilderCall>
    decreases bs,
{
    if bs.len() == 0 {
        Seq::empty()
    } else {
        run_calls(bs.subrange(0, bs.len() - 1), h) + block_calls(bs[bs.len() - 1], h)
    }
}

/// A leaf block runs its routine, then records its bound values; a
/// conditional runs the body of its first alternative that matches.
pub open spec fn block_calls(b: Block, h: Host) -> Seq<BuilderCall>
    decreases b,
{
    match b.op {
        Op::Push(ps) => routine_calls(ps@) + bind_calls(ps@, h),
        Op::Branch(brs) => chosen_calls(brs@, h),
    }
}

/// The calls of the first alternative whose condition holds or which has
/// none; none where no alternative matches.
pub open spec fn chosen_calls(brs: Seq<Branch>, h: Host) -> Seq<BuilderCall>
    decreases brs,
{
    if brs.len() == 0 {
        Seq::empty()
    } else if brs[0].cond is None || holds(h, brs[0].cond->Some_0@) {
        run_calls(brs[0].body@, h)
    } else {
        chosen_calls(brs.subrange(1, brs.len() as int), h)
    }
}

proof fn lemma_apply_concat(st: BuilderState, a: Seq<BuilderCall>, b: Seq<BuilderCall>)
    ensures
        apply(st, a + b) == apply(apply(st, a), b),
    decreases b.len(),
{
    if b.len() == 0 {
        assert(a + b =~= a);
    } else {
        lemma_apply_concat(st, a, b.drop_last());
        assert((a + b).drop_last() =~= a + b.drop_last());
    }
}

proof fn lemma_apply_one(st: BuilderState, c: BuilderCall)
    ensures
        apply(st, seq![c]) == step(st, c),
{
    assert(seq![c].drop_last() =~= Seq::<BuilderCall>::empty());
    reveal_with_fuel(apply, 2);
}

proof fn lemma_apply_grows(st: BuilderState, a: Seq<BuilderCall>)
    ensures
        apply(st, a).count >= st.count,
        apply(st, a).size >= st.size,
    decreases a.len(),
{
    if a.len() > 0 {
        lemma_apply_grows(st, a.drop_last());
    }
}

/// Counts and sizes only grow as calls are added.
proof fn lemma_bounds_prefix(st: BuilderState, a: Seq<BuilderCall>, b: Seq<BuilderCall>)
    ensures
        apply(st, a).count <= apply(st, a + b).count,
        apply(st, a).size <= apply(st, a + b).size,
{
    lemma_apply_concat(st, a, b);
    lemma_apply_grows(apply(st, a), b);
}

/// Whether the condition written `c` holds.
fn cond_holds(host: &Host, c: &String) -> (r: bool)
    ensures
        r == holds(*host, c@),
{
    let mut k: usize = 0;
    while k < host.holding.len()
        invariant
            k <= host.holding.len(),
            forall|m: int| 0 <= m < k ==> #[trigger] host.holding@[m]@ != c@,
        decreases host.holding.len() - k,
    {
        if host.holding[k].eq(c) {
            return true;
        }
        k = k + 1;
    }
    false
}

/// The byte size of the value written `e`.
fn size_of_value(host: &Host, e: &String) -> (r: usize)
    ensures
        r as nat == size_in(host.sizes@, e@),
{
    let mut k: usize = host.sizes.len();
    assert(host.sizes@.subrange(0, k as int) =~= host.sizes@);
    while k > 0
        invariant
            k <= host.sizes.len(),
            size_in(host.sizes@, e@) == size_in(host.sizes@.subrange(0, k as int), e@),
        decreases k,
    {
        let ghost pre = host.sizes@.subrange(0, k as int);
        assert(pre.drop_last() =~= host.sizes@.subrange(0, k - 1));
        if host.sizes[k - 1].0.eq(e) {
            return host.sizes[k - 1].1;
        }
        k = k - 1;
    }
    0
}

/// Runs one leaf block: its routine, then the recording of its bound values.
fn run_pushes(pushes: &Vec<Push>, host: &Host, b: &mut Builder)
    requires
        apply(old(b)@, routine_calls(pushes@) + bind_calls(pushes@, *host)).count <= usize::MAX,
        apply(old(b)@, routine_calls(pushes@) + bind_calls(pushes@, *host)).size <= usize::MAX,
    ensures
        final(b)@ == apply(old(b)@, routine_calls(pushes@) + bind_calls(pushes@, *host)),
{
    let ghost st0 = b@;
    let ghost all = routine_calls(pushes@) + bind_calls(pushes@, *host);
    let mut k: usize = 0;
    while k < pushes.len()
        invariant
            k <= pushes.len(),
            all == routine_calls(pushes@) + bind_calls(pushes@, *host),
            apply(st0, all).count <= usize::MAX,
            apply(st0, all).size <= usize::MAX,
            b@ == apply(st0, routine_calls(pushes@.subrange(0, k as int))),
        decreases pushes.len() - k,
    {
        let ghost pre = routine_calls(pushes@.subrange(0, k as int));
        let ghost next = pushes@.subrange(0, k + 1);
        assert(next.drop_last() =~= pushes@.subrange(0, k as int));
        proof {
            lemma_routine_prefix(pushes@, k + 1);
            lemma_bounds_prefix(st0, routine_calls(next), routine_calls(pushes@).subrange(routine_calls(next).len() as int, routine_calls(pushes@).len() as int) + bind_calls(pushes@, *host));
            assert(routine_calls(next) + (routine_calls(pushes@).subrange(routine_calls(next).len() as int, routine_calls(pushes@).len() as int) + bind_calls(pushes@, *host)) =~= all);
            lemma_apply_concat(st0, pre, push_calls(pushes@[k as int]));
            match pushes@[k as int] {
                Push::Lit(s) => lemma_apply_one(b@, BuilderCall::PushSql(s@)),
                Push::Bind(_) => lemma_apply_one(b@, BuilderCall::PushSqlArg),
                Push::Empty => {},
            }
        }
        match &pushes[k] {
            Push::Lit(s) => {
                b.push_sql(s.as_str());
            },
            Push::Bind(_) => {
                b.push_sql_arg();
            },
            Push::Empty => {},
        }
        k = k + 1;
    }
    assert(pushes@.subrange(0, k as int) =~= pushes@);
    let ghost mid = b@;
    let mut j: usize = 0;
    while j < pushes.len()
        invariant
            j <= pushes.len(),
            all == routine_calls(pushes@) + bind_calls(pushes@, *host),
            apply(st0, all).count <= usize::MAX,
            apply(st0, all).size <= usize::MAX,
            mid == apply(st0, routine_calls(pushes@)),
            b@ == apply(mid, bind_calls(pushes@.subrange(0, j as int), *host)),
        decreases pushes.len() - j,
    {
        let ghost pre = bind_calls(pushes@.subrange(0, j as int), *host);
        let ghost next = pushes@.subrange(0, j + 1);
        assert(next.drop_last() =~= pushes@.subrange(0, j as int));
        if let Push::Bind(e) = &pushes[j] {
            let size = size_of_value(host, e);
            proof {
                lemma_bind_prefix(pushes@, j + 1, *host);
                let rest = bind_calls(pushes@, *host).subrange(bind_calls(next, *host).len() as int, bind_calls(pushes@, *host).len() as int);
                assert(routine_calls(pushes@) + bind_calls(next, *host) + rest =~= all);
                lemma_bounds_prefix(st0, routine_calls(pushes@) + bind_calls(next, *host), rest);
                lemma_apply_concat(st0, routine_calls(pushes@), bind_calls(next, *host));
                let x = BuilderCall::BindArg(size as nat);
                assert(bind_calls(next, *host) =~= pre + seq![x]);
                lemma_apply_concat(mid, pre, seq![x]);
                lemma_apply_one(b@, x);
            }
            b.push_arg_size(size);
        } else {
            assert(bind_calls(next, *host) =~= pre);
        }
        j = j + 1;
    }
    assert(pushes@.subrange(0, j as int) =~= pushes@);
    proof {
        lemma_apply_concat(st0, routine_calls(pushes@), bind_calls(pushes@, *host));
    }
}

proof fn lemma_routine_prefix(ps: Seq<Push>, k: int)
    requires
        0 <= k <= ps.len(),
    ensures
        routine_calls(ps.subrange(0, k)).len() <= routine_calls(ps).len(),
        routine_calls(ps) =~= routine_calls(ps.subrange(0, k)) + routine_calls(ps).subrange(
            routine_calls(ps.subrange(0, k)).len() as int,
            routine_calls(ps).len() as int,
        ),
    decreases ps.len(),
{
    if k == ps.len() {
        assert(ps.subrange(0, k) =~= ps);
    } else {
        lemma_routine_prefix(ps.drop_last(), k);
        assert(ps.drop_last().subrange(0, k) =~= ps.subrange(0, k));
    }
}

proof fn lemma_bind_prefix(ps: Seq<Push>, k: int, h: Host)
    requires
        0 <= k <= ps.len(),
    ensures
        bind_calls(ps.subrange(0, k), h).len() <= bind_calls(ps, h).len(),
        bind_calls(ps, h) =~= bind_calls(ps.subrange(0, k), h) + bind_calls(ps, h).subrange(
            bind_calls(ps.subrange(0, k), h).len() as int,
            bind_calls(ps, h).len() as int,
        ),
    decreases ps.len(),
{
    if k == ps.len() {
        assert(ps.subrange(0, k) =~= ps);
    } else {
        lemma_bind_prefix(ps.drop_last(), k, h);
        assert(ps.drop_last().subrange(0, k) =~= ps.subrange(0, k));
    }
}

proof fn lemma_run_prefix(bs: Seq<Block>, k: int, h: Host)
    requires
        0 <= k <= bs.len(),
    ensures
        run_calls(bs.subrange(0, k), h).len() <= run_calls(bs, h).len(),
        run_calls(bs, h) =~= run_calls(bs.subrange(0, k), h) + run_calls(bs, h).subrange(
            run_calls(bs.subrange(0, k), h).len() as int,
            run_calls(bs, h).len() as int,
        ),
    decreases bs.len(),
{
    if k == bs.len() {
        assert(bs.subrange(0, k) =~= bs);
    } else {
        let pre = bs.subrange(0, bs.len() - 1);
        lemma_run_prefix(pre, k, h);
        assert(pre.subrange(0, k) =~= bs.subrange(0, k));
    }
}

/// Runs `blocks` in order against `b`, as the emitted skeleton does.
pub fn run_blocks(blocks: &Vec<Block>, host: &Host, b: &mut Builder)
    requires
        apply(old(b)@, run_calls(blocks@, *host)).count <= usize::MAX,
        apply(old(b)@, run_calls(blocks@, *host)).size <= usize::MAX,
    ensures
        final(b)@ == apply(old(b)@, run_calls(blocks@, *host)),
    decreases blocks@,
{
    let ghost st0 = b@;
    let mut k: usize = 0;
    assert(blocks@.subrange(0, 0) =~= Seq::<Block>::empty());
    while k < blocks.len()
        invariant
            k <= blocks.len(),
            apply(st0, run_calls(blocks@, *host)).count <= usize::MAX,
            apply(st0, run_calls(blocks@, *host)).size <= usize::MAX,
            b@ == apply(st0, run_calls(blocks@.subrange(0, k as int), *host)),
        decreases blocks.len() - k,
    {
        let ghost pre = run_calls(blocks@.subrange(0, k as int), *host);
        let ghost next = blocks@.subrange(0, k + 1);
        proof {
            assert(next.subrange(0, k as int) =~= blocks@.subrange(0, k as int));
            lemma_run_prefix(blocks@, k + 1, *host);
            let rest = run_calls(blocks@, *host).subrange(run_calls(next, *host).len() as int, run_calls(blocks@, *host).len() as int);
            lemma_bounds_prefix(st0, run_calls(next, *host), rest);
            lemma_apply_concat(st0, pre, block_calls(blocks@[k as int], *host));
        }
        run_block(&blocks[k], host, b);
        k = k + 1;
    }
    assert(blocks@.subrange(0, k as int) =~= blocks@);
}

/// Runs one block against `b`.
fn run_block(block: &Block, host: &Host, b: &mut Builder)
    requires
        apply(old(b)@, block_calls(*block, *host)).count <= usize::MAX,
        apply(old(b)@, block_calls(*block, *host)).size <= usize::MAX,
    ensures
        final(b)@ == apply(old(b)@, block_calls(*block, *host)),
    decreases block,
{
    match &block.op {
        Op::Push(pushes) => run_pushes(pushes, host, b),
        Op::Branch(branches) => run_branches(branches, host, b),
    }
}

/// Runs the body of the first alternative that matches, if any.
fn run_branches(branches: &Vec<Branch>, host: &Host, b: &mut Builder)
    requires
        apply(old(b)@, chosen_calls(branches@, *host)).count <= usize::MAX,
        apply(old(b)@, chosen_calls(branches@, *host)).size <= usize::MAX,
    ensures
        final(b)@ == apply(old(b)@, chosen_calls(branches@, *host)),
    decreases branches@,
{
    let mut k: usize = 0;
    assert(branches@.subrange(0, branches@.len() as int) =~= branches@);
    while k < branches.len()
        invariant
            k <= branches.len(),
            b@ == old(b)@,
            apply(old(b)@, chosen_calls(branches@, *host)).count <= usize::MAX,
            apply(old(b)@, chosen_calls(branches@, *host)).size <= usize::MAX,
            chosen_calls(branches@, *host) == chosen_calls(branches@.subrange(k as int, branches@.len() as int), *host),
        decreases branches.len() - k,
    {
        let ghost rest = branches@.subrange(k as int, branches@.len() as int);
        assert(rest[0] == branches@[k as int]);
        let taken = match &branches[k].cond {
            None => true,
            Some(c) => cond_holds(host, c),
        };
        if taken {
            assert(chosen_calls(rest, *host) == run_calls(branches@[k as int].body@, *host));
            run_blocks(&branches[k].body, host, b);
            return;
        }
        assert(rest.subrange(1, rest.len() as int) =~= branches@.subrange(k + 1, branches@.len() as int));
        k = k + 1;
    }
    assert(chosen_calls(branches@.subrange(k as int, branches@.len() as int), *host) =~= Seq::<BuilderCall>::empty());
}

/// Runs `blocks` on a fresh builder and returns the query it builds.
pub fn execute(blocks: &Vec<Block>, host: &Host) -> (r: Query)
    requires
        apply(empty_state(), run_calls(blocks@, *host)).count <= usize::MAX,
        apply(empty_state(), run_calls(blocks@, *host)).size <= usize::MAX,
    ensures
        r.sql@ == apply(empty_state(), run_calls(blocks@, *host)).text,
        r.args_count == apply(empty_state(), run_calls(blocks@, *host)).count,
        r.args_size == apply(empty_state(), run_calls(blocks@, *host)).size,
{
    let mut b = Builder::new();
    run_blocks(blocks, host, &mut b);
    b.build()
}

} // verus!
