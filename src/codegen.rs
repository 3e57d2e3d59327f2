//! Emission of Rust code from flattened blocks: one formatting routine per
//! leaf block, then a control skeleton that calls them along the template's
//! conditional structure. Code is produced as token text, tokens separated by
//! single spaces.
use vstd::prelude::*;
use vstd::string::StringExecFns;

use crate::blocks::{
    count_nodes, create_blocks, flat, n_nodes, path_of, Block, Branch, Counter, NodeId, Op, Parent, Push,
};
use crate::parse::{has_match, BuilderAST};
use crate::text::{dec, push_decimal};

verus! {

/// Why a template cannot be compiled.
#[derive(Debug, PartialEq, Eq, Structural)]
pub enum CodegenError {
    /// The template holds a `match`.
    Unsupported,
    /// The template has more blocks and alternatives than ids can number.
    TooLarge,
}

/// `a` and `b` with a space between them where both are non-empty.
pub open spec fn spaced(a: Seq<char>, b: Seq<char>) -> Seq<char> {
    if a.len() == 0 {
        b
    } else if b.len() == 0 {
        a
    } else {
        a + " "@ + b
    }
}

/// `s` in braces.
pub open spec fn braced(s: Seq<char>) -> Seq<char> {
    if s.len() == 0 {
        "{ }"@
    } else {
        "{ "@ + s + " }"@
    }
}

/// The name of the routine of the leaf block at `path`.
pub open spec fn fn_name(path: Seq<u32>) -> Seq<char>
    decreases path.len(),
{
    if path.len() == 0 {
        "sql_fmt"@
    } else {
        fn_name(path.drop_last()) + "_"@ + dec(path.last() as nat)
    }
}

/// The skeleton's statement that records the bound value of `p`, if any.
pub open spec fn bind_stmt(p: Push) -> Seq<char> {
    match p {
        Push::Bind(e) => "builder . push_bind_arg ( "@ + e@ + " ) ;"@,
        _ => Seq::empty(),
    }
}

/// The skeleton's statements that record the bound values among `ps`.
pub open spec fn bind_stmts(ps: Seq<Push>) -> Seq<char>
    decreases ps.len(),
{
    if ps.len() == 0 {
        Seq::empty()
    } else {
        spaced(bind_stmts(ps.drop_last()), bind_stmt(ps.last()))
    }
}

/// The builder statement for one push: static text for a literal, the
/// recording of a bound value, nothing for a nested scope.
pub open spec fn push_stmt(p: Push) -> Seq<char> {
    match p {
        Push::Lit(s) => "builder . push_sql ( "@ + debug_quoted(s@) + " ) ;"@,
        Push::Bind(e) => "builder . push_bind_arg ( "@ + e@ + " ) ;"@,
        Push::Empty => Seq::empty(),
    }
}

/// The builder statements for `ps`, in order.
pub open spec fn push_stmts(ps: Seq<Push>) -> Seq<char>
    decreases ps.len(),
{
    if ps.len() == 0 {
        Seq::empty()
    } else {
        spaced(push_stmts(ps.drop_last()), push_stmt(ps.last()))
    }
}

/// The skeleton's statements for a sequence of blocks.
pub open spec fn skeleton(bs: Seq<Block>) -> Seq<char>
    decreases bs,
{
    if bs.len() == 0 {
        Seq::empty()
    } else {
        spaced(skeleton(bs.subrange(0, bs.len() - 1)), block_stmt(bs[bs.len() - 1]))
    }
}

/// A leaf block calls its routine, then records its bound values; a
/// conditional block dispatches over its alternatives.
pub open spec fn block_stmt(b: Block) -> Seq<char>
    decreases b,
{
    match b.op {
        Op::Push(ps) => spaced(fn_name(path_of(*b.id)) + " ( & mut builder ) ;"@, bind_stmts(ps@)),
        Op::Branch(brs) => arms_stmt(brs@),
    }
}

/// The alternatives of a conditional, in order.
pub open spec fn arms_stmt(brs: Seq<Branch>) -> Seq<char>
    decreases brs,
{
    if brs.len() == 0 {
        Seq::empty()
    } else {
        spaced(arms_stmt(brs.subrange(0, brs.len() - 1)), arm_stmt(brs[brs.len() - 1]))
    }
}

/// One alternative: its keywords, its condition as written, its body.
pub open spec fn arm_stmt(br: Branch) -> Seq<char>
    decreases br,
{
    br.keywords@ + match br.cond {
        Some(c) => " "@ + c@,
        None => Seq::empty(),
    } + " "@ + braced(skeleton(br.body@))
}

/// The text of a string literal whose value is `s`, as `str`'s `Debug`
/// writes it.
pub uninterp spec fn debug_quoted(s: Seq<char>) -> Seq<char>;

/// Every character of `s` is printable ASCII other than `"` and `\`.
pub open spec fn is_plain_ascii(s: Seq<char>) -> bool {
    forall|i: int| 0 <= i < s.len() ==> ' ' <= #[trigger] s[i] <= '~' && s[i] != '"' && s[i] != '\\'
}

/// Relies on `<str as Debug>::fmt`: `s` in double quotes, with quotes,
/// backslashes and special characters escaped, so that it reads back as a
/// string literal of the same value; printable ASCII other than `"` and `\`
/// is written as it is.
#[verifier::external_body]
fn quote_literal(s: &str) -> (r: String)
    ensures
        r@ == debug_quoted(s@),
        is_plain_ascii(s@) ==> r@ == "\""@ + s@ + "\""@,
{
    format!("{:?}", s)
}

/// A routine's statement for one push: text for a literal, a placeholder
/// marker for a bound value, nothing for a nested scope.
pub open spec fn routine_stmt(p: Push) -> Seq<char> {
    match p {
        Push::Lit(s) => "b . push_sql ( "@ + debug_quoted(s@) + " ) ;"@,
        Push::Bind(_) => "b . push_sql_arg ( ) ;"@,
        Push::Empty => Seq::empty(),
    }
}

/// A routine's statements for `ps`, in order.
pub open spec fn routine_stmts(ps: Seq<Push>) -> Seq<char>
    decreases ps.len(),
{
    if ps.len() == 0 {
        Seq::empty()
    } else {
        spaced(routine_stmts(ps.drop_last()), routine_stmt(ps.last()))
    }
}

/// The routine named `name` that writes the text of `ps`.
pub open spec fn routine(name: Seq<char>, ps: Seq<Push>) -> Seq<char> {
    "fn "@ + name + " ( b : & mut sql_builder :: Builder ) "@ + braced(routine_stmts(ps))
}

/// The routines of all leaf blocks among `bs`, at any depth, in pre-order.
pub open spec fn routines(bs: Seq<Block>) -> Seq<char>
    decreases bs,
{
    if bs.len() == 0 {
        Seq::empty()
    } else {
        let last = bs[bs.len() - 1];
        spaced(
            routines(bs.subrange(0, bs.len() - 1)),
            match last.op {
                Op::Push(ps) => routine(fn_name(path_of(*last.id)), ps@),
                Op::Branch(brs) => arms_routines(brs@),
            },
        )
    }
}

/// The routines of the leaf blocks in the bodies of `brs`.
pub open spec fn arms_routines(brs: Seq<Branch>) -> Seq<char>
    decreases brs,
{
    if brs.len() == 0 {
        Seq::empty()
    } else {
        spaced(arms_routines(brs.subrange(0, brs.len() - 1)), routines(brs[brs.len() - 1].body@))
    }
}

/// The whole emitted program for `bs`: a block expression that declares the
/// routines, runs the skeleton against a fresh builder and yields its query.
pub open spec fn program(bs: Seq<Block>) -> Seq<char> {
    braced(
        spaced(
            routines(bs),
            spaced(
                "let mut builder = sql_builder :: Builder :: new ( ) ;"@,
                spaced(skeleton(bs), "builder . build ( )"@),
            ),
        ),
    )
}

/// Appends `s` to `out`, with a space between where both are non-empty.
fn push_spaced(out: &mut String, s: &str)
    ensures
        final(out)@ == spaced(old(out)@, s@),
{
    if s.is_empty() {
    } else if out.as_str().is_empty() {
        out.append(s);
        assert(final(out)@ =~= s@);
    } else {
        out.append(" ");
        out.append(s);
    }
}

/// The name of the routine of the leaf block identified by `id`.
pub fn get_sql_fmt_fn_ident(id: &NodeId) -> (r: String)
    ensures
        r@ == fn_name(path_of(*id)),
    decreases id,
{
    let mut name = match &id.parent {
        Some(p) => get_sql_fmt_fn_ident(p),
        None => "sql_fmt".to_owned(),
    };
    name.append("_");
    push_decimal(&mut name, id.local_index as u64);
    proof {
        let path = path_of(*id);
        assert(path.drop_last() =~= match id.parent {
            Some(p) => path_of(*p),
            None => Seq::<u32>::empty(),
        });
        reveal_with_fuel(fn_name, 2);
    }
    name
}

/// The skeleton's statement that records `push`'s bound value, if it has
/// one; the push's text is written by the leaf block's routine.
pub fn gen_bind_stmt(push: &Push) -> (r: String)
    ensures
        r@ == bind_stmt(*push),
{
    let mut out = String::new();
    if let Push::Bind(e) = push {
        out.append("builder . push_bind_arg ( ");
        out.append(e.as_str());
        out.append(" ) ;");
    }
    assert(out@ =~= bind_stmt(*push));
    out
}

/// The skeleton's statements that record the bound values among `pushes`.
pub fn gen_bind_stmts(pushes: &Vec<Push>) -> (r: String)
    ensures
        r@ == bind_stmts(pushes@),
{
    let mut out = String::new();
    let mut k: usize = 0;
    while k < pushes.len()
        invariant
            k <= pushes.len(),
            out@ == bind_stmts(pushes@.subrange(0, k as int)),
        decreases pushes.len() - k,
    {
        let stmt = gen_bind_stmt(&pushes[k]);
        push_spaced(&mut out, stmt.as_str());
        proof {
            let next = pushes@.subrange(0, k + 1);
            assert(next.drop_last() =~= pushes@.subrange(0, k as int));
        }
        k = k + 1;
    }
    assert(pushes@.subrange(0, k as int) =~= pushes@);
    out
}

/// The builder statement that appends the string literal written `quoted`.
pub fn gen_push_sql_stmt(quoted: &str) -> (r: String)
    ensures
        r@ == "builder . push_sql ( "@ + quoted@ + " ) ;"@,
{
    let mut stmt = "builder . push_sql ( ".to_owned();
    stmt.append(quoted);
    stmt.append(" ) ;");
    stmt
}

/// The builder statement for one push: static text for a literal, the
/// recording of a bound value, nothing for a nested scope.
pub fn gen_push_stmt(push: &Push) -> (r: String)
    ensures
        r@ == push_stmt(*push),
{
    let mut out = String::new();
    match push {
        Push::Lit(lit) => {
            let quoted = quote_literal(lit.as_str());
            out = gen_push_sql_stmt(quoted.as_str());
        },
        Push::Bind(e) => {
            out.append("builder . push_bind_arg ( ");
            out.append(e.as_str());
            out.append(" ) ;");
        },
        Push::Empty => {},
    }
    assert(out@ =~= push_stmt(*push));
    out
}

/// The builder statements for `pushes`, in order.
pub fn gen_pushes(pushes: &Vec<Push>) -> (r: String)
    ensures
        r@ == push_stmts(pushes@),
{
    let mut out = String::new();
    let mut k: usize = 0;
    while k < pushes.len()
        invariant
            k <= pushes.len(),
            out@ == push_stmts(pushes@.subrange(0, k as int)),
        decreases pushes.len() - k,
    {
        let stmt = gen_push_stmt(&pushes[k]);
        push_spaced(&mut out, stmt.as_str());
        proof {
            let next = pushes@.subrange(0, k + 1);
            assert(next.drop_last() =~= pushes@.subrange(0, k as int));
        }
        k = k + 1;
    }
    assert(pushes@.subrange(0, k as int) =~= pushes@);
    out
}

/// One alternative of a conditional.
pub fn gen_branch(branch: &Branch) -> (r: String)
    ensures
        r@ == arm_stmt(*branch),
    decreases branch,
{
    let mut out = branch.keywords.clone();
    if let Some(c) = &branch.cond {
        out.append(" ");
        out.append(c.as_str());
    }
    let body = gen_blocks(&branch.body);
    out.append(" ");
    if body.as_str().is_empty() {
        out.append("{ }");
    } else {
        out.append("{ ");
        out.append(body.as_str());
        out.append(" }");
    }
    assert(out@ =~= arm_stmt(*branch));
    out
}

/// All alternatives of a conditional, in order.
pub fn gen_branches(branches: &Vec<Branch>) -> (r: String)
    ensures
        r@ == arms_stmt(branches@),
    decreases branches@,
{
    let mut out = String::new();
    let mut k: usize = 0;
    while k < branches.len()
        invariant
            k <= branches.len(),
            out@ == arms_stmt(branches@.subrange(0, k as int)),
        decreases branches.len() - k,
    {
        let stmt = gen_branch(&branches[k]);
        push_spaced(&mut out, stmt.as_str());
        proof {
            assert(branches@.subrange(0, k + 1).subrange(0, k as int) =~= branches@.subrange(0, k as int));
        }
        k = k + 1;
    }
    assert(branches@.subrange(0, k as int) =~= branches@);
    out
}

/// The skeleton's statements for one block.
pub fn gen_block(block: &Block) -> (r: String)
    ensures
        r@ == block_stmt(*block),
    decreases block,
{
    match &block.op {
        Op::Push(pushes) => {
            let mut out = get_sql_fmt_fn_ident(&block.id);
            out.append(" ( & mut builder ) ;");
            let binds = gen_bind_stmts(pushes);
            push_spaced(&mut out, binds.as_str());
            out
        },
        Op::Branch(branches) => gen_branches(branches),
    }
}

/// The control skeleton for a sequence of blocks.
pub fn gen_blocks(blocks: &Vec<Block>) -> (r: String)
    ensures
        r@ == skeleton(blocks@),
    decreases blocks@,
{
    let mut out = String::new();
    let mut k: usize = 0;
    while k < blocks.len()
        invariant
            k <= blocks.len(),
            out@ == skeleton(blocks@.subrange(0, k as int)),
        decreases blocks.len() - k,
    {
        let stmt = gen_block(&blocks[k]);
        push_spaced(&mut out, stmt.as_str());
        proof {
            assert(blocks@.subrange(0, k + 1).subrange(0, k as int) =~= blocks@.subrange(0, k as int));
        }
        k = k + 1;
    }
    assert(blocks@.subrange(0, k as int) =~= blocks@);
    out
}

/// The routine statement that appends the string literal written `quoted`.
pub fn gen_lit_stmt(quoted: &str) -> (r: String)
    ensures
        r@ == "b . push_sql ( "@ + quoted@ + " ) ;"@,
{
    let mut stmt = "b . push_sql ( ".to_owned();
    stmt.append(quoted);
    stmt.append(" ) ;");
    stmt
}

/// The routine of a leaf block.
pub fn gen_sql_fmt_fn(pushes: &Vec<Push>, node_id: &NodeId) -> (r: String)
    ensures
        r@ == routine(fn_name(path_of(*node_id)), pushes@),
{
    let mut stmts = String::new();
    let mut k: usize = 0;
    while k < pushes.len()
        invariant
            k <= pushes.len(),
            stmts@ == routine_stmts(pushes@.subrange(0, k as int)),
        decreases pushes.len() - k,
    {
        let mut stmt = String::new();
        match &pushes[k] {
            Push::Lit(lit) => {
                let quoted = quote_literal(lit.as_str());
                stmt = gen_lit_stmt(quoted.as_str());
            },
            Push::Bind(_) => {
                stmt.append("b . push_sql_arg ( ) ;");
            },
            Push::Empty => {},
        }
        assert(stmt@ =~= routine_stmt(pushes@[k as int]));
        push_spaced(&mut stmts, stmt.as_str());
        proof {
            assert(pushes@.subrange(0, k + 1).drop_last() =~= pushes@.subrange(0, k as int));
        }
        k = k + 1;
    }
    assert(pushes@.subrange(0, k as int) =~= pushes@);
    let mut out = "fn ".to_owned();
    let name = get_sql_fmt_fn_ident(node_id);
    out.append(name.as_str());
    out.append(" ( b : & mut sql_builder :: Builder ) ");
    if stmts.as_str().is_empty() {
        out.append("{ }");
    } else {
        out.append("{ ");
        out.append(stmts.as_str());
        out.append(" }");
    }
    assert(out@ =~= routine(fn_name(path_of(*node_id)), pushes@));
    out
}

/// The routines of all leaf blocks among `blocks`, at any depth.
pub fn gen_sql_fmt_fns(blocks: &Vec<Block>) -> (r: String)
    ensures
        r@ == routines(blocks@),
    decreases blocks@,
{
    let mut out = String::new();
    let mut k: usize = 0;
    while k < blocks.len()
        invariant
            k <= blocks.len(),
            out@ == routines(blocks@.subrange(0, k as int)),
        decreases blocks.len() - k,
    {
        let block = &blocks[k];
        let part = match &block.op {
            Op::Push(pushes) => gen_sql_fmt_fn(pushes, &block.id),
            Op::Branch(branches) => gen_arms_fns(branches),
        };
        push_spaced(&mut out, part.as_str());
        proof {
            assert(blocks@.subrange(0, k + 1).subrange(0, k as int) =~= blocks@.subrange(0, k as int));
        }
        k = k + 1;
    }
    assert(blocks@.subrange(0, k as int) =~= blocks@);
    out
}

/// The routines of the leaf blocks in the bodies of `branches`.
fn gen_arms_fns(branches: &Vec<Branch>) -> (r: String)
    ensures
        r@ == arms_routines(branches@),
    decreases branches@,
{
    let mut out = String::new();
    let mut j: usize = 0;
    while j < branches.len()
        invariant
            j <= branches.len(),
            out@ == arms_routines(branches@.subrange(0, j as int)),
        decreases branches.len() - j,
    {
        let body = gen_sql_fmt_fns(&branches[j].body);
        push_spaced(&mut out, body.as_str());
        proof {
            assert(branches@.subrange(0, j + 1).subrange(0, j as int) =~= branches@.subrange(0, j as int));
        }
        j = j + 1;
    }
    assert(branches@.subrange(0, j as int) =~= branches@);
    out
}

/// Compiles a template into the text of a block expression that builds its
/// query when it runs.
pub fn codegen(ast: BuilderAST) -> (r: Result<String, CodegenError>)
    ensures
        r == Err::<String, CodegenError>(CodegenError::TooLarge) <==> n_nodes(ast.constituents@) > u32::MAX,
        r == Err::<String, CodegenError>(CodegenError::Unsupported) <==> n_nodes(ast.constituents@) <= u32::MAX
            && has_match(ast.constituents@),
        r is Ok ==> exists|bs: Seq<Block>|
            flat(ast.constituents@, bs, None, 0) && #[trigger] program(bs) == r->Ok_0@,
{
    let limit: u64 = 4294967296;
    if count_nodes(&ast.constituents, limit) == limit {
        return Err(CodegenError::TooLarge);
    }
    let mut counter = Counter::new();
    let blocks = match create_blocks(ast.constituents, Parent::root(), &mut counter) {
        Ok(blocks) => blocks,
        Err(_) => return Err(CodegenError::Unsupported),
    };
    let fns = gen_sql_fmt_fns(&blocks);
    let stmts = gen_blocks(&blocks);
    let mut tail = "let mut builder = sql_builder :: Builder :: new ( ) ;".to_owned();
    let mut run = stmts;
    push_spaced(&mut run, "builder . build ( )");
    push_spaced(&mut tail, run.as_str());
    let mut inner = fns;
    push_spaced(&mut inner, tail.as_str());
    let mut out = "{ ".to_owned();
    out.append(inner.as_str());
    out.append(" }");
    proof {
        reveal_strlit("let mut builder = sql_builder :: Builder :: new ( ) ;");
        assert(inner@.len() > 0);
        assert(out@ =~= program(blocks@));
    }
    Ok(out)
}

} // verus!
