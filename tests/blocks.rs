use sql_builder::blocks::{count_nodes, create_blocks, Block, Counter, NodeId, Op, Parent, Push, Unsupported};
use sql_builder::parse::{Constituent, Else, If, Match, MatchArm, SqlBlock};

fn lit(s: &str) -> Constituent {
    Constituent::Literal(s.to_string())
}

fn bind(e: &str) -> Constituent {
    Constituent::Bind(e.to_string())
}

fn body(cs: Vec<Constituent>) -> SqlBlock {
    SqlBlock { constituents: cs }
}

fn if_else(cond: &str, then_cs: Vec<Constituent>, else_branch: Option<Else>) -> If {
    If { cond: cond.to_string(), then_branch: body(then_cs), else_branch }
}

fn conditional_template() -> Vec<Constituent> {
    vec![
        lit("SELECT yo FROM stuff "),
        lit("WHERE "),
        Constituent::If(if_else(
            "let Some (bar) = Some (1u32)",
            vec![lit("id IN ("), bind("bar"), lit(") ")],
            Some(Else::Block(body(vec![lit("TRUE ")]))),
        )),
        lit("AND "),
        lit("ORDER BY "),
        lit("date"),
    ]
}

fn push_texts(block: &Block) -> Vec<String> {
    match &block.op {
        Op::Push(pushes) => pushes
            .iter()
            .map(|p| match p {
                Push::Lit(s) => format!("lit:{}", s),
                Push::Bind(e) => format!("bind:{}", e),
                Push::Empty => "empty".to_string(),
            })
            .collect(),
        Op::Branch(_) => vec!["branch".to_string()],
    }
}

fn path(id: &NodeId) -> Vec<u32> {
    let mut p = match &id.parent {
        Some(parent) => path(parent),
        None => vec![],
    };
    p.push(id.local_index);
    p
}

fn preorder_ids(blocks: &[Block], out: &mut Vec<u32>) {
    for b in blocks {
        out.push(b.id.id);
        if let Op::Branch(branches) = &b.op {
            for br in branches {
                out.push(br.id.id);
                preorder_ids(&br.body, out);
            }
        }
    }
}

#[test]
fn blocks_conditional() {
    let blocks = create_blocks(conditional_template(), Parent::root(), &mut Counter::new()).unwrap();
    assert_eq!(blocks.len(), 3);
}

#[test]
fn codegen_conditional() {
    let blocks = create_blocks(conditional_template(), Parent::root(), &mut Counter::new()).unwrap();
    assert_eq!(blocks.len(), 3);
}

#[test]
fn plain_template_is_one_push_block() {
    let cs = vec![lit("SELECT "), bind("a"), lit(" FROM t "), Constituent::Block(body(vec![lit("x")])), bind("b")];
    let blocks = create_blocks(cs, Parent::root(), &mut Counter::new()).unwrap();
    assert_eq!(blocks.len(), 1);
    assert_eq!(push_texts(&blocks[0]), vec!["lit:SELECT ", "bind:a", "lit: FROM t ", "empty", "bind:b"]);
    assert_eq!(blocks[0].id.id, 0);
    assert!(blocks[0].id.parent.is_none());
}

#[test]
fn else_if_chain_gives_three_blocks() {
    let chain = if_else(
        "c1",
        vec![lit("B")],
        Some(Else::If(Box::new(if_else("c2", vec![lit("D")], Some(Else::Block(body(vec![lit("E")]))))))),
    );
    let cs = vec![lit("A"), Constituent::If(chain), lit("F")];
    let blocks = create_blocks(cs, Parent::root(), &mut Counter::new()).unwrap();
    assert_eq!(blocks.len(), 3);
    assert_eq!(push_texts(&blocks[0]), vec!["lit:A"]);
    assert_eq!(push_texts(&blocks[2]), vec!["lit:F"]);
    match &blocks[1].op {
        Op::Branch(branches) => {
            assert_eq!(branches.len(), 3);
            assert_eq!(branches[0].keywords, "if");
            assert_eq!(branches[0].cond.as_deref(), Some("c1"));
            assert_eq!(branches[1].keywords, "else if");
            assert_eq!(branches[1].cond.as_deref(), Some("c2"));
            assert_eq!(branches[2].keywords, "else");
            assert_eq!(branches[2].cond, None);
            assert_eq!(branches[0].body.len(), 1);
            assert_eq!(push_texts(&branches[0].body[0]), vec!["lit:B"]);
            assert_eq!(push_texts(&branches[1].body[0]), vec!["lit:D"]);
            assert_eq!(push_texts(&branches[2].body[0]), vec!["lit:E"]);
        }
        Op::Push(_) => panic!("expected a conditional block"),
    }
}

#[test]
fn ids_are_preorder_and_paths_follow_nesting() {
    let mut counter = Counter::new();
    let blocks = create_blocks(conditional_template(), Parent::root(), &mut counter).unwrap();
    let mut ids = vec![];
    preorder_ids(&blocks, &mut ids);
    assert_eq!(ids, vec![0, 1, 2, 3, 4, 5, 6]);
    assert_eq!(counter.next(), 7);
    assert_eq!(path(&blocks[0].id), vec![0]);
    assert_eq!(path(&blocks[1].id), vec![1]);
    assert_eq!(path(&blocks[2].id), vec![2]);
    match &blocks[1].op {
        Op::Branch(branches) => {
            assert_eq!(path(&branches[1].id), vec![1, 1]);
            assert_eq!(path(&branches[1].body[0].id), vec![1, 1, 0]);
        }
        Op::Push(_) => panic!("expected a conditional block"),
    }
}

#[test]
fn ids_continue_from_the_counter() {
    let mut counter = Counter::new();
    assert_eq!(counter.next(), 0);
    let blocks = create_blocks(vec![lit("x")], Parent::root(), &mut counter).unwrap();
    assert_eq!(blocks[0].id.id, 1);
    assert_eq!(counter.next(), 2);
}

#[test]
fn compiling_twice_gives_the_same_tree() {
    let a = create_blocks(conditional_template(), Parent::root(), &mut Counter::new()).unwrap();
    let b = create_blocks(conditional_template(), Parent::root(), &mut Counter::new()).unwrap();
    let (mut ia, mut ib) = (vec![], vec![]);
    preorder_ids(&a, &mut ia);
    preorder_ids(&b, &mut ib);
    assert_eq!(ia, ib);
    for (x, y) in a.iter().zip(b.iter()) {
        assert_eq!(push_texts(x), push_texts(y));
        assert_eq!(path(&x.id), path(&y.id));
    }
}

#[test]
fn empty_template_gives_no_blocks() {
    let mut counter = Counter::new();
    let blocks = create_blocks(vec![], Parent::root(), &mut counter).unwrap();
    assert!(blocks.is_empty());
    assert_eq!(counter.next(), 0);
}

#[test]
fn match_is_refused() {
    let m = Match {
        expr: "var".to_string(),
        arms: vec![MatchArm { pat: "37".to_string(), guard: None, body: body(vec![lit("a")]) }],
    };
    let r = create_blocks(vec![lit("SELECT "), Constituent::Match(m)], Parent::root(), &mut Counter::new());
    assert!(matches!(r, Err(Unsupported::Match)));
}

#[test]
fn match_inside_a_branch_is_refused() {
    let m = Match { expr: "v".to_string(), arms: vec![] };
    let chain = if_else("c", vec![Constituent::Match(m)], None);
    let r = create_blocks(vec![Constituent::If(chain)], Parent::root(), &mut Counter::new());
    assert!(matches!(r, Err(Unsupported::Match)));
}

#[test]
fn match_inside_a_scope_is_refused() {
    let m = Match { expr: "v".to_string(), arms: vec![] };
    let r = create_blocks(
        vec![Constituent::Block(body(vec![Constituent::Match(m)]))],
        Parent::root(),
        &mut Counter::new(),
    );
    assert!(matches!(r, Err(Unsupported::Match)));
}

#[test]
fn node_count_matches_ids_handed_out() {
    assert_eq!(count_nodes(&conditional_template(), 100), 7);
    assert_eq!(count_nodes(&conditional_template(), 5), 5);
    assert_eq!(count_nodes(&vec![lit("a"), bind("b"), lit("c")], 100), 1);
}
