use sql_builder::blocks::{create_blocks, Block, Counter, Parent};
use sql_builder::parse::{Constituent, Else, If, SqlBlock};
use sql_builder::run::{execute, Host};
use sql_builder::Builder;

fn lit(s: &str) -> Constituent {
    Constituent::Literal(s.to_string())
}

fn bind(e: &str) -> Constituent {
    Constituent::Bind(e.to_string())
}

fn body(cs: Vec<Constituent>) -> SqlBlock {
    SqlBlock { constituents: cs }
}

fn example_blocks() -> Vec<Block> {
    let iff = If {
        cond: "flag".to_string(),
        then_branch: body(vec![lit("id = "), bind("id")]),
        else_branch: Some(Else::Block(body(vec![lit("TRUE")]))),
    };
    create_blocks(vec![lit("SELECT * FROM t WHERE "), Constituent::If(iff)], Parent::root(), &mut Counter::new())
        .unwrap()
}

#[test]
fn example_condition_false() {
    let host = Host { holding: vec![], sizes: vec![] };
    let q = execute(&example_blocks(), &host);
    assert_eq!(q.sql, "SELECT * FROM t WHERE TRUE");
    assert_eq!(q.args_count, 0);
    assert_eq!(q.args_size, 0);
}

#[test]
fn example_condition_true() {
    let host = Host { holding: vec!["flag".to_string()], sizes: vec![("id".to_string(), 4)] };
    let q = execute(&example_blocks(), &host);
    assert_eq!(q.sql, "SELECT * FROM t WHERE id = $0");
    assert_eq!(q.args_count, 1);
    assert_eq!(q.args_size, 4);
}

#[test]
fn markers_number_in_execution_order() {
    let first = If {
        cond: "a".to_string(),
        then_branch: body(vec![lit("x = "), bind("x")]),
        else_branch: None,
    };
    let second = If {
        cond: "b".to_string(),
        then_branch: body(vec![lit(" y = "), bind("y")]),
        else_branch: Some(Else::If(Box::new(If {
            cond: "c".to_string(),
            then_branch: body(vec![lit(" z = "), bind("z")]),
            else_branch: None,
        }))),
    };
    let blocks = create_blocks(
        vec![Constituent::If(first), Constituent::If(second), lit(" w = "), bind("w")],
        Parent::root(),
        &mut Counter::new(),
    )
    .unwrap();
    let host = Host {
        holding: vec!["c".to_string()],
        sizes: vec![("z".to_string(), 8), ("w".to_string(), 2)],
    };
    let q = execute(&blocks, &host);
    assert_eq!(q.sql, " z = $0 w = $1");
    assert_eq!(q.args_count, 2);
    assert_eq!(q.args_size, 10);
}

#[test]
fn first_matching_branch_wins() {
    let iff = If {
        cond: "a".to_string(),
        then_branch: body(vec![lit("A")]),
        else_branch: Some(Else::If(Box::new(If {
            cond: "b".to_string(),
            then_branch: body(vec![lit("B")]),
            else_branch: None,
        }))),
    };
    let blocks = create_blocks(vec![Constituent::If(iff)], Parent::root(), &mut Counter::new()).unwrap();
    let host = Host { holding: vec!["b".to_string(), "a".to_string()], sizes: vec![] };
    assert_eq!(execute(&blocks, &host).sql, "A");
}

#[test]
fn builder_numbers_markers_from_zero() {
    let mut b = Builder::new();
    b.push_sql("a = ");
    b.push_sql_arg();
    b.push_bind_arg(5u16);
    b.push_sql(", b = ");
    b.push_sql_arg();
    b.push_bind_arg(5u64);
    let q = b.build();
    assert_eq!(q.sql, "a = $0, b = $1");
    assert_eq!(q.args_count, 2);
    assert_eq!(q.args_size, 10);
}

#[test]
fn builder_counts_past_nine() {
    let mut b = Builder::new();
    for _ in 0..11 {
        b.push_sql_arg();
    }
    let q = b.build();
    assert_eq!(q.sql, "$0$1$2$3$4$5$6$7$8$9$10");
    assert_eq!(q.args_count, 11);
}

#[test]
fn builder_example_with_an_i32() {
    let mut b = Builder::new();
    b.push_sql("SELECT * FROM t WHERE ");
    b.push_sql("id = ");
    b.push_sql_arg();
    b.push_bind_arg(42_i32);
    let q = b.build();
    assert_eq!(q.sql, "SELECT * FROM t WHERE id = $0");
    assert_eq!(q.args_count, 1);
    assert_eq!(q.args_size, 4);
}
