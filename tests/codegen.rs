use sql_builder::blocks::{create_blocks, Counter, NodeId, Parent};
use sql_builder::blocks::Push;
use sql_builder::codegen::{
    codegen, gen_bind_stmt, gen_bind_stmts, gen_blocks, gen_lit_stmt, gen_push_sql_stmt, gen_push_stmt, gen_pushes,
    gen_sql_fmt_fns, get_sql_fmt_fn_ident, CodegenError,
};
use sql_builder::parse::{BuilderAST, Constituent, Else, If, Match, SqlBlock};
use std::rc::Rc;

fn lit(s: &str) -> Constituent {
    Constituent::Literal(s.to_string())
}

fn bind(e: &str) -> Constituent {
    Constituent::Bind(e.to_string())
}

fn body(cs: Vec<Constituent>) -> SqlBlock {
    SqlBlock { constituents: cs }
}

fn test_gen_blocks(cs: Vec<Constituent>) -> String {
    let blocks = create_blocks(cs, Parent::root(), &mut Counter::new()).unwrap();
    gen_blocks(&blocks)
}

#[test]
fn gen_blocks_push_lit() {
    let stream = test_gen_blocks(vec![lit("SELECT")]);
    assert_eq!(stream, "sql_fmt_0 ( & mut builder ) ;");
}

#[test]
fn gen_blocks_records_bound_values() {
    let stream = test_gen_blocks(vec![bind("42")]);
    assert_eq!(stream, "sql_fmt_0 ( & mut builder ) ; builder . push_bind_arg ( 42 ) ;");
}

#[test]
fn gen_blocks_dispatches_over_branches() {
    let iff = If {
        cond: "true".to_string(),
        then_branch: body(vec![lit("SELECT"), bind("1")]),
        else_branch: Some(Else::Block(body(vec![lit("DELETE"), bind("2")]))),
    };
    let stream = test_gen_blocks(vec![lit("WITH"), Constituent::If(iff)]);
    assert_eq!(
        stream,
        "sql_fmt_0 ( & mut builder ) ; if true { sql_fmt_1_0_0 ( & mut builder ) ; builder . push_bind_arg ( 1 ) ; } else { sql_fmt_1_1_0 ( & mut builder ) ; builder . push_bind_arg ( 2 ) ; }"
    );
}

#[test]
fn gen_blocks_without_else_and_empty_body() {
    let iff = If { cond: "c".to_string(), then_branch: body(vec![]), else_branch: None };
    let stream = test_gen_blocks(vec![Constituent::If(iff)]);
    assert_eq!(stream, "if c { }");
}

#[test]
fn routines_write_text_and_markers() {
    let iff = If {
        cond: "c".to_string(),
        then_branch: body(vec![lit("id = "), bind("x")]),
        else_branch: None,
    };
    let blocks =
        create_blocks(vec![lit("SELECT \"q\" "), Constituent::If(iff)], Parent::root(), &mut Counter::new()).unwrap();
    assert_eq!(
        gen_sql_fmt_fns(&blocks),
        "fn sql_fmt_0 ( b : & mut sql_builder :: Builder ) { b . push_sql ( \"SELECT \\\"q\\\" \" ) ; } fn sql_fmt_1_0_0 ( b : & mut sql_builder :: Builder ) { b . push_sql ( \"id = \" ) ; b . push_sql_arg ( ) ; }"
    );
}

#[test]
fn routine_names_follow_the_path() {
    let root = Rc::new(NodeId { parent: None, id: 0, local_index: 12 });
    let mid = Rc::new(NodeId { parent: Some(root), id: 1, local_index: 0 });
    let leaf = NodeId { parent: Some(mid), id: 2, local_index: 305 };
    assert_eq!(get_sql_fmt_fn_ident(&leaf), "sql_fmt_12_0_305");
}

#[test]
fn codegen_emits_a_whole_program() {
    let ast = BuilderAST { constituents: vec![lit("SELECT 1")] };
    let program = codegen(ast).unwrap();
    assert_eq!(
        program,
        "{ fn sql_fmt_0 ( b : & mut sql_builder :: Builder ) { b . push_sql ( \"SELECT 1\" ) ; } let mut builder = sql_builder :: Builder :: new ( ) ; sql_fmt_0 ( & mut builder ) ; builder . build ( ) }"
    );
}

#[test]
fn codegen_of_an_empty_template() {
    let program = codegen(BuilderAST { constituents: vec![] }).unwrap();
    assert_eq!(program, "{ let mut builder = sql_builder :: Builder :: new ( ) ; builder . build ( ) }");
}

#[test]
fn codegen_refuses_match() {
    let m = Match { expr: "x".to_string(), arms: vec![] };
    let r = codegen(BuilderAST { constituents: vec![lit("a"), Constituent::Match(m)] });
    assert_eq!(r, Err(CodegenError::Unsupported));
}

#[test]
fn literal_statement_wraps_the_quoted_text() {
    assert_eq!(gen_lit_stmt("\"a\""), "b . push_sql ( \"a\" ) ;");
}

#[test]
fn push_statements_for_each_kind() {
    assert_eq!(gen_push_stmt(&Push::Lit("SELECT \"x\"".to_string())), "builder . push_sql ( \"SELECT \\\"x\\\"\" ) ;");
    assert_eq!(gen_push_stmt(&Push::Bind("42".to_string())), "builder . push_bind_arg ( 42 ) ;");
    assert_eq!(gen_push_stmt(&Push::Empty), "");
}

#[test]
fn push_statements_in_order() {
    let pushes = vec![Push::Lit("a".to_string()), Push::Empty, Push::Bind("v".to_string())];
    assert_eq!(gen_pushes(&pushes), "builder . push_sql ( \"a\" ) ; builder . push_bind_arg ( v ) ;");
    assert_eq!(gen_pushes(&vec![]), "");
}

#[test]
fn bind_statements_skip_text() {
    assert_eq!(gen_bind_stmt(&Push::Lit("a".to_string())), "");
    assert_eq!(gen_bind_stmt(&Push::Bind("v".to_string())), "builder . push_bind_arg ( v ) ;");
    let pushes = vec![Push::Bind("x".to_string()), Push::Lit("a".to_string()), Push::Bind("y".to_string())];
    assert_eq!(gen_bind_stmts(&pushes), "builder . push_bind_arg ( x ) ; builder . push_bind_arg ( y ) ;");
}

#[test]
fn push_sql_statement_wraps_the_quoted_text() {
    assert_eq!(gen_push_sql_stmt("\"q\""), "builder . push_sql ( \"q\" ) ;");
}
