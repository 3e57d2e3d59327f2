use sql_builder::blocks::{create_blocks, Counter, Parent};
use sql_builder::parse::{Constituent, Else, If, SqlBlock};
use sql_builder::run::{execute, Host};

#[test]
fn its_actually_working_with_proc_macro_hack() {
    let foo = Some(42_i32);
    let iff = If {
        cond: "let Some (i) = foo".to_string(),
        then_branch: SqlBlock {
            constituents: vec![Constituent::Literal("lol.id = ".to_string()), Constituent::Bind("i".to_string())],
        },
        else_branch: Some(Else::Block(SqlBlock { constituents: vec![Constituent::Literal("TRUE".to_string())] })),
    };
    let blocks = create_blocks(
        vec![Constituent::Literal("SELECT * FROM lol WHERE ".to_string()), Constituent::If(iff)],
        Parent::root(),
        &mut Counter::new(),
    )
    .unwrap();
    let mut host = Host { holding: vec![], sizes: vec![] };
    if let Some(i) = foo {
        host.holding.push("let Some (i) = foo".to_string());
        host.sizes.push(("i".to_string(), std::mem::size_of_val(&i)));
    }
    let query = execute(&blocks, &host);
    assert_eq!(query.sql, "SELECT * FROM lol WHERE lol.id = $0");
    assert_eq!(query.args_count, 1);
    assert_eq!(query.args_size, 4);
}

#[test]
fn experiment() {
    struct Builder {
        sql: String,
        args: Vec<String>,
        arg_count: usize,
    }

    fn fmt0(b: &mut Builder) {
        b.sql.push_str("SELECT ");
    }
    fn fmt1_b0(b: &mut Builder) {
        b.sql.push_str("arg ");
        b.sql.push_str(&format!("${} ", b.arg_count));
        b.arg_count += 1;
    }
    fn fmt1_b0_0(b: &mut Builder) {
        b.sql.push_str("SUB ");
    }

    let a = Some("value".to_owned());

    let f0 = move |b: &mut Builder| {
        fmt0(b);
    };
    let f1_0 = move |b: &mut Builder| {
        fmt1_b0_0(b);
    };
    let f1 = move |b: &mut Builder| {
        if let Some(arg) = a {
            fmt1_b0(b);
            b.args.push(arg);
            f1_0(b);
        }
    };

    let mut b = Builder { sql: String::new(), args: Vec::new(), arg_count: 0 };

    if true {
        f0(&mut b);
        f1(&mut b);
    } else {
        fmt0(&mut b);
        fmt1_b0(&mut b);
        fmt1_b0_0(&mut b);
    }

    assert_eq!(b.sql, "SELECT arg $0 SUB ");
}
