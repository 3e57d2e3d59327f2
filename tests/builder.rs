use sql_builder::builder::{parent_builder, sub_builder};

#[test]
fn test() {
    let b = parent_builder("yo", None);
    let mut sql = String::new();
    let _args = b.prepare(&mut sql);

    assert_eq!(sql, "SELECT ? FROM ? WHERE (TRUE)");
}

#[test]
fn parent_with_ids_writes_placeholder() {
    let b = parent_builder("t", Some(vec!["a".to_string()]));
    let mut sql = String::new();
    let args = b.prepare(&mut sql);
    assert_eq!(sql, "SELECT ? FROM ? WHERE (id = ?)");
    assert_eq!(args.0, "t");
    assert_eq!(args.1, 0);
    assert_eq!(args.2, Some(vec!["a".to_string()]));
}

#[test]
fn sub_builder_hands_back_its_arguments() {
    let mut sql = String::from("x ");
    let args = sub_builder(7, None).prepare(&mut sql);
    assert_eq!(sql, "x TRUE");
    assert_eq!(args, (7, None));
}
