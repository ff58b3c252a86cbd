use lib::ast::{Statement, TopLevelBlock, Value, ValueType};
use lib::ids::ClassId;
use lib::lexer::tokenize;
use lib::parser::{parse, try_parse};

fn program(src: &str) -> TopLevelBlock {
    parse(&tokenize(src))
}

fn rejected(src: &str) -> bool {
    try_parse(&tokenize(src)).is_none()
}

#[test]
fn empty_program() {
    let p = program("");
    assert!(p.statements.is_empty());
    assert_eq!(p.str_to_class.len(), 3);
    assert_eq!(p.str_to_class.get("This"), Some(ClassId::this()));
    assert_eq!(p.str_to_class.get("NumberLiteral"), Some(ClassId::integer()));
    assert_eq!(p.str_to_class.get("StringLiteral"), Some(ClassId::string()));
    assert_eq!(p.subscope.str_to_var.len(), 0);
}

#[test]
fn variable_declaration() {
    let p = program("NumberLiteral x 5\n");
    assert_eq!(p.statements.len(), 1);
    let x = p.subscope.str_to_var.get("x").unwrap();
    assert_eq!(p.subscope.var_to_class.get_class_of(x), Some(ClassId::integer()));
    match &p.statements[0] {
        Statement::VariableDeclaration(v, Value(ValueType::NumberLiteral(n))) => {
            assert_eq!(*v, x);
            assert_eq!(n, "5");
        }
        other => panic!("{:?}", other),
    }
}

#[test]
fn variable_is_declared_before_its_value() {
    let p = program("NumberLiteral x x\n");
    let x = p.subscope.str_to_var.get("x").unwrap();
    match &p.statements[0] {
        Statement::VariableDeclaration(v, Value(ValueType::Variable(w))) => {
            assert_eq!(*v, x);
            assert_eq!(*w, x);
        }
        other => panic!("{:?}", other),
    }
}

#[test]
fn comment_lines_are_skipped() {
    let p = program("\"a comment\"\n\nStringLiteral s \"text\"\n");
    assert_eq!(p.statements.len(), 1);
    match &p.statements[0] {
        Statement::VariableDeclaration(_, Value(ValueType::StringLiteral(s))) => assert_eq!(s, "text"),
        other => panic!("{:?}", other),
    }
}

#[test]
fn use_and_constructor() {
    let p = program("Use std io As Printer\nPrinter p Printer()\n");
    assert_eq!(p.statements.len(), 2);
    let printer = p.str_to_class.get("Printer").unwrap();
    assert!(p.path_to_class.contains_path(&vec!["std".to_string(), "io".to_string()]));
    match &p.statements[0] {
        Statement::Use(u) => {
            assert_eq!(u.name, printer);
            assert_eq!(u.path, vec!["std".to_string(), "io".to_string()]);
        }
        other => panic!("{:?}", other),
    }
    match &p.statements[1] {
        Statement::VariableDeclaration(_, Value(ValueType::Constructor(c, args))) => {
            assert_eq!(*c, printer);
            assert!(args.is_empty());
        }
        other => panic!("{:?}", other),
    }
}

#[test]
fn inherit_names_a_known_class() {
    let p = program("Use a As B\nInherit B\n");
    let b = p.str_to_class.get("B").unwrap();
    match &p.statements[1] {
        Statement::Inherit(c) => assert_eq!(*c, b),
        other => panic!("{:?}", other),
    }
    assert!(rejected("Inherit Unknown\n"));
}

#[test]
fn void_method() {
    let p = program("Void Main Method\n\tNumberLiteral y 1\n");
    assert_eq!(p.statements.len(), 1);
    match &p.statements[0] {
        Statement::Method(m) => {
            assert_eq!(m.name, "Main");
            assert_eq!(m.ret, None);
            assert!(m.args.is_empty());
            assert_eq!(m.block.statements.len(), 1);
            assert!(m.block.sub_scope.str_to_var.get("y").is_some());
        }
        other => panic!("{:?}", other),
    }
    // the method's variables are not visible at the top level
    assert_eq!(p.subscope.str_to_var.get("y"), None);
    // a method body ends on an empty line before the next top-level line
    assert!(rejected("Void Main Method\n\tNumberLiteral y 1\nNumberLiteral z 2\n"));
    assert!(!rejected("Void Main Method\n\tNumberLiteral y 1\n\nNumberLiteral z 2\n"));
}

#[test]
fn constructor_and_typed_method() {
    let p = program(
        "Method Method NumberLiteral n\n\tn.Print()\n\nStringLiteral Name Method StringLiteral a NumberLiteral b\n\ta.Print(b)\n",
    );
    assert_eq!(p.statements.len(), 2);
    match &p.statements[0] {
        Statement::Method(m) => {
            assert_eq!(m.name, "Constructor");
            assert_eq!(m.ret, Some(ClassId::this()));
            assert_eq!(m.args.len(), 1);
            assert_eq!(m.block.sub_scope.var_to_class.get_class_of(m.args[0]), Some(ClassId::integer()));
        }
        other => panic!("{:?}", other),
    }
    match &p.statements[1] {
        Statement::Method(m) => {
            assert_eq!(m.name, "Name");
            assert_eq!(m.ret, Some(ClassId::string()));
            assert_eq!(m.args.len(), 2);
            match &m.block.statements[0] {
                Statement::MethodCall(call) => {
                    assert_eq!(call.method_name, "Print");
                    assert_eq!(call.args.len(), 1);
                    assert!(matches!(*call.target, Value(ValueType::Variable(v)) if v == m.args[0]));
                    assert!(matches!(call.args[0], Value(ValueType::Variable(v)) if v == m.args[1]));
                }
                other => panic!("{:?}", other),
            }
        }
        other => panic!("{:?}", other),
    }
}

#[test]
fn do_until_loop() {
    let p = program("StringLiteral s \"a\"\nDo\n\ts.Print()\nUntil s\n");
    assert_eq!(p.statements.len(), 2);
    let s = p.subscope.str_to_var.get("s").unwrap();
    match &p.statements[1] {
        Statement::Loop(block, Value(ValueType::Variable(v))) => {
            assert_eq!(*v, s);
            assert_eq!(block.statements.len(), 1);
            assert!(matches!(&block.statements[0], Statement::MethodCall(c) if c.method_name == "Print"));
        }
        other => panic!("{:?}", other),
    }
    // the loop must end with Until
    assert!(rejected("StringLiteral s \"a\"\nDo\n\ts.Print()\n"));
}

#[test]
fn if_block_then_more_statements() {
    let p = program("StringLiteral s \"a\"\nIf s\n\ts.Print()\ns.Print()\n");
    assert_eq!(p.statements.len(), 3);
    assert!(matches!(&p.statements[1], Statement::If(b, _) if b.statements.len() == 1));
    assert!(matches!(&p.statements[2], Statement::MethodCall(_)));
}

#[test]
fn nested_if_blocks_end_together() {
    let p = program("If 1\n\tIf 2\n\t\tNumberLiteral a 3\nNumberLiteral b 4\n");
    assert_eq!(p.statements.len(), 2);
    match &p.statements[0] {
        Statement::If(outer, Value(ValueType::NumberLiteral(one))) => {
            assert_eq!(one, "1");
            assert_eq!(outer.statements.len(), 1);
            match &outer.statements[0] {
                Statement::If(inner, _) => {
                    assert_eq!(inner.statements.len(), 1);
                    assert!(inner.sub_scope.str_to_var.get("a").is_some());
                }
                other => panic!("{:?}", other),
            }
        }
        other => panic!("{:?}", other),
    }
    assert!(matches!(&p.statements[1], Statement::VariableDeclaration(_, _)));
    assert!(p.subscope.str_to_var.get("b").is_some());
    assert!(p.subscope.str_to_var.get("a").is_none());
}

#[test]
fn parenthesized_call() {
    let p = program("StringLiteral s \"a\"\n(s).Print()\n");
    match &p.statements[1] {
        Statement::MethodCall(call) => {
            assert_eq!(call.method_name, "Print");
            assert!(matches!(*call.target, Value(ValueType::Variable(_))));
        }
        other => panic!("{:?}", other),
    }
    // a parenthesized value alone is not a statement
    assert!(rejected("StringLiteral s \"a\"\n(s)\n"));
}

#[test]
fn top_level_only_statements_are_rejected_in_blocks() {
    assert!(rejected("Void A Method\n\tVoid B Method\n\t\tNumberLiteral x 1\n"));
    assert!(rejected("If 1\n\tUse a As B\n"));
    assert!(rejected("If 1\n\tInherit This\n"));
}

#[test]
fn other_rejected_programs() {
    // unknown variable
    assert!(rejected("x.Print()\n"));
    // unknown class
    assert!(rejected("Foo x 1\n"));
    // a value may not end the tokens
    assert!(rejected("NumberLiteral x 1"));
    // the same name twice in one block
    assert!(rejected("NumberLiteral x 1\nNumberLiteral x 2\n"));
    // the same class name twice
    assert!(rejected("Use a As A\nUse b As A\n"));
    // a token that no statement starts with
    assert!(rejected("Until\n"));
    // two statements on one line
    assert!(rejected("NumberLiteral x 1 NumberLiteral y 2\n"));
}

#[test]
fn cloned_program_is_the_same() {
    let p = program("Use a b As C\nC c C()\nIf c\n\tc.Run(1 \"s\")\n");
    let q = p.clone();
    assert_eq!(format!("{:?}", p), format!("{:?}", q));
    assert_eq!(q.str_to_class.get("C"), p.str_to_class.get("C"));
    assert!(q.path_to_class.contains_path(&vec!["a".to_string(), "b".to_string()]));
    let s = p.statements[2].clone();
    assert_eq!(format!("{:?}", s), format!("{:?}", p.statements[2]));
}

#[test]
fn each_sub_scope_holds_its_own_declarations() {
    let p = program(
        "NumberLiteral a 1\nIf a\n\tNumberLiteral b 2\nStringLiteral c \"x\"\nVoid Main Method NumberLiteral n\n\tNumberLiteral d n\n",
    );
    // the top level declares a and c: its sub-scope holds those two and no other
    assert_eq!(p.subscope.str_to_var.len(), 2);
    assert_eq!(p.subscope.var_to_class.len(), 2);
    let a = p.subscope.str_to_var.get("a").unwrap();
    let c = p.subscope.str_to_var.get("c").unwrap();
    assert_ne!(a, c);
    assert_eq!(p.subscope.var_to_class.get_class_of(a), Some(ClassId::integer()));
    assert_eq!(p.subscope.var_to_class.get_class_of(c), Some(ClassId::string()));
    assert!(matches!(&p.statements[0], Statement::VariableDeclaration(v, _) if *v == a));
    assert!(matches!(&p.statements[2], Statement::VariableDeclaration(v, _) if *v == c));
    // the If block holds only b
    match &p.statements[1] {
        Statement::If(block, _) => {
            assert_eq!(block.sub_scope.str_to_var.len(), 1);
            assert_eq!(block.sub_scope.var_to_class.len(), 1);
            let b = block.sub_scope.str_to_var.get("b").unwrap();
            assert!(matches!(&block.statements[0], Statement::VariableDeclaration(v, _) if *v == b));
        }
        other => panic!("{:?}", other),
    }
    // the method's block holds its parameter n, then d
    match &p.statements[3] {
        Statement::Method(m) => {
            assert_eq!(m.block.sub_scope.str_to_var.len(), 2);
            assert_eq!(m.block.sub_scope.var_to_class.len(), 2);
            assert_eq!(m.block.sub_scope.str_to_var.get("n"), Some(m.args[0]));
            let d = m.block.sub_scope.str_to_var.get("d").unwrap();
            assert!(matches!(&m.block.statements[0], Statement::VariableDeclaration(v, _) if *v == d));
        }
        other => panic!("{:?}", other),
    }
}
