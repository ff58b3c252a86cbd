use lib::ids::ClassId;
use lib::scope::Scope;

#[test]
fn reserved_classes() {
    let scope = Scope::new();
    assert_eq!(scope.get_class("This"), Some(ClassId::this()));
    assert_eq!(scope.get_class("NumberLiteral"), Some(ClassId::integer()));
    assert_eq!(scope.get_class("StringLiteral"), Some(ClassId::string()));
    assert_eq!(scope.get_class("Foo"), None);
    assert_ne!(ClassId::this(), ClassId::integer());
    assert_ne!(ClassId::integer(), ClassId::string());
    assert_eq!(scope.get_var("x"), None);
    assert_eq!(scope.num_subscopes(), 1);
}

#[test]
fn declared_variable_is_found() {
    let mut scope = Scope::new();
    let x = scope.var_insert("x".to_string(), ClassId::string());
    let y = scope.var_insert("y".to_string(), ClassId::integer());
    assert_ne!(x, y);
    assert_eq!(scope.get_var("x"), Some(x));
    assert_eq!(scope.get_var("y"), Some(y));
    assert_eq!(scope.get_var("z"), None);
    assert_eq!(scope.type_var(x), Some(ClassId::string()));
    assert_eq!(scope.type_var(y), Some(ClassId::integer()));
}

#[test]
fn declared_class_is_found() {
    let mut scope = Scope::new();
    let c = scope.class_insert("Printer".to_string(), vec!["std".to_string(), "io".to_string()]);
    assert_eq!(scope.get_class("Printer"), Some(c));
    assert_ne!(c, ClassId::this());
    assert_ne!(c, ClassId::integer());
    assert_ne!(c, ClassId::string());
    assert_eq!(scope.get_class("This"), Some(ClassId::this()));
}

#[test]
fn numbers_are_not_reused() {
    let mut scope = Scope::new();
    let c = scope.class_insert("A".to_string(), vec!["a".to_string()]);
    let x = scope.var_insert("x".to_string(), c);
    let d = scope.class_insert("B".to_string(), vec!["b".to_string()]);
    let y = scope.var_insert("y".to_string(), d);
    assert_ne!(c, d);
    assert_ne!(x, y);
    assert_eq!(scope.type_var(x), Some(c));
    assert_eq!(scope.type_var(y), Some(d));
}

#[test]
fn push_then_pop_gives_back_the_scope() {
    let mut scope = Scope::new();
    let x = scope.var_insert("x".to_string(), ClassId::string());
    scope.push_subscope();
    assert_eq!(scope.num_subscopes(), 2);
    let sub = scope.pop_subscope();
    assert_eq!(sub.str_to_var.len(), 0);
    assert_eq!(sub.var_to_class.len(), 0);
    assert_eq!(scope.num_subscopes(), 1);
    assert_eq!(scope.get_var("x"), Some(x));
}

#[test]
fn block_declarations_are_local() {
    let mut scope = Scope::new();
    let outer = scope.var_insert("x".to_string(), ClassId::string());
    scope.push_subscope();
    let inner = scope.var_insert("x".to_string(), ClassId::integer());
    let only_inner = scope.var_insert("y".to_string(), ClassId::integer());
    assert_ne!(outer, inner);
    // the inner declaration shadows the outer one
    assert_eq!(scope.get_var("x"), Some(inner));
    assert_eq!(scope.type_var(inner), Some(ClassId::integer()));
    assert_eq!(scope.type_var(outer), Some(ClassId::string()));
    let sub = scope.pop_subscope();
    assert_eq!(sub.str_to_var.get("x"), Some(inner));
    assert_eq!(sub.str_to_var.get("y"), Some(only_inner));
    assert_eq!(sub.var_to_class.get_class_of(inner), Some(ClassId::integer()));
    assert_eq!(scope.get_var("x"), Some(outer));
    assert_eq!(scope.get_var("y"), None);
    assert_eq!(scope.type_var(inner), None);
}

#[test]
fn refused_declarations() {
    let mut scope = Scope::new();
    let x = scope.var_insert("x".to_string(), ClassId::string());
    assert_eq!(scope.try_var_insert("x".to_string(), ClassId::integer()), None);
    assert_eq!(scope.type_var(x), Some(ClassId::string()));
    assert_eq!(scope.try_class_insert("This".to_string(), vec!["t".to_string()]), None);
    let c = scope.try_class_insert("A".to_string(), vec!["p".to_string()]);
    assert!(c.is_some());
    assert_eq!(scope.try_class_insert("B".to_string(), vec!["p".to_string()]), None);
    assert_eq!(scope.get_class("B"), None);
    assert_eq!(scope.get_class("A"), c);
}

#[test]
fn block_of_several_declarations_is_forgotten() {
    let mut scope = Scope::new();
    let x = scope.var_insert("x".to_string(), ClassId::string());
    let c = scope.class_insert("C".to_string(), vec!["c".to_string()]);
    scope.push_subscope();
    let a = scope.var_insert("a".to_string(), ClassId::integer());
    let b = scope.var_insert("b".to_string(), c);
    let x2 = scope.var_insert("x".to_string(), ClassId::integer());
    let sub = scope.pop_subscope();
    assert_eq!(sub.str_to_var.len(), 3);
    assert_eq!(sub.str_to_var.get("a"), Some(a));
    assert_eq!(sub.str_to_var.get("b"), Some(b));
    assert_eq!(sub.str_to_var.get("x"), Some(x2));
    assert_eq!(sub.var_to_class.len(), 3);
    assert_eq!(sub.var_to_class.get_class_of(b), Some(c));
    assert_eq!(scope.get_var("x"), Some(x));
    assert_eq!(scope.get_var("a"), None);
    assert_eq!(scope.get_var("b"), None);
    assert_eq!(scope.type_var(x), Some(ClassId::string()));
    assert_eq!(scope.type_var(a), None);
    assert_eq!(scope.get_class("C"), Some(c));
    assert_eq!(scope.num_subscopes(), 1);
}

#[test]
fn only_class_insert_changes_classes() {
    let mut scope = Scope::new();
    scope.push_subscope();
    scope.var_insert("Foo".to_string(), ClassId::string());
    assert_eq!(scope.get_class("Foo"), None);
    let foo = scope.class_insert("Foo".to_string(), vec!["f".to_string()]);
    scope.pop_subscope();
    assert_eq!(scope.get_class("Foo"), Some(foo));
    assert_eq!(scope.get_class("This"), Some(ClassId::this()));
}

#[test]
fn visible_variable_keeps_its_class() {
    let mut scope = Scope::new();
    let c = scope.class_insert("C".to_string(), vec!["c".to_string()]);
    let v = scope.var_insert("v".to_string(), c);
    scope.push_subscope();
    let w = scope.var_insert("w".to_string(), ClassId::string());
    scope.push_subscope();
    assert_eq!(scope.get_var("v"), Some(v));
    assert_eq!(scope.type_var(v), Some(c));
    assert_eq!(scope.get_var("w"), Some(w));
    assert_eq!(scope.type_var(w), Some(ClassId::string()));
}

#[test]
fn numbers_rise_over_a_history() {
    let mut scope = Scope::new();
    let mut vars = Vec::new();
    let mut classes = vec![ClassId::this(), ClassId::integer(), ClassId::string()];
    for i in 0..4 {
        classes.push(scope.class_insert(format!("K{}", i), vec![format!("k{}", i)]));
        scope.push_subscope();
        vars.push(scope.var_insert("x".to_string(), classes[classes.len() - 1]));
        scope.pop_subscope();
        vars.push(scope.var_insert(format!("y{}", i), ClassId::string()));
    }
    for i in 0..vars.len() {
        for j in 0..vars.len() {
            if i != j {
                assert_ne!(vars[i], vars[j]);
            }
        }
    }
    for i in 0..classes.len() {
        for j in 0..classes.len() {
            if i != j {
                assert_ne!(classes[i], classes[j]);
            }
        }
    }
}

#[test]
fn cloned_scope_is_the_same() {
    let mut scope = Scope::new();
    let x = scope.var_insert("x".to_string(), ClassId::string());
    scope.push_subscope();
    let copy = scope.clone();
    assert_eq!(copy.get_var("x"), Some(x));
    assert_eq!(copy.num_subscopes(), 2);
    assert_eq!(copy.get_class("NumberLiteral"), Some(ClassId::integer()));
}
