use lucid::ast::MutabilityView;
use lucid::checker::TypeChecker;
use lucid::token::Span;
use lucid::types::Type;

fn class_named(name: &str) -> Type {
    Type::Class {
        name: name.to_string(),
        type_args: Vec::new(),
        parent: None,
        traits: Vec::new(),
        interfaces: Vec::new(),
        fields: Vec::new(),
        is_sealed: false,
    }
}

#[test]
fn test_make_union_flattens_drops_never_and_duplicates() {
    let u = Type::make_union(vec![Type::Int, Type::Never, Type::Int, Type::Str]);
    assert_eq!(u.describe(), "Union([Int, Str])");
    let nested = Type::make_union(vec![Type::Union(vec![Type::Int, Type::Str]), Type::Str, Type::Bool]);
    assert_eq!(nested.describe(), "Union([Int, Str, Bool])");
}

#[test]
fn test_make_union_of_one_or_none() {
    assert_eq!(Type::make_union(vec![]).describe(), "Never");
    assert_eq!(Type::make_union(vec![Type::Never]).describe(), "Never");
    assert_eq!(Type::make_union(vec![Type::Float]).describe(), "Float");
    assert_eq!(Type::make_union(vec![Type::Float, Type::Float]).describe(), "Float");
}

#[test]
fn test_make_union_is_idempotent_on_an_example() {
    let once = Type::make_union(vec![Type::Int, Type::Str, Type::Int]);
    let twice = Type::make_union(vec![once.duplicate()]);
    assert_eq!(once.describe(), twice.describe());
}

#[test]
fn test_subtyping_examples() {
    let checker = TypeChecker::new();
    let env = &checker.env;
    let int_or_str = Type::Union(vec![Type::Int, Type::Str]);
    let wider = Type::Union(vec![Type::Str, Type::Bool, Type::Int]);
    assert!(Type::Never.is_subtype_of(&Type::Int, env));
    assert!(Type::Int.is_subtype_of(&Type::Int, env));
    assert!(Type::Int.is_subtype_of(&int_or_str, env));
    assert!(int_or_str.is_subtype_of(&wider, env));
    assert!(!wider.is_subtype_of(&int_or_str, env));
    assert!(!Type::Int.is_subtype_of(&Type::Str, env));
    let frozen = Type::View { mutability: MutabilityView::Immutable, inner: Box::new(Type::Int) };
    let read_only = Type::View { mutability: MutabilityView::ReadOnly, inner: Box::new(Type::Int) };
    assert!(frozen.is_subtype_of(&read_only, env));
    assert!(!read_only.is_subtype_of(&frozen, env));
}

#[test]
fn test_class_subtyping_follows_parents_interfaces_and_traits() {
    let src = "interface Shape:\n    def area() -> int\n\ntrait Named:\n    def name() -> str:\n        return \"n\"\n\nclass Base:\n    x: int\n\nclass Child(Base, Named, Shape):\n    y: int\n\nclass Grandchild(Child):\n    z: int\n";
    let module = lucid::parse(src).unwrap();
    let mut checker = TypeChecker::new();
    checker.check_module(&module).unwrap();
    let env = &checker.env;
    let grandchild = checker.resolve_type_expr(&lucid::ast::TypeExpr::Named { name: "Grandchild".to_string(), args: vec![], span: Span::new(0, 0, 1, 1) }).unwrap();
    let child = checker.resolve_type_expr(&lucid::ast::TypeExpr::Named { name: "Child".to_string(), args: vec![], span: Span::new(0, 0, 1, 1) }).unwrap();
    assert!(grandchild.is_subtype_of(&class_named("Base"), env));
    assert!(child.is_subtype_of(&class_named("Base"), env));
    let shape = Type::Interface { name: "Shape".to_string(), type_args: vec![], methods: vec![] };
    let named = Type::Trait { name: "Named".to_string(), type_args: vec![], methods: vec![] };
    assert!(child.is_subtype_of(&shape, env));
    assert!(child.is_subtype_of(&named, env));
    assert!(!class_named("Base").is_subtype_of(&child, env));
}

#[test]
fn test_types_equal_ignores_field_order() {
    let a = Type::Class {
        name: "P".to_string(),
        type_args: vec![],
        parent: None,
        traits: vec![],
        interfaces: vec![],
        fields: vec![("x".to_string(), Type::Int), ("y".to_string(), Type::Str)],
        is_sealed: false,
    };
    let b = Type::Class {
        name: "P".to_string(),
        type_args: vec![],
        parent: None,
        traits: vec![],
        interfaces: vec![],
        fields: vec![("y".to_string(), Type::Str), ("x".to_string(), Type::Int)],
        is_sealed: false,
    };
    assert!(lucid::types::types_equal(&a, &b));
    assert!(!lucid::types::types_equal(&a, &class_named("P")));
}

#[test]
fn test_span_merge_covers_both() {
    let a = Span::new(3, 7, 1, 4);
    let b = Span::new(10, 12, 2, 1);
    let m = a.merge(b);
    assert_eq!(m, Span::new(3, 12, 1, 4));
    assert_eq!(b.merge(a), Span::new(3, 12, 1, 4));
}
