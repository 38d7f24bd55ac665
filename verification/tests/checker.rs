use lucid::ast::MutabilityView;
use lucid::checker::TypeChecker;
use lucid::parse;
use lucid::types::Type;

fn class_type(name: &str) -> Type {
    Type::Class {
        name: name.to_string(),
        type_args: Vec::new(),
        parent: None,
        traits: Vec::new(),
        interfaces: Vec::new(),
        fields: Vec::new(),
        is_sealed: false,
    }
}

/// Parses and checks a source text, as a driver does before running it.
fn check_source(source: &str) -> Result<(), String> {
    let module = match parse(source) {
        Ok(m) => m,
        Err(e) => return Err(format!("parse error: {e}")),
    };
    let mut checker = TypeChecker::new();
    checker.check_module(&module).map_err(|e| format!("type error: {}", e.message))
}

#[test]
fn test_single_inheritance_rule_enforced() {
    let src = r#"
class Base1:
    x: int

class Base2:
    y: int

class Child(Base1, Base2):
    z: int
"#;
    let module = parse(src).unwrap();
    let mut checker = TypeChecker::new();
    let err = checker.check_module(&module);
    assert!(err.is_err());
    assert!(err.unwrap_err().message.contains("multiple class parents"));
}

#[test]
fn test_mutability_subtyping() {
    let checker = TypeChecker::new();
    let point_mutable = class_type("Point");

    let point_read_only = Type::View {
        mutability: MutabilityView::ReadOnly,
        inner: Box::new(point_mutable.duplicate()),
    };

    let point_immutable = Type::View {
        mutability: MutabilityView::Immutable,
        inner: Box::new(point_mutable.duplicate()),
    };

    // Point <: &Point (mutable can be passed to read-only parameter)
    assert!(point_mutable.is_subtype_of(&point_read_only, &checker.env));
    // !Point <: &Point (immutable can be passed to read-only parameter)
    assert!(point_immutable.is_subtype_of(&point_read_only, &checker.env));
    // &Point is NOT a subtype of Point (read-only cannot be passed where mutation is required)
    assert!(!point_read_only.is_subtype_of(&point_mutable, &checker.env));
}

#[test]
fn test_exhaustive_match_on_union() {
    let src = r#"
type Shape = int | str

def render(s: Shape) -> int:
    match s:
        case int:
            return 1
"#;
    let module = parse(src).unwrap();
    let mut checker = TypeChecker::new();
    let err = checker.check_module(&module);
    assert!(err.is_err());
    assert!(err.unwrap_err().message.contains("non-exhaustive match"));
}

#[test]
fn test_class_method_attribute_type() {
    let src = r#"
class Circle:
    radius: int

dispatch def area(c: Circle) -> int:
    return c.radius * c.radius
"#;
    let module = parse(src).unwrap();
    let mut checker = TypeChecker::new();
    let res = checker.check_module(&module);
    assert!(res.is_ok(), "{:?}", res);
}

#[test]
fn test_type_specification_pillars() {
    let src = r#"
interface Printable:
    def format() -> str

trait Formatted:
    def format() -> str:
        return "formatted"

class Doc(Formatted, Printable):
    title: str
    factory __init__(cls, title: str):
        return construct(title)
"#;
    let chk = check_source(src);
    assert!(chk.is_ok(), "Type specification pillars should type check cleanly: {:?}", chk.err());
}

#[test]
fn test_traits_single_inheritance_enforcement() {
    let src = r#"
class Base1:
    x: int

class Base2:
    y: int

class Derived(Base1, Base2):
    z: int
"#;
    let chk = check_source(src);
    assert!(chk.is_err(), "Lucid must reject multiple class inheritance");
    assert!(chk.unwrap_err().contains("multiple class parents"));
}

#[test]
fn test_control_flow_match_exhaustiveness() {
    let src = r#"
class Cat:
    name: str
class Dog:
    name: str

type Pet = Cat | Dog

def sound(p: Pet) -> str:
    match p:
        case Cat(n):
            return "meow"
        case Dog(n):
            return "woof"
"#;
    let chk = check_source(src);
    assert!(chk.is_ok(), "Exhaustive match on Pet union should succeed: {:?}", chk.err());
}

#[test]
fn test_parameters_and_spread() {
    let src = r#"
def greet(name: str, greeting: str):
    return greeting + " " + name

kwargs = {"name": "Alice", "greeting": "Hello"}
res = greet(***kwargs)
"#;
    let chk = check_source(src);
    assert!(chk.is_ok());
}

#[test]
fn test_decorators_syntax_and_application() {
    let src = r#"
@my_decorator
def calculate(a: int) -> int:
    return a * 2
"#;
    let chk = check_source(src);
    assert!(chk.is_ok());
}

#[test]
fn test_checks_of_programs_that_also_run() {
    let sources = [
        "interface Describable:\n    def describe() -> str\n\nclass Widget:\n    name: str\n    factory __init__(cls, name: str):\n        return construct(name)\n\nimplement Describable for Widget:\n    def describe() -> str:\n        return self.name\n",
        "type Target = str\nconfig = {\"name\": \"lucid-project\", \"version\": \"1.0\"}\n",
        "export def helper(x: int) -> int:\n    return x + 1\n\nexport class Service:\n    port: int\n    factory __init__(cls, port: int):\n        return construct(port)\n",
        "let final_val = 100\nfinal fixed = 200\nskip_item = skip\nf = def: fixed\n",
    ];
    for src in sources {
        assert!(check_source(src).is_ok(), "{src}");
    }
}

#[test]
fn test_return_type_mismatch_is_reported() {
    let chk = check_source("def f() -> int:\n    return \"text\"\n");
    let msg = chk.unwrap_err();
    assert!(msg.starts_with("type error: return type mismatch: expected Int, got Str"), "{msg}");
}

#[test]
fn test_undefined_variable_is_reported() {
    let chk = check_source("def f() -> int:\n    return missing\n");
    assert_eq!(chk.unwrap_err(), "type error: undefined variable 'missing'");
}

#[test]
fn test_variable_definition_mismatch_is_reported() {
    let chk = check_source("x: int = \"a\"\n");
    assert!(chk.unwrap_err().starts_with("type error: type mismatch in variable definition: declared Int, got Str"));
}

#[test]
fn test_assignment_mismatch_is_reported() {
    let chk = check_source("x = 1\nx = \"a\"\n");
    assert!(chk.unwrap_err().starts_with("type error: cannot assign type Str to variable 'x' of type Int"));
}

#[test]
fn test_reassigning_a_function_is_rejected() {
    let chk = check_source("def f() -> int:\n    return 1\n\nf = 2\n");
    assert_eq!(chk.unwrap_err(), "type error: cannot reassign to read-only or immutable variable 'f'");
}

#[test]
fn test_mutating_a_frozen_value_is_rejected() {
    let chk = check_source("class P:\n    x: int\n\np = P(1)\nq = !p\nq.x = 2\n");
    assert_eq!(chk.unwrap_err(), "type error: cannot mutate attribute 'x' on read-only/immutable view");
}

#[test]
fn test_unhandled_error_propagation_is_reported() {
    let src = "class NotFoundError:\n    code: int\n\ndef load() -> int | NotFoundError:\n    return 1\n\ndef run() -> int:\n    x = load()?\n    return x\n";
    let chk = check_source(src);
    assert!(chk.unwrap_err().starts_with("type error: '?' propagates error type Class { name: \"NotFoundError\""));
}

#[test]
fn test_handled_error_propagation_is_accepted() {
    let src = "class NotFoundError:\n    code: int\n\ndef load() -> int | NotFoundError:\n    return 1\n\ndef run() -> int | NotFoundError:\n    x = load()?\n    return x\n";
    assert!(check_source(src).is_ok());
}

#[test]
fn test_sealed_class_match_must_name_every_subclass() {
    let src = "sealed class Shape:\n    pass\n\nclass Circle(Shape):\n    r: int\n\nclass Square(Shape):\n    s: int\n\ndef area(x: Shape) -> int:\n    match x:\n        case Circle:\n            return 1\n";
    let chk = check_source(src);
    assert!(chk.unwrap_err().starts_with("type error: non-exhaustive match on sealed class 'Shape': uncovered subclasses: [\"Square\"]"));
}

#[test]
fn test_wildcard_arm_makes_a_match_exhaustive() {
    let src = "type Shape = int | str\n\ndef render(s: Shape) -> int:\n    match s:\n        case int:\n            return 1\n        case _:\n            return 2\n";
    assert!(check_source(src).is_ok());
}

#[test]
fn checker_accepts_the_freeze_builtin() {
    let src = "\nclass Point:\n    x: float\n    y: float\n\n    factory __init__(cls, x: float, y: float):\n        return construct(x, y)\n\np = Point(1.0, 2.0)\nfp = freeze(p)\n";
    let module = lucid::parse(src).unwrap();
    let mut checker = lucid::checker::TypeChecker::new();
    assert!(checker.check_module(&module).is_ok());
    let src2 = "\nclass Account:\n    balance: int\n    factory __init__(cls, balance: int):\n        return construct(balance)\n\nacc = Account(100)\nfrozen_acc = freeze(acc)\n";
    let module2 = lucid::parse(src2).unwrap();
    let mut checker2 = lucid::checker::TypeChecker::new();
    assert!(checker2.check_module(&module2).is_ok());
}

#[test]
fn checker_messages_name_the_types_in_full() {
    let module = parse("def f() -> int:\n    return \"s\"\n").unwrap();
    let err = TypeChecker::new().check_module(&module).unwrap_err();
    assert_eq!(err.message, "return type mismatch: expected Int, got Str");
    let module = parse("x: int = \"s\"\n").unwrap();
    let err = TypeChecker::new().check_module(&module).unwrap_err();
    assert_eq!(err.message, "type mismatch in variable definition: declared Int, got Str");
    let module = parse("x = 1\nx = \"s\"\n").unwrap();
    let err = TypeChecker::new().check_module(&module).unwrap_err();
    assert_eq!(err.message, "cannot assign type Str to variable 'x' of type Int");
    let src = "\ntype Shape = int | str\n\ndef render(s: Shape) -> int:\n    match s:\n        case int:\n            return 1\n";
    let err = TypeChecker::new().check_module(&parse(src).unwrap()).unwrap_err();
    assert_eq!(err.message, "non-exhaustive match: uncovered variants: [Str]");
}
