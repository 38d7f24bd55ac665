use vstd::prelude::*;
use crate::ast::{
    BinaryOp, ClassMember, Expr, LiteralValue, MatchArm, MutabilityView, Param, Pattern, Stmt, TypeAliasValue, TypeExpr,
    UnaryOp,
};
use crate::checker::TypeError;
use crate::subtype::subtype;
use crate::token::Span;
use crate::types::{models, quoted_items, texts, type_items, type_text, Type, TypeModel, union_of};

verus! {

/// What the checker knows, as mathematical maps from names.
pub struct EnvModel {
    pub classes: Map<Seq<char>, TypeModel>,
    pub interfaces: Map<Seq<char>, TypeModel>,
    pub traits: Map<Seq<char>, TypeModel>,
    pub type_aliases: Map<Seq<char>, TypeModel>,
    pub functions: Map<Seq<char>, TypeModel>,
    pub variables: Map<Seq<char>, (TypeModel, MutabilityView)>,
    pub sealed_subclasses: Map<Seq<char>, Seq<Seq<char>>>,
    pub current_return_type: Option<TypeModel>,
}

/// One more than the number of declared classes and traits, capped at the
/// largest `usize`: the lookups one subtype question may make.
pub open spec fn fuel_of(em: EnvModel) -> nat {
    let n = em.classes.dom().len() + em.traits.dom().len() + 1;
    if n > usize::MAX {
        usize::MAX as nat
    } else {
        n
    }
}

/// Subtyping in the environment `em`.
pub open spec fn is_sub(em: EnvModel, s: TypeModel, t: TypeModel) -> bool {
    subtype(em.classes, em.traits, s, t, fuel_of(em))
}

/// The ways in which checking can fail, with what each message names.
pub enum Failure {
    MultipleParents { class: Seq<char>, first: Seq<char>, second: Seq<char>, span: Span },
    MultipleInheritance { class: Seq<char>, span: Span },
    ReturnMismatch { expected: TypeModel, got: TypeModel, span: Span },
    VarDefMismatch { declared: TypeModel, got: TypeModel, span: Span },
    ReadOnlyReassign { name: Seq<char>, span: Span },
    AssignMismatch { name: Seq<char>, got: TypeModel, existing: TypeModel, span: Span },
    AttributeOnView { attr: Seq<char>, span: Span },
    NonExhaustive { uncovered: Seq<TypeModel>, span: Span },
    NonExhaustiveSealed { class: Seq<char>, uncovered: Seq<Seq<char>>, span: Span },
    Undefined { name: Seq<char>, span: Span },
    Unpropagated { unhandled: Set<TypeModel>, span: Span },
}

/// Whether the error `e` reports the failure `f`: the same span, and the
/// message of `f`. A type in a message is written as `type_text` writes a
/// type with that model: the order of class fields and method names is the
/// one the checker holds them in.
pub open spec fn reports(e: TypeError, f: Failure) -> bool {
    match f {
        Failure::MultipleParents { class, first, second, span } => e.span == span && e.message@ == "class '"@
            + class + "' has multiple class parents ('"@ + first + "' and '"@ + second
            + "'). Lucid permits at most one class parent."@,
        Failure::MultipleInheritance { class, span } => e.span == span && e.message@ == "class '"@ + class
            + "' inherits from multiple classes. Lucid requires single inheritance for classes (use traits for reusable behavior)."@,
        Failure::ReturnMismatch { expected, got, span } => e.span == span && exists|a: Type, b: Type|
            #![trigger type_text(a), type_text(b)]
            a.model() == expected && b.model() == got && e.message@ == "return type mismatch: expected "@
                + type_text(a) + ", got "@ + type_text(b),
        Failure::VarDefMismatch { declared, got, span } => e.span == span && exists|a: Type, b: Type|
            #![trigger type_text(a), type_text(b)]
            a.model() == declared && b.model() == got && e.message@
                == "type mismatch in variable definition: declared "@ + type_text(a) + ", got "@ + type_text(b),
        Failure::ReadOnlyReassign { name, span } => e.span == span && e.message@
            == "cannot reassign to read-only or immutable variable '"@ + name + "'"@,
        Failure::AssignMismatch { name, got, existing, span } => e.span == span && exists|a: Type, b: Type|
            #![trigger type_text(a), type_text(b)]
            a.model() == got && b.model() == existing && e.message@ == "cannot assign type "@ + type_text(a)
                + " to variable '"@ + name + "' of type "@ + type_text(b),
        Failure::AttributeOnView { attr, span } => e.span == span && e.message@ == "cannot mutate attribute '"@
            + attr + "' on read-only/immutable view"@,
        Failure::NonExhaustive { uncovered, span } => e.span == span && exists|xs: Seq<Type>|
            #![trigger type_items(xs)]
            models(xs) == uncovered && e.message@ == "non-exhaustive match: uncovered variants: "@ + "["@
                + type_items(xs) + "]"@,
        Failure::NonExhaustiveSealed { class, uncovered, span } => e.span == span && exists|us: Seq<String>|
            #![trigger quoted_items(us)]
            texts(us) == uncovered && e.message@ == "non-exhaustive match on sealed class '"@ + class
                + "': uncovered subclasses: "@ + "["@ + quoted_items(us) + "]"@,
        Failure::Undefined { name, span } => e.span == span && e.message@ == "undefined variable '"@ + name
            + "'"@,
        Failure::Unpropagated { unhandled, span } => e.span == span && exists|a: Type|
            #![trigger type_text(a)]
            unhandled.contains(a.model()) && e.message@ == "'?' propagates error type "@ + type_text(a)
                + ", but enclosing function return type does not include it"@,
    }
}

/// A class model with only a name and type arguments.
pub open spec fn plain_class(name: Seq<char>, type_args: Seq<TypeModel>) -> TypeModel {
    TypeModel::Class {
        name,
        type_args,
        parent: None,
        traits: Seq::empty(),
        interfaces: Seq::empty(),
        fields: Map::empty(),
        is_sealed: false,
    }
}

/// A declared class with its type arguments replaced.
pub open spec fn with_type_args(t: TypeModel, args: Seq<TypeModel>) -> TypeModel {
    match t {
        TypeModel::Class { name, parent, traits, interfaces, fields, is_sealed, .. } => TypeModel::Class {
            name,
            type_args: args,
            parent,
            traits,
            interfaces,
            fields,
            is_sealed,
        },
        other => other,
    }
}

/// The type that a type expression denotes: the built-in names, then type
/// aliases, declared classes (with the given arguments), interfaces and
/// traits; an unknown name stands for a class of that name. Function, union
/// and view expressions denote the corresponding types; any other
/// expression denotes `Never`.
pub open spec fn resolve(em: EnvModel, te: TypeExpr) -> TypeModel
    decreases te,
{
    match te {
        TypeExpr::Named { name, args, .. } => {
            let resolved = resolve_all(em, args@);
            let n = name@;
            if n == "int"@ {
                TypeModel::Int
            } else if n == "float"@ {
                TypeModel::Float
            } else if n == "bool"@ {
                TypeModel::Bool
            } else if n == "str"@ {
                TypeModel::Str
            } else if n == "none"@ {
                TypeModel::NoneType
            } else if n == "Never"@ {
                TypeModel::Never
            } else if em.type_aliases.contains_key(n) {
                em.type_aliases[n]
            } else if em.classes.contains_key(n) {
                with_type_args(em.classes[n], resolved)
            } else if em.interfaces.contains_key(n) {
                em.interfaces[n]
            } else if em.traits.contains_key(n) {
                em.traits[n]
            } else {
                plain_class(n, resolved)
            }
        },
        TypeExpr::Function { params, return_type, .. } => TypeModel::Function {
            params: resolve_all(em, params@),
            ret: Box::new(resolve(em, *return_type)),
        },
        TypeExpr::Union { types, .. } => union_of(resolve_all(em, types@)),
        TypeExpr::View { mutability, inner, .. } => TypeModel::View {
            mutability,
            inner: Box::new(resolve(em, *inner)),
        },
        _ => TypeModel::Never,
    }
}

pub open spec fn resolve_all(em: EnvModel, tes: Seq<TypeExpr>) -> Seq<TypeModel>
    decreases tes,
{
    if tes.len() == 0 {
        Seq::empty()
    } else {
        resolve_all(em, tes.drop_last()).push(resolve(em, tes.last()))
    }
}

/// Whether a type is a class whose name ends in "Error".
pub open spec fn is_error_class(t: TypeModel) -> bool {
    match t {
        TypeModel::Class { name, .. } => "Error"@.is_suffix_of(name),
        _ => false,
    }
}

/// The members of `vs` that are not error classes, in order.
pub open spec fn ok_members(vs: Seq<TypeModel>) -> Seq<TypeModel>
    decreases vs.len(),
{
    if vs.len() == 0 {
        Seq::empty()
    } else if is_error_class(vs.last()) {
        ok_members(vs.drop_last())
    } else {
        ok_members(vs.drop_last()).push(vs.last())
    }
}

/// The first error class among `vs` that is not a subtype of `ret`, if any.
pub open spec fn first_unhandled(em: EnvModel, vs: Seq<TypeModel>, ret: TypeModel) -> Option<int> {
    if exists|i: int| 0 <= i < vs.len() && is_error_class(vs[i]) && !is_sub(em, vs[i], ret) {
        Some(choose|i: int| 0 <= i < vs.len() && is_error_class(vs[i]) && !is_sub(em, vs[i], ret))
    } else {
        None
    }
}

/// The error members of a union that the return type `ret` does not take.
pub open spec fn unhandled_errors(em: EnvModel, vs: Seq<TypeModel>, ret: TypeModel) -> Set<TypeModel> {
    Set::new(|v: TypeModel| vs.contains(v) && is_error_class(v) && !is_sub(em, v, ret))
}

/// The type of a field of a class (or of a view of a class), `None` when
/// there is no such field.
pub open spec fn attribute_type(obj: TypeModel, attr: Seq<char>) -> TypeModel {
    match obj {
        TypeModel::Class { fields, .. } => if fields.contains_key(attr) {
            fields[attr]
        } else {
            TypeModel::NoneType
        },
        TypeModel::View { inner, .. } => match *inner {
            TypeModel::Class { fields, .. } => if fields.contains_key(attr) {
                fields[attr]
            } else {
                TypeModel::NoneType
            },
            _ => TypeModel::NoneType,
        },
        _ => TypeModel::NoneType,
    }
}

/// The type of a binary operation on operands of types `lt` and `rt`.
pub open spec fn binary_type(op: BinaryOp, lt: TypeModel, rt: TypeModel) -> TypeModel {
    match op {
        BinaryOp::Add | BinaryOp::Sub | BinaryOp::Mul => {
            if lt == TypeModel::Int && rt == TypeModel::Int {
                TypeModel::Int
            } else if lt == TypeModel::Float || rt == TypeModel::Float {
                TypeModel::Float
            } else {
                lt
            }
        },
        BinaryOp::Eq | BinaryOp::NotEq | BinaryOp::Lt | BinaryOp::LtEq | BinaryOp::Gt | BinaryOp::GtEq
        | BinaryOp::And | BinaryOp::Or => TypeModel::Bool,
        _ => TypeModel::Int,
    }
}

pub open spec fn literal_type(v: LiteralValue) -> TypeModel {
    match v {
        LiteralValue::Int(_) => TypeModel::Int,
        LiteralValue::Float(_) => TypeModel::Float,
        LiteralValue::Bool(_) => TypeModel::Bool,
        LiteralValue::Str(_) => TypeModel::Str,
        LiteralValue::Sentinel(s) => TypeModel::TypeVar(s@),
        _ => TypeModel::NoneType,
    }
}

/// The type of an expression, or why it has none. Subexpressions are typed
/// left to right and the first failure is the answer; the elements of a
/// list are the exception: one that fails counts as `Never`.
pub open spec fn expr_type(em: EnvModel, e: Expr) -> Result<TypeModel, Failure>
    decreases e,
{
    match e {
        Expr::Literal { value, .. } => Ok(literal_type(value)),
        Expr::Ident { name, span } => if em.variables.contains_key(name@) {
            Ok(em.variables[name@].0)
        } else if em.classes.contains_key(name@) {
            Ok(em.classes[name@])
        } else {
            Err(Failure::Undefined { name: name@, span })
        },
        Expr::Binary { op, left, right, .. } => match expr_type(em, *left) {
            Err(f) => Err(f),
            Ok(lt) => match expr_type(em, *right) {
                Err(f) => Err(f),
                Ok(rt) => Ok(binary_type(op, lt, rt)),
            },
        },
        Expr::Unary { op, expr, .. } => match expr_type(em, *expr) {
            Err(f) => Err(f),
            Ok(t) => Ok(
                match op {
                    UnaryOp::Not => TypeModel::Bool,
                    _ => t,
                },
            ),
        },
        Expr::Call { func, .. } => match expr_type(em, *func) {
            Err(f) => Err(f),
            Ok(ft) => Ok(
                match ft {
                    TypeModel::Function { ret, .. } => *ret,
                    TypeModel::Class { .. } => ft,
                    _ => TypeModel::Never,
                },
            ),
        },
        Expr::Propagate { expr, span } => match expr_type(em, *expr) {
            Err(f) => Err(f),
            Ok(TypeModel::Union(vs)) => match em.current_return_type {
                Some(ret) => match first_unhandled(em, vs, ret) {
                    Some(_) => Err(Failure::Unpropagated { unhandled: unhandled_errors(em, vs, ret), span }),
                    None => Ok(union_of(ok_members(vs))),
                },
                None => Ok(union_of(ok_members(vs))),
            },
            Ok(other) => Ok(other),
        },
        Expr::Freeze { expr, .. } => match expr_type(em, *expr) {
            Err(f) => Err(f),
            Ok(t) => Ok(TypeModel::View { mutability: MutabilityView::Immutable, inner: Box::new(t) }),
        },
        Expr::Trust { target_type, .. } => Ok(resolve(em, target_type)),
        Expr::List { elements, .. } => Ok(plain_class("list"@, seq![union_of(element_types(em, elements@))])),
        Expr::Dict { .. } => Ok(plain_class("dict"@, Seq::empty())),
        Expr::Attribute { value, attr, .. } => match expr_type(em, *value) {
            Err(f) => Err(f),
            Ok(obj) => Ok(attribute_type(obj, attr@)),
        },
        _ => Ok(TypeModel::NoneType),
    }
}

/// The types of list elements, with `Never` for an element that has none.
pub open spec fn element_types(em: EnvModel, es: Seq<Expr>) -> Seq<TypeModel>
    decreases es,
{
    if es.len() == 0 {
        Seq::empty()
    } else {
        element_types(em, es.drop_last()).push(
            match expr_type(em, es.last()) {
                Ok(t) => t,
                Err(_) => TypeModel::Never,
            },
        )
    }
}

/// Whether a match arm with pattern `p` covers the union member `v`: a name
/// pattern covers the class of that name and the built-in type of that name,
/// and a class pattern covers the class of its name.
pub open spec fn arm_covers(p: Pattern, v: TypeModel) -> bool {
    match p {
        Pattern::Ident(name, _) => match v {
            TypeModel::Class { name: c, .. } => c == name@,
            TypeModel::Int => name@ == "int"@,
            TypeModel::Float => name@ == "float"@,
            TypeModel::Bool => name@ == "bool"@,
            TypeModel::Str => name@ == "str"@,
            TypeModel::NoneType => name@ == "none"@,
            _ => false,
        },
        Pattern::ClassDestructure { class_name, .. } => match v {
            TypeModel::Class { name: c, .. } => c == class_name@,
            _ => false,
        },
        _ => false,
    }
}

pub open spec fn has_wildcard(arms: Seq<MatchArm>) -> bool {
    exists|i: int| 0 <= i < arms.len() && #[trigger] arms[i].pattern is Wildcard
}

/// Whether some arm covers the union member `v`.
pub open spec fn member_covered(arms: Seq<MatchArm>, v: TypeModel) -> bool {
    exists|i: int| 0 <= i < arms.len() && arm_covers(#[trigger] arms[i].pattern, v)
}

/// Whether `p` is a name pattern for `sub`.
pub open spec fn names(p: Pattern, sub: Seq<char>) -> bool {
    match p {
        Pattern::Ident(n, _) => n@ == sub,
        _ => false,
    }
}

/// The members of a union that no arm covers, in order.
pub open spec fn uncovered_members(arms: Seq<MatchArm>, vs: Seq<TypeModel>) -> Seq<TypeModel>
    decreases vs.len(),
{
    if vs.len() == 0 {
        Seq::empty()
    } else if member_covered(arms, vs.last()) {
        uncovered_members(arms, vs.drop_last())
    } else {
        uncovered_members(arms, vs.drop_last()).push(vs.last())
    }
}

/// The subclasses that no arm names, in order.
pub open spec fn uncovered_subclasses(arms: Seq<MatchArm>, subs: Seq<Seq<char>>) -> Seq<Seq<char>>
    decreases subs.len(),
{
    if subs.len() == 0 {
        Seq::empty()
    } else if subclass_covered(arms, subs.last()) {
        uncovered_subclasses(arms, subs.drop_last())
    } else {
        uncovered_subclasses(arms, subs.drop_last()).push(subs.last())
    }
}

/// Whether some arm is a name pattern for the subclass `sub`.
pub open spec fn subclass_covered(arms: Seq<MatchArm>, sub: Seq<char>) -> bool {
    exists|i: int| 0 <= i < arms.len() && names(#[trigger] arms[i].pattern, sub)
}

/// Whether a match on a value of type `subject` with these arms is
/// exhaustive: an arm with a wildcard covers everything; on a union each
/// member must be covered; on a sealed class each known subclass must be
/// named by an arm; on any other type nothing is asked.
pub open spec fn exhaustive(em: EnvModel, subject: TypeModel, arms: Seq<MatchArm>, span: Span) -> Result<(), Failure> {
    if has_wildcard(arms) {
        Ok(())
    } else {
        match subject {
            TypeModel::Union(vs) => if forall|i: int| 0 <= i < vs.len() ==> member_covered(arms, #[trigger] vs[i]) {
                Ok(())
            } else {
                Err(Failure::NonExhaustive { uncovered: uncovered_members(arms, vs), span })
            },
            TypeModel::Class { name, is_sealed, .. } => if is_sealed && em.sealed_subclasses.contains_key(name)
                && exists|i: int| 0 <= i < em.sealed_subclasses[name].len() && !subclass_covered(
                arms,
                #[trigger] em.sealed_subclasses[name][i],
            ) {
                Err(Failure::NonExhaustiveSealed { class: name, uncovered: uncovered_subclasses(arms, em.sealed_subclasses[name]), span })
            } else {
                Ok(())
            },
            _ => Ok(()),
        }
    }
}

/// The parent, traits and interfaces that the bases of class `class` name,
/// in order: a declared class is the parent (a second one fails), a declared
/// interface or an unknown name is an interface, a declared trait is a trait.
pub open spec fn classify_bases(em: EnvModel, class: Seq<char>, bases: Seq<TypeExpr>, span: Span) -> Result<
    (Option<Seq<char>>, Seq<Seq<char>>, Seq<Seq<char>>),
    Failure,
>
    decreases bases.len(),
{
    if bases.len() == 0 {
        Ok((None, Seq::empty(), Seq::empty()))
    } else {
        match classify_bases(em, class, bases.drop_last(), span) {
            Err(f) => Err(f),
            Ok((parent, traits, interfaces)) => match bases.last() {
                TypeExpr::Named { name, .. } => {
                    let b = name@;
                    if em.classes.contains_key(b) {
                        match parent {
                            Some(p) => Err(Failure::MultipleParents { class, first: p, second: b, span }),
                            None => Ok((Some(b), traits, interfaces)),
                        }
                    } else if em.interfaces.contains_key(b) {
                        Ok((parent, traits, interfaces.push(b)))
                    } else if em.traits.contains_key(b) {
                        Ok((parent, traits.push(b), interfaces))
                    } else {
                        Ok((parent, traits, interfaces.push(b)))
                    }
                },
                _ => Ok((parent, traits, interfaces)),
            },
        }
    }
}

/// The declared fields of a class body, later declarations overriding
/// earlier ones.
pub open spec fn class_fields(em: EnvModel, body: Seq<ClassMember>) -> Map<Seq<char>, TypeModel>
    decreases body.len(),
{
    if body.len() == 0 {
        Map::empty()
    } else {
        let m = class_fields(em, body.drop_last());
        match body.last() {
            ClassMember::Field(f) => m.insert(f.name@, resolve(em, f.type_annotation)),
            _ => m,
        }
    }
}

/// The subclass lists with `sub` added at the end of the list of `parent`.
pub open spec fn add_subclass(sealed: Map<Seq<char>, Seq<Seq<char>>>, parent: Seq<char>, sub: Seq<char>) -> Map<
    Seq<char>,
    Seq<Seq<char>>,
> {
    let known = if sealed.contains_key(parent) {
        sealed[parent]
    } else {
        Seq::empty()
    };
    sealed.insert(parent, known.push(sub))
}

pub open spec fn param_type(em: EnvModel, p: Param) -> TypeModel {
    match p.type_annotation {
        Some(t) => resolve(em, t),
        None => TypeModel::TypeVar("Any"@),
    }
}

pub open spec fn param_types(em: EnvModel, params: Seq<Param>) -> Seq<TypeModel> {
    params.map_values(|p: Param| param_type(em, p))
}

/// The first pass over a statement: what it declares is entered in the
/// environment. A class is entered with its parent, traits, interfaces and
/// fields (and as a subclass of its parent); an interface or trait with no
/// type arguments and no methods; a direct type alias with the type it
/// names; a function with its type, also as an immutable variable.
pub open spec fn collect(em: EnvModel, s: Stmt) -> Result<EnvModel, Failure>
    decreases s,
{
    match s {
        Stmt::Export(inner) => collect(em, *inner),
        Stmt::ClassDef { name, bases, body, is_sealed, span, .. } => match classify_bases(em, name@, bases@, span) {
            Err(f) => Err(f),
            Ok((parent, traits, interfaces)) => {
                let class_type = TypeModel::Class {
                    name: name@,
                    type_args: Seq::empty(),
                    parent,
                    traits,
                    interfaces,
                    fields: class_fields(em, body@),
                    is_sealed,
                };
                let sealed = match parent {
                    Some(p) => add_subclass(em.sealed_subclasses, p, name@),
                    None => em.sealed_subclasses,
                };
                Ok(EnvModel { classes: em.classes.insert(name@, class_type), sealed_subclasses: sealed, ..em })
            },
        },
        Stmt::InterfaceDef { name, .. } => Ok(
            EnvModel {
                interfaces: em.interfaces.insert(
                    name@,
                    TypeModel::Interface { name: name@, type_args: Seq::empty(), methods: Set::empty() },
                ),
                ..em
            },
        ),
        Stmt::TraitDef { name, .. } => Ok(
            EnvModel {
                traits: em.traits.insert(
                    name@,
                    TypeModel::Trait { name: name@, type_args: Seq::empty(), methods: Set::empty() },
                ),
                ..em
            },
        ),
        Stmt::TypeAlias { name, value, .. } => match value {
            TypeAliasValue::Direct(t) => Ok(
                EnvModel { type_aliases: em.type_aliases.insert(name@, resolve(em, t)), ..em },
            ),
            _ => Ok(em),
        },
        Stmt::Function(func) => {
            let ret = match func.return_type {
                Some(r) => resolve(em, r),
                None => TypeModel::NoneType,
            };
            let fn_type = TypeModel::Function {
                params: param_types(em, func.params@),
                ret: Box::new(ret),
            };
            Ok(
                EnvModel {
                    functions: em.functions.insert(func.name@, fn_type),
                    variables: em.variables.insert(func.name@, (fn_type, MutabilityView::Immutable)),
                    ..em
                },
            )
        },
        _ => Ok(em),
    }
}

/// How many bases name a declared class.
pub open spec fn class_parent_count(em: EnvModel, bases: Seq<TypeExpr>) -> nat
    decreases bases.len(),
{
    if bases.len() == 0 {
        0
    } else {
        class_parent_count(em, bases.drop_last()) + match bases.last() {
            TypeExpr::Named { name, .. } => if em.classes.contains_key(name@) {
                1nat
            } else {
                0nat
            },
            _ => 0nat,
        }
    }
}

/// The second pass over a statement: a class may have at most one class
/// parent.
pub open spec fn verify_structure(em: EnvModel, s: Stmt) -> Result<(), Failure>
    decreases s,
{
    match s {
        Stmt::Export(inner) => verify_structure(em, *inner),
        Stmt::ClassDef { name, bases, span, .. } => if class_parent_count(em, bases@) > 1 {
            Err(Failure::MultipleInheritance { class: name@, span })
        } else {
            Ok(())
        },
        _ => Ok(()),
    }
}

/// The environment with the variables replaced.
pub open spec fn with_variables(em: EnvModel, vars: Map<Seq<char>, (TypeModel, MutabilityView)>) -> EnvModel {
    EnvModel { variables: vars, ..em }
}

/// The environment in which a function body is checked: its parameters
/// are mutable variables, and the declared return type (if any) is the one
/// that `return` statements are held to.
pub open spec fn function_scope(em: EnvModel, params: Seq<Param>, ret: Option<TypeModel>) -> EnvModel
    decreases params.len(),
{
    if params.len() == 0 {
        EnvModel { current_return_type: ret, ..em }
    } else {
        let inner = function_scope(em, params.drop_last(), ret);
        with_variables(
            inner,
            inner.variables.insert(params.last().name@, (param_type(em, params.last()), MutabilityView::Mutable)),
        )
    }
}

/// The element type of a `for` loop over a value of type `t`.
pub open spec fn element_type(t: TypeModel) -> TypeModel {
    match t {
        TypeModel::Class { name, type_args, .. } => if name == "list"@ && type_args.len() > 0 {
            type_args[0]
        } else {
            TypeModel::TypeVar("Any"@)
        },
        _ => TypeModel::TypeVar("Any"@),
    }
}

/// The third pass over a statement: the environment after it, or why it
/// is ill-typed.
pub open spec fn check_stmt(em: EnvModel, s: Stmt) -> Result<EnvModel, Failure>
    decreases s,
{
    match s {
        Stmt::Export(inner) => check_stmt(em, *inner),
        Stmt::Function(func) => {
            let ret = match func.return_type {
                Some(r) => Some(resolve(em, r)),
                None => None,
            };
            match check_block(function_scope(em, func.params@, ret), func.body@) {
                Err(f) => Err(f),
                Ok(after) => Ok(
                    EnvModel {
                        variables: em.variables,
                        current_return_type: em.current_return_type,
                        ..after
                    },
                ),
            }
        },
        Stmt::Return { value, span } => {
            let vt = match value {
                Some(e) => expr_type(em, e),
                None => Ok(TypeModel::NoneType),
            };
            match vt {
                Err(f) => Err(f),
                Ok(t) => match em.current_return_type {
                    Some(expected) => if is_sub(em, t, expected) {
                        Ok(em)
                    } else {
                        Err(Failure::ReturnMismatch { expected, got: t, span })
                    },
                    None => Ok(em),
                },
            }
        },
        Stmt::VarDef { pattern, type_annotation, value, span, .. } => {
            let inferred = match value {
                Some(e) => match expr_type(em, e) {
                    Err(f) => Err(f),
                    Ok(t) => Ok(Some(t)),
                },
                None => Ok(None),
            };
            match inferred {
                Err(f) => Err(f),
                Ok(iv) => {
                    let target = match type_annotation {
                        Some(t) => {
                            let declared = resolve(em, t);
                            match iv {
                                Some(v) => if is_sub(em, v, declared) {
                                    Ok(declared)
                                } else {
                                    Err(Failure::VarDefMismatch { declared, got: v, span })
                                },
                                None => Ok(declared),
                            }
                        },
                        None => match iv {
                            Some(v) => Ok(v),
                            None => Ok(TypeModel::NoneType),
                        },
                    };
                    match target {
                        Err(f) => Err(f),
                        Ok(t) => match pattern {
                            Pattern::Ident(name, _) => Ok(
                                with_variables(em, em.variables.insert(name@, (t, MutabilityView::Mutable))),
                            ),
                            _ => Ok(em),
                        },
                    }
                },
            }
        },
        Stmt::Assignment { target, value, span } => match expr_type(em, value) {
            Err(f) => Err(f),
            Ok(vt) => match target {
                Expr::Ident { name, .. } => if em.variables.contains_key(name@) {
                    let (existing, view) = em.variables[name@];
                    if view == MutabilityView::ReadOnly || view == MutabilityView::Immutable {
                        Err(Failure::ReadOnlyReassign { name: name@, span })
                    } else if !is_sub(em, vt, existing) {
                        Err(Failure::AssignMismatch { name: name@, got: vt, existing, span })
                    } else {
                        Ok(em)
                    }
                } else {
                    Ok(with_variables(em, em.variables.insert(name@, (vt, MutabilityView::Mutable))))
                },
                Expr::Attribute { value: obj, attr, .. } => match expr_type(em, *obj) {
                    Err(f) => Err(f),
                    Ok(TypeModel::View { mutability, .. }) => if mutability == MutabilityView::ReadOnly
                        || mutability == MutabilityView::Immutable {
                        Err(Failure::AttributeOnView { attr: attr@, span })
                    } else {
                        Ok(em)
                    },
                    Ok(_) => Ok(em),
                },
                _ => Ok(em),
            },
        },
        Stmt::Match { subject, arms, span, .. } => match expr_type(em, subject) {
            Err(f) => Err(f),
            Ok(st) => match exhaustive(em, st, arms@, span) {
                Err(f) => Err(f),
                Ok(_) => check_arms(em, arms@),
            },
        },
        Stmt::If { condition, then_branch, elif_branches, else_branch, .. } => match expr_type(em, condition) {
            Err(f) => Err(f),
            Ok(_) => match check_block(em, then_branch@) {
                Err(f) => Err(f),
                Ok(e1) => match check_elifs(e1, elif_branches@) {
                    Err(f) => Err(f),
                    Ok(e2) => match else_branch {
                        Some(b) => check_block(e2, b@),
                        None => Ok(e2),
                    },
                },
            },
        },
        Stmt::For { target, iterable, body, if_broken, .. } => match expr_type(em, iterable) {
            Err(f) => Err(f),
            Ok(it) => {
                let inner = match target {
                    Pattern::Ident(name, _) => with_variables(
                        em,
                        em.variables.insert(name@, (element_type(it), MutabilityView::Mutable)),
                    ),
                    _ => em,
                };
                match check_block(inner, body@) {
                    Err(f) => Err(f),
                    Ok(after) => {
                        let restored = with_variables(after, em.variables);
                        match if_broken {
                            Some(b) => check_block(restored, b@),
                            None => Ok(restored),
                        }
                    },
                }
            },
        },
        Stmt::While { condition, body, if_broken, .. } => match expr_type(em, condition) {
            Err(f) => Err(f),
            Ok(_) => match check_block(em, body@) {
                Err(f) => Err(f),
                Ok(e1) => match if_broken {
                    Some(b) => check_block(e1, b@),
                    None => Ok(e1),
                },
            },
        },
        _ => Ok(em),
    }
}

/// Checks statements in order, each in the environment the previous left.
pub open spec fn check_block(em: EnvModel, ss: Seq<Stmt>) -> Result<EnvModel, Failure>
    decreases ss,
{
    if ss.len() == 0 {
        Ok(em)
    } else {
        match check_block(em, ss.drop_last()) {
            Err(f) => Err(f),
            Ok(e1) => check_stmt(e1, ss.last()),
        }
    }
}

pub open spec fn check_elifs(em: EnvModel, elifs: Seq<(Expr, Vec<Stmt>)>) -> Result<EnvModel, Failure>
    decreases elifs,
{
    if elifs.len() == 0 {
        Ok(em)
    } else {
        match check_elifs(em, elifs.drop_last()) {
            Err(f) => Err(f),
            Ok(e1) => match expr_type(e1, elifs.last().0) {
                Err(f) => Err(f),
                Ok(_) => check_block(e1, elifs.last().1@),
            },
        }
    }
}

pub open spec fn check_arms(em: EnvModel, arms: Seq<MatchArm>) -> Result<EnvModel, Failure>
    decreases arms,
{
    if arms.len() == 0 {
        Ok(em)
    } else {
        match check_arms(em, arms.drop_last()) {
            Err(f) => Err(f),
            Ok(e1) => check_block(e1, arms.last().body@),
        }
    }
}

pub open spec fn collect_all(em: EnvModel, ss: Seq<Stmt>) -> Result<EnvModel, Failure>
    decreases ss.len(),
{
    if ss.len() == 0 {
        Ok(em)
    } else {
        match collect_all(em, ss.drop_last()) {
            Err(f) => Err(f),
            Ok(e1) => collect(e1, ss.last()),
        }
    }
}

pub open spec fn verify_all(em: EnvModel, ss: Seq<Stmt>) -> Result<(), Failure>
    decreases ss.len(),
{
    if ss.len() == 0 {
        Ok(())
    } else {
        match verify_all(em, ss.drop_last()) {
            Err(f) => Err(f),
            Ok(_) => verify_structure(em, ss.last()),
        }
    }
}

/// Checking a module: all declarations are collected first, then the class
/// structure is verified, then every statement is checked.
pub open spec fn check_module_spec(em: EnvModel, ss: Seq<Stmt>) -> Result<EnvModel, Failure> {
    match collect_all(em, ss) {
        Err(f) => Err(f),
        Ok(e1) => match verify_all(e1, ss) {
            Err(f) => Err(f),
            Ok(_) => check_block(e1, ss),
        },
    }
}

proof fn lemma_parent_set(em: EnvModel, class: Seq<char>, bases: Seq<TypeExpr>, span: Span, i: int, k: int)
    requires
        0 <= i < k <= bases.len(),
        bases[i] is Named,
        em.classes.contains_key(bases[i]->Named_name@),
    ensures
        match classify_bases(em, class, bases.take(k), span) {
            Ok((parent, _, _)) => parent is Some,
            Err(_) => true,
        },
    decreases k - i,
{
    let t = bases.take(k);
    assert(t.drop_last() =~= bases.take(k - 1));
    assert(t.last() == bases[k - 1]);
    if k - 1 > i {
        lemma_parent_set(em, class, bases, span, i, k - 1);
    }
}

proof fn lemma_classify_err_stays(em: EnvModel, class: Seq<char>, bases: Seq<TypeExpr>, span: Span, k: int)
    requires
        0 <= k <= bases.len(),
        classify_bases(em, class, bases.take(k), span) is Err,
    ensures
        classify_bases(em, class, bases, span) is Err,
    decreases bases.len() - k,
{
    if k < bases.len() {
        assert(bases.take(k + 1).drop_last() =~= bases.take(k));
        lemma_classify_err_stays(em, class, bases, span, k + 1);
    } else {
        assert(bases.take(k) =~= bases);
    }
}

/// Single inheritance: a class whose bases name two declared classes is
/// rejected when it is declared.
pub proof fn law_single_inheritance(em: EnvModel, s: Stmt, i: int, j: int)
    requires
        s is ClassDef,
        0 <= i < j < s->ClassDef_bases@.len(),
        s->ClassDef_bases@[i] is Named,
        s->ClassDef_bases@[j] is Named,
        em.classes.contains_key(s->ClassDef_bases@[i]->Named_name@),
        em.classes.contains_key(s->ClassDef_bases@[j]->Named_name@),
    ensures
        collect(em, s) matches Err(Failure::MultipleParents { .. }),
{
    let bases = s->ClassDef_bases@;
    let class = s->ClassDef_name@;
    let span = s->ClassDef_span;
    lemma_parent_set(em, class, bases, span, i, j);
    let t = bases.take(j + 1);
    assert(t.drop_last() =~= bases.take(j));
    assert(t.last() == bases[j]);
    assert(classify_bases(em, class, t, span) is Err);
    lemma_classify_err_stays(em, class, bases, span, j + 1);
    lemma_classify_failure_kind(em, class, bases, span);
}

proof fn lemma_classify_failure_kind(em: EnvModel, class: Seq<char>, bases: Seq<TypeExpr>, span: Span)
    ensures
        classify_bases(em, class, bases, span) is Err ==> classify_bases(em, class, bases, span) matches Err(
            Failure::MultipleParents { .. },
        ),
    decreases bases.len(),
{
    if bases.len() > 0 {
        lemma_classify_failure_kind(em, class, bases.drop_last(), span);
    }
}

/// A match with a wildcard arm is exhaustive, whatever it matches on.
pub proof fn law_wildcard_is_exhaustive(em: EnvModel, subject: TypeModel, arms: Seq<MatchArm>, span: Span)
    requires
        has_wildcard(arms),
    ensures
        exhaustive(em, subject, arms, span) is Ok,
{
}

/// A match on a union without a wildcard arm is rejected when some member
/// of the union is covered by no arm.
pub proof fn law_uncovered_member_rejected(
    em: EnvModel,
    members: Seq<TypeModel>,
    arms: Seq<MatchArm>,
    span: Span,
    i: int,
)
    requires
        !has_wildcard(arms),
        0 <= i < members.len(),
        !member_covered(arms, members[i]),
    ensures
        exhaustive(em, TypeModel::Union(members), arms, span) == Err::<(), Failure>(
            Failure::NonExhaustive { uncovered: uncovered_members(arms, members), span },
        ),
{
    assert(!member_covered(arms, TypeModel::Union(members)->Union_0[i]));
}

/// Arithmetic on numbers: `+`, `-` and `*` of two `int`s give an `int`;
/// with a `float` on either side (and not two `int`s) they give a `float`,
/// so `int op float` and `float op int` are both `float`.
pub proof fn law_mixed_arithmetic_is_float(
    em: EnvModel,
    op: BinaryOp,
    left: Expr,
    right: Expr,
    span: Span,
    lt: TypeModel,
    rt: TypeModel,
)
    requires
        op is Add || op is Sub || op is Mul,
        expr_type(em, left) == Ok::<TypeModel, Failure>(lt),
        expr_type(em, right) == Ok::<TypeModel, Failure>(rt),
    ensures
        lt == TypeModel::Int && rt == TypeModel::Int ==> expr_type(
            em,
            Expr::Binary { op, left: Box::new(left), right: Box::new(right), span },
        ) == Ok::<TypeModel, Failure>(TypeModel::Int),
        (lt == TypeModel::Float || rt == TypeModel::Float) && !(lt == TypeModel::Int && rt == TypeModel::Int)
            ==> expr_type(em, Expr::Binary { op, left: Box::new(left), right: Box::new(right), span })
            == Ok::<TypeModel, Failure>(TypeModel::Float),
{
}

/// A match on a union whose every member is a class that some arm names,
/// by a name pattern (`case N:`) or a class pattern (`case N(..):`), is
/// exhaustive.
pub proof fn law_named_classes_cover_union(em: EnvModel, members: Seq<TypeModel>, arms: Seq<MatchArm>, span: Span)
    requires
        forall|k: int|
            0 <= k < members.len() ==> (#[trigger] members[k]) is Class && exists|i: int|
                #![trigger arms[i]]
                0 <= i < arms.len() && ((arms[i].pattern matches Pattern::Ident(n, _) && n@ == members[k]->Class_name)
                    || (arms[i].pattern matches Pattern::ClassDestructure { class_name, .. } && class_name@
                    == members[k]->Class_name)),
    ensures
        exhaustive(em, TypeModel::Union(members), arms, span) is Ok,
{
    assert forall|k: int| 0 <= k < members.len() implies member_covered(arms, #[trigger] members[k]) by {
        let i = choose|i: int|
            #![trigger arms[i]]
            0 <= i < arms.len() && ((arms[i].pattern matches Pattern::Ident(n, _) && n@ == members[k]->Class_name)
                || (arms[i].pattern matches Pattern::ClassDestructure { class_name, .. } && class_name@
                == members[k]->Class_name));
        assert(arm_covers(arms[i].pattern, members[k]));
    }
}

/// Comparisons and logical operations give a `bool`; the other operations
/// that are not `+`, `-` or `*` (division, remainder, powers, bit
/// operations, membership and identity tests) give an `int`, whatever their
/// operands' types.
pub proof fn law_operation_result_types(
    em: EnvModel,
    op: BinaryOp,
    left: Expr,
    right: Expr,
    span: Span,
    lt: TypeModel,
    rt: TypeModel,
)
    requires
        expr_type(em, left) == Ok::<TypeModel, Failure>(lt),
        expr_type(em, right) == Ok::<TypeModel, Failure>(rt),
    ensures
        (op is Eq || op is NotEq || op is Lt || op is LtEq || op is Gt || op is GtEq || op is And || op is Or)
            ==> expr_type(em, Expr::Binary { op, left: Box::new(left), right: Box::new(right), span })
            == Ok::<TypeModel, Failure>(TypeModel::Bool),
        (op is Div || op is FloorDiv || op is Mod || op is Pow || op is BitAnd || op is BitOr || op is BitXor
            || op is Shl || op is Shr) ==> expr_type(
            em,
            Expr::Binary { op, left: Box::new(left), right: Box::new(right), span },
        ) == Ok::<TypeModel, Failure>(TypeModel::Int),
        (op is Add || op is Sub || op is Mul) && lt != TypeModel::Float && rt != TypeModel::Float && !(lt
            == TypeModel::Int && rt == TypeModel::Int) ==> expr_type(
            em,
            Expr::Binary { op, left: Box::new(left), right: Box::new(right), span },
        ) == Ok::<TypeModel, Failure>(lt),
{
}

/// The name of a built-in type, as a pattern writes it.
pub open spec fn builtin_type_name(t: TypeModel) -> Option<Seq<char>> {
    match t {
        TypeModel::Int => Some("int"@),
        TypeModel::Float => Some("float"@),
        TypeModel::Bool => Some("bool"@),
        TypeModel::Str => Some("str"@),
        TypeModel::NoneType => Some("none"@),
        _ => None,
    }
}

/// The built-in type names as patterns cover the built-in types: a match on
/// a union of `int`, `float`, `bool`, `str` and `none` whose every member is
/// named by an arm (`case int:` and so on) is exhaustive.
pub proof fn law_builtin_names_cover_union(em: EnvModel, members: Seq<TypeModel>, arms: Seq<MatchArm>, span: Span)
    requires
        forall|k: int|
            #![trigger members[k]]
            0 <= k < members.len() ==> builtin_type_name(members[k]) is Some && exists|i: int|
                #![trigger arms[i]]
                0 <= i < arms.len() && arms[i].pattern is Ident && arms[i].pattern->Ident_0@ == builtin_type_name(
                    members[k],
                )->Some_0,
    ensures
        exhaustive(em, TypeModel::Union(members), arms, span) is Ok,
{
    assert forall|k: int| 0 <= k < members.len() implies member_covered(arms, #[trigger] members[k]) by {
        let i = choose|i: int|
            #![trigger arms[i]]
            0 <= i < arms.len() && arms[i].pattern is Ident && arms[i].pattern->Ident_0@ == builtin_type_name(
                members[k],
            )->Some_0;
        assert(arm_covers(arms[i].pattern, members[k]));
    }
}

} // verus!
