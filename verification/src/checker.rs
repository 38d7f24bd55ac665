use vstd::prelude::*;
use crate::ast::MutabilityView;
use crate::table::Table;
use crate::token::Span;
use crate::ast::{
    BinaryOp, ClassMember, Expr, LiteralValue, MatchArm, Module, Param, Pattern, Stmt, TypeAliasValue, TypeExpr,
    UnaryOp,
};
use crate::semantics::{
    EnvModel, Failure, add_subclass, arm_covers, binary_type, class_fields, class_parent_count, classify_bases,
    collect, element_types, exhaustive, expr_type, first_unhandled, fuel_of, has_wildcard, is_error_class, is_sub,
    literal_type, member_covered, names, ok_members, param_type, param_types, plain_class, reports, resolve,
    resolve_all, subclass_covered, verify_structure, check_stmt, check_block, check_elifs, check_arms, collect_all,
    verify_all, check_module_spec, function_scope, with_variables, element_type, uncovered_members,
    uncovered_subclasses, unhandled_errors,
};
use crate::table::{entries_map, lemma_entries_map_take, str_equal};
use crate::types::{Type, TypeModel, lemma_models, models, quoted_items, texts, type_items, type_text};

verus! {

/// A type error with the place in the source where it was found.
#[derive(Debug)]
pub struct TypeError {
    pub message: String,
    pub span: Span,
}

/// Everything the checker knows by name: declared classes, interfaces,
/// traits, aliases and functions, the variables in scope with their views,
/// the direct subclasses of each class, and the declared return type of
/// the function being checked.
pub struct TypeEnvironment {
    pub classes: Table<Type>,
    pub interfaces: Table<Type>,
    pub traits: Table<Type>,
    pub type_aliases: Table<Type>,
    pub functions: Table<Type>,
    pub variables: Table<(Type, MutabilityView)>,
    pub sealed_subclasses: Table<Vec<String>>,
    pub current_return_type: Option<Type>,
}

/// Variables with the models of their types.
pub open spec fn variables_model(vars: Map<Seq<char>, (Type, MutabilityView)>) -> Map<
    Seq<char>,
    (TypeModel, MutabilityView),
> {
    vars.map_values(|p: (Type, MutabilityView)| (p.0.model(), p.1))
}

impl TypeEnvironment {
    pub open spec fn wf(&self) -> bool {
        &&& self.classes.wf()
        &&& self.interfaces.wf()
        &&& self.traits.wf()
        &&& self.type_aliases.wf()
        &&& self.functions.wf()
        &&& self.variables.wf()
        &&& self.sealed_subclasses.wf()
    }

    pub open spec fn class_models(&self) -> Map<Seq<char>, TypeModel> {
        self.classes.view().map_values(|t: Type| t.model())
    }

    pub open spec fn trait_models(&self) -> Map<Seq<char>, TypeModel> {
        self.traits.view().map_values(|t: Type| t.model())
    }

    /// How many class and trait lookups one subtype question may make: one
    /// more than the number of declared classes and traits (capped at the
    /// largest `usize`). A chain of lookups longer than that would revisit a
    /// name, which only a cyclic hierarchy allows.
    pub open spec fn lookup_fuel(&self) -> nat {
        let n = self.classes.entry_seq().len() + self.traits.entry_seq().len() + 1;
        if n > usize::MAX {
            usize::MAX as nat
        } else {
            n
        }
    }

    /// The environment as maps from names to type models.
    pub open spec fn model(&self) -> EnvModel {
        EnvModel {
            classes: self.class_models(),
            interfaces: self.interfaces.view().map_values(|t: Type| t.model()),
            traits: self.trait_models(),
            type_aliases: self.type_aliases.view().map_values(|t: Type| t.model()),
            functions: self.functions.view().map_values(|t: Type| t.model()),
            variables: variables_model(self.variables.view()),
            sealed_subclasses: self.sealed_subclasses.view().map_values(|v: Vec<String>| texts(v@)),
            current_return_type: match self.current_return_type {
                Some(t) => Some(t.model()),
                None => None,
            },
        }
    }

    pub proof fn lemma_fuel(&self)
        requires
            self.wf(),
        ensures
            self.lookup_fuel() == fuel_of(self.model()),
    {
        self.classes.lemma_len();
        self.traits.lemma_len();
        assert(self.classes.view().map_values(|t: Type| t.model()).dom() =~= self.classes.view().dom());
        assert(self.traits.view().map_values(|t: Type| t.model()).dom() =~= self.traits.view().dom());
    }

    /// An environment with no names in it.
    pub fn new() -> (e: Self)
        ensures
            e.wf(),
            e.classes.view().is_empty(),
            e.interfaces.view().is_empty(),
            e.traits.view().is_empty(),
            e.type_aliases.view().is_empty(),
            e.functions.view().is_empty(),
            e.variables.view().is_empty(),
            e.sealed_subclasses.view().is_empty(),
            e.current_return_type is None,
    {
        TypeEnvironment {
            classes: Table::new(),
            interfaces: Table::new(),
            traits: Table::new(),
            type_aliases: Table::new(),
            functions: Table::new(),
            variables: Table::new(),
            sealed_subclasses: Table::new(),
            current_return_type: None,
        }
    }
}

fn copy_mutability(m: &MutabilityView) -> (r: MutabilityView)
    ensures
        r == *m,
{
    match m {
        MutabilityView::Mutable => MutabilityView::Mutable,
        MutabilityView::ReadOnly => MutabilityView::ReadOnly,
        MutabilityView::Immutable => MutabilityView::Immutable,
    }
}

/// A copy of a table of variables, with the same names, views and type models.
pub fn copy_variables(vars: &Table<(Type, MutabilityView)>) -> (r: Table<(Type, MutabilityView)>)
    requires
        vars.wf(),
    ensures
        r.wf(),
        variables_model(r.view()) == variables_model(vars.view()),
{
    let mut out: Table<(Type, MutabilityView)> = Table::new();
    let ghost src = vars.entry_seq();
    let mut i: usize = 0;
    proof {
        assert(src.take(0) =~= Seq::<(String, (Type, MutabilityView))>::empty());
        assert(variables_model(out.view()) =~= variables_model(entries_map(src.take(0))));
    }
    while i < vars.len()
        invariant
            vars.wf(),
            src == vars.entry_seq(),
            i <= src.len(),
            out.wf(),
            variables_model(out.view()) == variables_model(entries_map(src.take(i as int))),
        decreases src.len() - i,
    {
        let (k, v) = vars.entry(i);
        let copy = (v.0.duplicate(), copy_mutability(&v.1));
        let ghost before = out.view();
        out.insert(k.clone(), copy);
        proof {
            lemma_entries_map_take(src, i as int);
            let m1 = entries_map(src.take(i + 1));
            let m0 = entries_map(src.take(i as int));
            assert(out.view() == before.insert(src[i as int].0@, copy));
            assert(m1 == m0.insert(src[i as int].0@, src[i as int].1));
            assert forall|x: Seq<char>| #[trigger] variables_model(out.view()).contains_key(x) <==> variables_model(m1).contains_key(x) by {
                assert(variables_model(before).contains_key(x) == variables_model(m0).contains_key(x));
            }
            assert forall|x: Seq<char>| #[trigger] variables_model(out.view()).contains_key(x) implies variables_model(out.view())[x] == variables_model(m1)[x] by {
                if x != src[i as int].0@ {
                    assert(variables_model(before)[x] == variables_model(m0)[x]);
                }
            }
            assert(variables_model(out.view()) =~= variables_model(m1));
        }
        i = i + 1;
    }
    proof {
        assert(src.take(src.len() as int) =~= src);
    }
    out
}

/// The type checker: its environment grows as declarations are met.
pub struct TypeChecker {
    pub env: TypeEnvironment,
}

/// The environment of a new checker: the built-in types are registered as
/// classes under their names.
pub open spec fn initial_env() -> EnvModel {
    EnvModel {
        classes: Map::empty().insert("int"@, TypeModel::Int).insert("float"@, TypeModel::Float).insert(
            "bool"@,
            TypeModel::Bool,
        ).insert("str"@, TypeModel::Str).insert("none"@, TypeModel::NoneType),
        interfaces: Map::empty(),
        traits: Map::empty(),
        type_aliases: Map::empty(),
        functions: Map::empty(),
        variables: Map::empty().insert("freeze"@, (freeze_type(), MutabilityView::Immutable)),
        sealed_subclasses: Map::empty(),
        current_return_type: None,
    }
}

/// The type of the builtin `freeze`: it takes a value of any type `T` and
/// gives its deeply immutable view `!T`.
pub open spec fn freeze_type() -> TypeModel {
    TypeModel::Function {
        params: seq![TypeModel::TypeVar("T"@)],
        ret: Box::new(TypeModel::View { mutability: MutabilityView::Immutable, inner: Box::new(TypeModel::TypeVar("T"@)) }),
    }
}

impl TypeChecker {
    pub fn new() -> (c: Self)
        ensures
            c.env.wf(),
            c.env.model() == initial_env(),
    {
        let mut env = TypeEnvironment::new();
        env.classes.insert(String::from_str("int"), Type::Int);
        env.classes.insert(String::from_str("float"), Type::Float);
        env.classes.insert(String::from_str("bool"), Type::Bool);
        env.classes.insert(String::from_str("str"), Type::Str);
        env.classes.insert(String::from_str("none"), Type::NoneType);
        let mut params: Vec<Type> = Vec::new();
        params.push(Type::TypeVar(String::from_str("T")));
        let ret = Type::View { mutability: MutabilityView::Immutable, inner: Box::new(Type::TypeVar(String::from_str("T"))) };
        proof {
            reveal_with_fuel(models, 2);
            assert(models(params@) =~= seq![TypeModel::TypeVar("T"@)]);
        }
        let freeze = Type::Function { params, return_type: Box::new(ret) };
        proof {
            reveal_with_fuel(Type::model, 3);
            assert(ret.model() == TypeModel::View {
                mutability: MutabilityView::Immutable,
                inner: Box::new(TypeModel::TypeVar("T"@)),
            });
            assert(freeze.model() == freeze_type());
        }
        env.variables.insert(String::from_str("freeze"), (freeze, MutabilityView::Immutable));
        proof {
            assert(env.model().classes =~= initial_env().classes);
            assert(env.model().interfaces =~= Map::<Seq<char>, TypeModel>::empty());
            assert(env.model().traits =~= Map::<Seq<char>, TypeModel>::empty());
            assert(env.model().type_aliases =~= Map::<Seq<char>, TypeModel>::empty());
            assert(env.model().functions =~= Map::<Seq<char>, TypeModel>::empty());
            assert(env.model().variables =~= initial_env().variables);
            assert(env.model().sealed_subclasses =~= Map::<Seq<char>, Seq<Seq<char>>>::empty());
        }
        TypeChecker { env }
    }

    /// The type that a type expression denotes in the current environment
    /// (see `resolve`); this never fails.
    pub fn resolve_type_expr(&self, texpr: &TypeExpr) -> (r: Result<Type, TypeError>)
        requires
            self.env.wf(),
        ensures
            r matches Ok(t) && t.model() == resolve(self.env.model(), *texpr),
    {
        Ok(self.resolve(texpr))
    }

    fn resolve(&self, texpr: &TypeExpr) -> (t: Type)
        requires
            self.env.wf(),
        ensures
            t.model() == resolve(self.env.model(), *texpr),
        decreases texpr,
    {
        let ghost em = self.env.model();
        match texpr {
            TypeExpr::Named { name, args, .. } => {
                let resolved = self.resolve_list(args);
                let n = name.as_str();
                if str_equal(n, "int") {
                    Type::Int
                } else if str_equal(n, "float") {
                    Type::Float
                } else if str_equal(n, "bool") {
                    Type::Bool
                } else if str_equal(n, "str") {
                    Type::Str
                } else if str_equal(n, "none") {
                    Type::NoneType
                } else if str_equal(n, "Never") {
                    Type::Never
                } else if let Some(alias) = self.env.type_aliases.get(n) {
                    alias.duplicate()
                } else if let Some(c) = self.env.classes.get(n) {
                    match c.duplicate() {
                        Type::Class { name, parent, traits, interfaces, fields, is_sealed, .. } => Type::Class {
                            name,
                            type_args: resolved,
                            parent,
                            traits,
                            interfaces,
                            fields,
                            is_sealed,
                        },
                        other => other,
                    }
                } else if let Some(iface) = self.env.interfaces.get(n) {
                    iface.duplicate()
                } else if let Some(tr) = self.env.traits.get(n) {
                    tr.duplicate()
                } else {
                    let traits: Vec<String> = Vec::new();
                    let interfaces: Vec<String> = Vec::new();
                    let fields: Vec<(String, Type)> = Vec::new();
                    proof {
                        assert(texts(traits@) =~= Seq::<Seq<char>>::empty());
                        assert(texts(interfaces@) =~= Seq::<Seq<char>>::empty());
                        assert(crate::types::field_map(fields@) =~= Map::<Seq<char>, TypeModel>::empty());
                    }
                    Type::Class {
                        name: name.clone(),
                        type_args: resolved,
                        parent: None,
                        traits,
                        interfaces,
                        fields,
                        is_sealed: false,
                    }
                }
            },
            TypeExpr::Function { params, return_type, .. } => {
                let ps = self.resolve_list(params);
                let ret = self.resolve(return_type);
                Type::Function { params: ps, return_type: Box::new(ret) }
            },
            TypeExpr::Union { types, .. } => {
                let members = self.resolve_list(types);
                Type::make_union(members)
            },
            TypeExpr::View { mutability, inner, .. } => {
                let i = self.resolve(inner);
                Type::View { mutability: copy_mutability(mutability), inner: Box::new(i) }
            },
            _ => Type::Never,
        }
    }

    fn resolve_list(&self, tes: &Vec<TypeExpr>) -> (r: Vec<Type>)
        requires
            self.env.wf(),
        ensures
            models(r@) == resolve_all(self.env.model(), tes@),
        decreases tes,
    {
        let ghost em = self.env.model();
        let mut out: Vec<Type> = Vec::new();
        let mut i: usize = 0;
        proof {
            assert(tes@.take(0) =~= Seq::<TypeExpr>::empty());
        }
        while i < tes.len()
            invariant
                self.env.wf(),
                em == self.env.model(),
                i <= tes@.len(),
                models(out@) == resolve_all(em, tes@.take(i as int)),
            decreases tes.len() - i,
        {
            proof {
                assert(decreases_to!(tes => tes[i as int]));
            }
            let t = self.resolve(&tes[i]);
            let ghost before = out@;
            out.push(t);
            proof {
                assert(out@.drop_last() =~= before);
                assert(tes@.take(i + 1).drop_last() =~= tes@.take(i as int));
            }
            i = i + 1;
        }
        proof {
            assert(tes@.take(tes@.len() as int) =~= tes@);
        }
        out
    }
}

/// Whether `s` ends with "Error".
pub fn ends_with_error(s: &str) -> (r: bool)
    ensures
        r == "Error"@.is_suffix_of(s@),
{
    proof {
        reveal_strlit("Error");
    }
    let n = s.unicode_len();
    if n < 5 {
        return false;
    }
    let r = s.get_char(n - 5) == 'E' && s.get_char(n - 4) == 'r' && s.get_char(n - 3) == 'r'
        && s.get_char(n - 2) == 'o' && s.get_char(n - 1) == 'r';
    proof {
        let suffix = s@.subrange(n - 5, n as int);
        if r {
            assert(suffix =~= "Error"@);
        } else {
            assert(suffix != "Error"@) by {
                if suffix == "Error"@ {
                    assert(suffix[0] == 'E' && suffix[1] == 'r' && suffix[2] == 'r' && suffix[3] == 'o'
                        && suffix[4] == 'r');
                }
            }
        }
    }
    r
}

fn is_error_type(t: &Type) -> (r: bool)
    ensures
        r == is_error_class(t.model()),
{
    match t {
        Type::Class { name, .. } => ends_with_error(name.as_str()),
        _ => false,
    }
}

/// "`prefix``text``suffix`".
fn message3(prefix: &str, text: &str, suffix: &str) -> (m: String)
    ensures
        m@ == prefix@ + text@ + suffix@,
{
    let mut m = String::from_str(prefix);
    m.append(text);
    m.append(suffix);
    m
}

impl TypeChecker {
    /// The type of an expression in the current environment, or the error
    /// that `expr_type` names.
    pub fn type_of_expr(&self, expr: &Expr) -> (r: Result<Type, TypeError>)
        requires
            self.env.wf(),
        ensures
            match expr_type(self.env.model(), *expr) {
                Ok(t) => r matches Ok(x) && x.model() == t,
                Err(f) => r matches Err(e) && reports(e, f),
            },
        decreases expr,
    {
        let ghost em = self.env.model();
        match expr {
            Expr::Literal { value, .. } => Ok(
                match value {
                    LiteralValue::Int(_) => Type::Int,
                    LiteralValue::Float(_) => Type::Float,
                    LiteralValue::Bool(_) => Type::Bool,
                    LiteralValue::Str(_) => Type::Str,
                    LiteralValue::Sentinel(s) => Type::TypeVar(s.clone()),
                    _ => Type::NoneType,
                },
            ),
            Expr::Ident { name, span } => {
                if let Some(entry) = self.env.variables.get(name.as_str()) {
                    Ok(entry.0.duplicate())
                } else if let Some(c) = self.env.classes.get(name.as_str()) {
                    Ok(c.duplicate())
                } else {
                    Err(TypeError { message: message3("undefined variable '", name.as_str(), "'"), span: *span })
                }
            },
            Expr::Binary { op, left, right, .. } => {
                let lt = self.type_of_expr(left)?;
                let rt = self.type_of_expr(right)?;
                match op {
                    BinaryOp::Add | BinaryOp::Sub | BinaryOp::Mul => {
                        if matches!(lt, Type::Int) && matches!(rt, Type::Int) {
                            Ok(Type::Int)
                        } else if matches!(lt, Type::Float) || matches!(rt, Type::Float) {
                            Ok(Type::Float)
                        } else {
                            Ok(lt)
                        }
                    },
                    BinaryOp::Eq | BinaryOp::NotEq | BinaryOp::Lt | BinaryOp::LtEq | BinaryOp::Gt | BinaryOp::GtEq
                    | BinaryOp::And | BinaryOp::Or => Ok(Type::Bool),
                    _ => Ok(Type::Int),
                }
            },
            Expr::Unary { op, expr: inner, .. } => {
                let t = self.type_of_expr(inner)?;
                match op {
                    UnaryOp::Not => Ok(Type::Bool),
                    _ => Ok(t),
                }
            },
            Expr::Call { func, .. } => {
                let ft = self.type_of_expr(func)?;
                match ft {
                    Type::Function { return_type, .. } => Ok(*return_type),
                    Type::Class { .. } => Ok(ft),
                    _ => Ok(Type::Never),
                }
            },
            Expr::Propagate { expr: inner, span } => {
                let t = self.type_of_expr(inner)?;
                match t {
                    Type::Union(variants) => self.propagate(variants, *span),
                    other => Ok(other),
                }
            },
            Expr::Freeze { expr: inner, .. } => {
                let t = self.type_of_expr(inner)?;
                Ok(Type::View { mutability: MutabilityView::Immutable, inner: Box::new(t) })
            },
            Expr::Trust { target_type, .. } => self.resolve_type_expr(target_type),
            Expr::List { elements, .. } => {
                let ts = self.element_types(elements);
                let u = Type::make_union(ts);
                let args = vec![u];
                proof {
                    lemma_models(args@);
                    assert(models(args@) =~= seq![args@[0].model()]);
                }
                Ok(plain_class_type("list", args))
            },
            Expr::Dict { .. } => {
                let args: Vec<Type> = Vec::new();
                proof {
                    assert(models(args@) =~= Seq::<TypeModel>::empty());
                }
                Ok(plain_class_type("dict", args))
            },
            Expr::Attribute { value, attr, .. } => {
                let obj = self.type_of_expr(value)?;
                Ok(attribute_of(&obj, attr.as_str()))
            },
            _ => Ok(Type::NoneType),
        }
    }

    /// The type of `expr?` when `expr` is a union of `variants`.
    #[verifier::spinoff_prover]
    #[verifier::rlimit(40)]
    fn propagate(&self, variants: Vec<Type>, span: Span) -> (r: Result<Type, TypeError>)
        requires
            self.env.wf(),
        ensures
            ({
                let em = self.env.model();
                let vs = models(variants@);
                match em.current_return_type {
                    Some(ret) => match first_unhandled(em, vs, ret) {
                        Some(_) => r matches Err(e) && reports(
                            e,
                            Failure::Unpropagated { unhandled: unhandled_errors(em, vs, ret), span },
                        ),
                        None => r matches Ok(t) && t.model() == crate::types::union_of(ok_members(vs)),
                    },
                    None => r matches Ok(t) && t.model() == crate::types::union_of(ok_members(vs)),
                }
            }),
    {
        let ghost em = self.env.model();
        let ghost vs = models(variants@);
        proof {
            lemma_models(variants@);
        }
        let mut ok_types: Vec<Type> = Vec::new();
        let mut err_types: Vec<Type> = Vec::new();
        let mut rest = variants;
        let ghost mut k: int = 0;
        proof {
            lemma_models(rest@);
            assert(vs.skip(0) =~= vs);
            assert(vs.take(0) =~= Seq::<TypeModel>::empty());
        }
        while rest.len() > 0
            invariant
                0 <= k <= vs.len(),
                rest@.len() == vs.len() - k,
                models(rest@) == vs.skip(k),
                models(ok_types@) == ok_members(vs.take(k)),
                forall|i: int| 0 <= i < err_types@.len() ==> is_error_class(#[trigger] err_types@[i].model()),
                forall|i: int|
                    0 <= i < k && is_error_class(#[trigger] vs[i]) ==> exists|j: int|
                        0 <= j < err_types@.len() && err_types@[j].model() == vs[i],
                forall|j: int|
                    0 <= j < err_types@.len() ==> exists|i: int|
                        0 <= i < k && vs[i] == #[trigger] err_types@[j].model(),
            decreases rest.len(),
        {
            proof {
                crate::types::lemma_models_skip(rest@, vs, k);
            }
            let v = rest.remove(0);
            proof {
                assert(vs.take(k + 1).drop_last() =~= vs.take(k));
                assert(vs.take(k + 1).last() == vs[k]);
            }
            if is_error_type(&v) {
                let ghost before = err_types@;
                err_types.push(v);
                proof {
                    assert(err_types@[before.len() as int] == v);
                    assert forall|i: int| 0 <= i < k + 1 && is_error_class(#[trigger] vs[i]) implies exists|j: int|
                        0 <= j < err_types@.len() && err_types@[j].model() == vs[i] by {
                        if i < k {
                            let j = choose|j: int| 0 <= j < before.len() && before[j].model() == vs[i];
                            assert(err_types@[j] == before[j]);
                        } else {
                            assert(err_types@[before.len() as int].model() == vs[i]);
                        }
                    }
                    assert forall|j: int| 0 <= j < err_types@.len() implies exists|i: int|
                        0 <= i < k + 1 && vs[i] == #[trigger] err_types@[j].model() by {
                        if j < before.len() {
                            assert(err_types@[j] == before[j]);
                            let i = choose|i: int| 0 <= i < k && vs[i] == before[j].model();
                        } else {
                            assert(vs[k] == err_types@[j].model());
                        }
                    }
                }
            } else {
                let ghost before = ok_types@;
                ok_types.push(v);
                proof {
                    assert(ok_types@.drop_last() =~= before);
                }
            }
            proof {
                k = k + 1;
            }
        }
        proof {
            lemma_models(rest@);
            assert(vs.take(k) =~= vs);
        }
        if let Some(ret) = &self.env.current_return_type {
            let mut i: usize = 0;
            while i < err_types.len()
                invariant
                    self.env.wf(),
                    em == self.env.model(),
                    em.current_return_type == Some(ret.model()),
                    vs == models(variants@),
                    k == vs.len(),
                    forall|j: int| 0 <= j < err_types@.len() ==> is_error_class(#[trigger] err_types@[j].model()),
                    forall|w: int|
                        0 <= w < k && is_error_class(#[trigger] vs[w]) ==> exists|j: int|
                            0 <= j < err_types@.len() && err_types@[j].model() == vs[w],
                    forall|j: int|
                        0 <= j < err_types@.len() ==> exists|w: int|
                            0 <= w < k && vs[w] == #[trigger] err_types@[j].model(),
                    i <= err_types@.len(),
                    forall|j: int| 0 <= j < i ==> is_sub(em, #[trigger] err_types@[j].model(), ret.model()),
                decreases err_types.len() - i,
            {
                let ok = err_types[i].is_subtype_of(ret, &self.env);
                proof {
                    self.env.lemma_fuel();
                }
                if !ok {
                    proof {
                        let w = choose|w: int| 0 <= w < k && vs[w] == err_types@[i as int].model();
                        assert(is_error_class(vs[w]) && !is_sub(em, vs[w], ret.model()));
                        assert(vs.contains(vs[w]));
                        assert(unhandled_errors(em, vs, ret.model()).contains(err_types@[i as int].model()));
                    }
                    let d = err_types[i].describe();
                    let m = message3(
                        "'?' propagates error type ",
                        d.as_str(),
                        ", but enclosing function return type does not include it",
                    );
                    proof {
                        assert(unhandled_errors(em, vs, ret.model()).contains(err_types@[i as int].model())
                            && m@ == "'?' propagates error type "@ + type_text(err_types@[i as int])
                            + ", but enclosing function return type does not include it"@);
                    }
                    return Err(TypeError { message: m, span });
                }
                i = i + 1;
            }
            proof {
                if exists|w: int| 0 <= w < vs.len() && is_error_class(vs[w]) && !is_sub(em, vs[w], ret.model()) {
                    let w = choose|w: int| 0 <= w < vs.len() && is_error_class(vs[w]) && !is_sub(em, vs[w], ret.model());
                    let j = choose|j: int| 0 <= j < err_types@.len() && err_types@[j].model() == vs[w];
                    assert(is_sub(em, err_types@[j].model(), ret.model()));
                }
            }
        }
        Ok(Type::make_union(ok_types))
    }

    fn element_types(&self, es: &Vec<Expr>) -> (r: Vec<Type>)
        requires
            self.env.wf(),
        ensures
            models(r@) == element_types(self.env.model(), es@),
        decreases es,
    {
        let ghost em = self.env.model();
        let mut out: Vec<Type> = Vec::new();
        let mut i: usize = 0;
        proof {
            assert(es@.take(0) =~= Seq::<Expr>::empty());
        }
        while i < es.len()
            invariant
                self.env.wf(),
                em == self.env.model(),
                i <= es@.len(),
                models(out@) == element_types(em, es@.take(i as int)),
            decreases es.len() - i,
        {
            proof {
                assert(decreases_to!(es => es[i as int]));
            }
            let r = self.type_of_expr(&es[i]);
            let t = match r {
                Ok(t) => t,
                Err(_) => Type::Never,
            };
            let ghost before = out@;
            out.push(t);
            proof {
                assert(out@.drop_last() =~= before);
                assert(es@.take(i + 1).drop_last() =~= es@.take(i as int));
                assert(es@.take(i + 1).last() == es@[i as int]);
                assert(t.model() == match expr_type(em, es@[i as int]) {
                    Ok(x) => x,
                    Err(_) => TypeModel::Never,
                });
                assert(models(out@) == models(before).push(t.model()));
            }
            i = i + 1;
        }
        proof {
            assert(es@.take(es@.len() as int) =~= es@);
        }
        out
    }
}

/// A class type with only a name and type arguments.
fn plain_class_type(name: &str, type_args: Vec<Type>) -> (t: Type)
    ensures
        t.model() == plain_class(name@, models(type_args@)),
{
    let traits: Vec<String> = Vec::new();
    let interfaces: Vec<String> = Vec::new();
    let fields: Vec<(String, Type)> = Vec::new();
    proof {
        assert(texts(traits@) =~= Seq::<Seq<char>>::empty());
        assert(texts(interfaces@) =~= Seq::<Seq<char>>::empty());
        assert(crate::types::field_map(fields@) =~= Map::<Seq<char>, TypeModel>::empty());
    }
    Type::Class {
        name: String::from_str(name),
        type_args,
        parent: None,
        traits,
        interfaces,
        fields,
        is_sealed: false,
    }
}

/// The declared type of field `attr` in a list of class fields, `None` when
/// there is no such field.
fn field_type(fields: &Vec<(String, Type)>, attr: &str) -> (t: Type)
    ensures
        t.model() == (if crate::types::field_map(fields@).contains_key(attr@) {
            crate::types::field_map(fields@)[attr@]
        } else {
            TypeModel::NoneType
        }),
{
    match crate::types::find_last_key(fields, attr) {
        Some(j) => fields[j].1.duplicate(),
        None => Type::NoneType,
    }
}

fn attribute_of(obj: &Type, attr: &str) -> (t: Type)
    ensures
        t.model() == crate::semantics::attribute_type(obj.model(), attr@),
{
    match obj {
        Type::Class { fields, .. } => {
            let t = field_type(fields, attr);
            proof {
                assert(obj.model()->Class_fields == crate::types::field_map(fields@));
            }
            t
        },
        Type::View { inner, .. } => match &**inner {
            Type::Class { fields, .. } => {
                let t = field_type(fields, attr);
                proof {
                    let m = obj.model();
                    let im = (**inner).model();
                    assert(m->View_inner == Box::new(im));
                    assert(im->Class_fields == crate::types::field_map(fields@));
                    assert(t.model() == crate::semantics::attribute_type(m, attr@));
                }
                t
            },
            _ => Type::NoneType,
        },
        _ => Type::NoneType,
    }
}

fn arm_covers_type(p: &Pattern, v: &Type) -> (r: bool)
    ensures
        r == arm_covers(*p, v.model()),
{
    match p {
        Pattern::Ident(name, _) => match v {
            Type::Class { name: c, .. } => str_equal(c.as_str(), name.as_str()),
            Type::Int => str_equal(name.as_str(), "int"),
            Type::Float => str_equal(name.as_str(), "float"),
            Type::Bool => str_equal(name.as_str(), "bool"),
            Type::Str => str_equal(name.as_str(), "str"),
            Type::NoneType => str_equal(name.as_str(), "none"),
            _ => false,
        },
        Pattern::ClassDestructure { class_name, .. } => match v {
            Type::Class { name: c, .. } => str_equal(c.as_str(), class_name.as_str()),
            _ => false,
        },
        _ => false,
    }
}

fn is_covered(arms: &Vec<MatchArm>, v: &Type) -> (r: bool)
    ensures
        r == member_covered(arms@, v.model()),
{
    let mut i: usize = 0;
    while i < arms.len()
        invariant
            i <= arms@.len(),
            forall|j: int| 0 <= j < i ==> !arm_covers(#[trigger] arms@[j].pattern, v.model()),
        decreases arms.len() - i,
    {
        if arm_covers_type(&arms[i].pattern, v) {
            return true;
        }
        i = i + 1;
    }
    false
}

fn names_subclass(arms: &Vec<MatchArm>, sub: &str) -> (r: bool)
    ensures
        r == subclass_covered(arms@, sub@),
{
    let mut i: usize = 0;
    while i < arms.len()
        invariant
            i <= arms@.len(),
            forall|j: int| 0 <= j < i ==> !names(#[trigger] arms@[j].pattern, sub@),
        decreases arms.len() - i,
    {
        match &arms[i].pattern {
            Pattern::Ident(n, _) => {
                if str_equal(n.as_str(), sub) {
                    return true;
                }
            },
            _ => {},
        }
        i = i + 1;
    }
    false
}

fn any_wildcard(arms: &Vec<MatchArm>) -> (r: bool)
    ensures
        r == has_wildcard(arms@),
{
    let mut i: usize = 0;
    while i < arms.len()
        invariant
            i <= arms@.len(),
            forall|j: int| 0 <= j < i ==> !(#[trigger] arms@[j].pattern is Wildcard),
        decreases arms.len() - i,
    {
        if matches!(arms[i].pattern, Pattern::Wildcard(_)) {
            return true;
        }
        i = i + 1;
    }
    false
}

/// "`prefix`[`t1`, `t2`, ...]" with each type described.
fn message_with_types(prefix: &str, ts: &Vec<Type>) -> (m: String)
    ensures
        m@ == prefix@ + "["@ + type_items(ts@) + "]"@,
{
    let mut m = String::from_str(prefix);
    m.append("[");
    proof {
        assert(ts@.take(0) =~= Seq::<Type>::empty());
        assert(m@ =~= prefix@ + "["@ + type_items(ts@.take(0)));
    }
    let mut i: usize = 0;
    while i < ts.len()
        invariant
            i <= ts@.len(),
            m@ == prefix@ + "["@ + type_items(ts@.take(i as int)),
        decreases ts.len() - i,
    {
        let ghost before = m@;
        if i > 0 {
            m.append(", ");
        }
        let d = ts[i].describe();
        m.append(d.as_str());
        proof {
            let t1 = ts@.take(i + 1);
            assert(t1.drop_last() =~= ts@.take(i as int));
            assert(t1.last() == ts@[i as int]);
            if i == 0 {
                assert(type_items(t1) == type_text(t1[0]));
                assert(m@ =~= prefix@ + "["@ + type_items(t1));
            } else {
                assert(type_items(t1) == type_items(ts@.take(i as int)) + ", "@ + type_text(ts@[i as int]));
                assert(m@ =~= prefix@ + "["@ + type_items(t1));
            }
        }
        i = i + 1;
    }
    m.append("]");
    proof {
        assert(ts@.take(ts@.len() as int) =~= ts@);
        assert(m@ =~= prefix@ + "["@ + type_items(ts@) + "]"@);
    }
    m
}

/// "class '`class`' has multiple class parents ('`first`' and '`second`'). ..."
fn multiple_parents_message(class: &str, first: &str, second: &str) -> (m: String)
    ensures
        m@ == "class '"@ + class@ + "' has multiple class parents ('"@ + first@ + "' and '"@ + second@
            + "'). Lucid permits at most one class parent."@,
{
    let mut m = String::from_str("class '");
    m.append(class);
    m.append("' has multiple class parents ('");
    m.append(first);
    m.append("' and '");
    m.append(second);
    m.append("'). Lucid permits at most one class parent.");
    m
}

pub proof fn lemma_classify_err(em: EnvModel, class: Seq<char>, bases: Seq<TypeExpr>, span: Span, i: int)
    requires
        0 <= i <= bases.len(),
        classify_bases(em, class, bases.take(i), span) is Err,
    ensures
        classify_bases(em, class, bases, span) == classify_bases(em, class, bases.take(i), span),
    decreases bases.len() - i,
{
    if i < bases.len() {
        assert(bases.take(i + 1).drop_last() =~= bases.take(i));
        lemma_classify_err(em, class, bases, span, i + 1);
    } else {
        assert(bases.take(i) =~= bases);
    }
}

impl TypeChecker {
    /// Whether a match on a value of type `subject_type` is exhaustive (see
    /// `exhaustive`).
    #[verifier::loop_isolation(false)]
    pub fn check_match_exhaustiveness(&self, subject_type: &Type, arms: &Vec<MatchArm>, span: Span) -> (r: Result<
        (),
        TypeError,
    >)
        requires
            self.env.wf(),
        ensures
            match exhaustive(self.env.model(), subject_type.model(), arms@, span) {
                Ok(_) => r is Ok,
                Err(f) => r matches Err(e) && reports(e, f),
            },
    {
        let ghost em = self.env.model();
        if any_wildcard(arms) {
            return Ok(());
        }
        match subject_type {
            Type::Union(variants) => {
                proof {
                    lemma_models(variants@);
                }
                let mut uncovered: Vec<Type> = Vec::new();
                let mut i: usize = 0;
                while i < variants.len()
                    invariant
                        i <= variants@.len(),
                        models(variants@).len() == variants@.len(),
                        forall|j: int| 0 <= j < variants@.len() ==> #[trigger] models(variants@)[j] == variants@[j].model(),
                        uncovered@.len() == 0 <==> forall|j: int| 0 <= j < i ==> member_covered(arms@, #[trigger] models(variants@)[j]),
                        models(uncovered@) == uncovered_members(arms@, models(variants@).take(i as int)),
                    decreases variants.len() - i,
                {
                    let c = is_covered(arms, &variants[i]);
                    let ghost before = uncovered@;
                    proof {
                        assert(models(variants@).take(i + 1).drop_last() =~= models(variants@).take(i as int));
                        assert(models(variants@).take(i + 1).last() == variants@[i as int].model());
                    }
                    if !c {
                        uncovered.push(variants[i].duplicate());
                        proof {
                            assert(uncovered@.drop_last() =~= before);
                        }
                    }
                    proof {
                        assert(models(variants@)[i as int] == variants@[i as int].model());
                        if c && uncovered@.len() == 0 {
                            assert forall|j: int| 0 <= j < i + 1 implies member_covered(arms@, #[trigger] models(variants@)[j]) by {
                                if j < i {
                                    assert(member_covered(arms@, models(variants@)[j]));
                                }
                            }
                        }
                        if !c {
                            assert(!member_covered(arms@, models(variants@)[i as int]));
                        }
                    }
                    i = i + 1;
                }
                if uncovered.len() > 0 {
                    let m = message_with_types("non-exhaustive match: uncovered variants: ", &uncovered);
                    proof {
                        let vs = models(variants@);
                        assert(subject_type.model() == TypeModel::Union(vs));
                        assert(!has_wildcard(arms@));
                        assert(!(forall|j: int| 0 <= j < vs.len() ==> member_covered(arms@, #[trigger] vs[j])));
                        let w = choose|j: int| 0 <= j < vs.len() && !member_covered(arms@, #[trigger] vs[j]);
                        assert(!member_covered(arms@, subject_type.model()->Union_0[w]));
                        assert(models(variants@).take(variants@.len() as int) =~= vs);
                        assert(exhaustive(em, subject_type.model(), arms@, span) == Err::<(), Failure>(
                            Failure::NonExhaustive { uncovered: uncovered_members(arms@, vs), span },
                        ));
                        assert(models(uncovered@) == uncovered_members(arms@, vs) && m@
                            == "non-exhaustive match: uncovered variants: "@ + "["@ + type_items(uncovered@) + "]"@);
                    }
                    return Err(TypeError { message: m, span });
                }
                Ok(())
            },
            Type::Class { name, is_sealed, .. } => {
                if !*is_sealed {
                    return Ok(());
                }
                match self.env.sealed_subclasses.get(name.as_str()) {
                    Some(subclasses) => {
                        let ghost subs = texts(subclasses@);
                        proof {
                            crate::types::lemma_texts(subclasses@);
                            assert(em.sealed_subclasses[name@] == subs);
                        }
                        let mut uncovered: Vec<String> = Vec::new();
                        let mut i: usize = 0;
                        while i < subclasses.len()
                            invariant
                                i <= subclasses@.len(),
                                subs == texts(subclasses@),
                                subs.len() == subclasses@.len(),
                                forall|j: int| 0 <= j < subclasses@.len() ==> #[trigger] subs[j] == subclasses@[j]@,
                                uncovered@.len() == 0 <==> forall|j: int| 0 <= j < i ==> subclass_covered(arms@, #[trigger] subs[j]),
                                texts(uncovered@) == uncovered_subclasses(arms@, subs.take(i as int)),
                            decreases subclasses.len() - i,
                        {
                            let c = names_subclass(arms, subclasses[i].as_str());
                            let ghost before = uncovered@;
                            proof {
                                assert(subs.take(i + 1).drop_last() =~= subs.take(i as int));
                                assert(subs.take(i + 1).last() == subs[i as int]);
                                crate::types::lemma_texts(uncovered@);
                            }
                            if !c {
                                let sc = subclasses[i].clone();
                                uncovered.push(sc);
                                proof {
                                    assert(uncovered@.drop_last() =~= before);
                                    crate::types::lemma_texts(uncovered@);
                                    assert(texts(uncovered@) =~= texts(before).push(subs[i as int]));
                                }
                            }
                            proof {
                                if c && uncovered@.len() == 0 {
                                    assert forall|j: int| 0 <= j < i + 1 implies subclass_covered(arms@, #[trigger] subs[j]) by {
                                        if j < i {
                                            assert(subclass_covered(arms@, subs[j]));
                                        }
                                    }
                                }
                                if !c {
                                    assert(!subclass_covered(arms@, subs[i as int]));
                                }
                            }
                            i = i + 1;
                        }
                        if uncovered.len() > 0 {
                            let mut m = message3("non-exhaustive match on sealed class '", name.as_str(), "': uncovered subclasses: ");
                            let ghost p = m@;
                            crate::types::push_quoted_list(&mut m, &uncovered, "[", "]");
                            proof {
                                assert(subs.take(subs.len() as int) =~= subs);
                                assert(texts(uncovered@) == uncovered_subclasses(arms@, em.sealed_subclasses[name@]) && m@
                                    == "non-exhaustive match on sealed class '"@ + name@ + "': uncovered subclasses: "@ + "["@
                                    + quoted_items(uncovered@) + "]"@);
                            }
                            return Err(TypeError { message: m, span });
                        }
                        Ok(())
                    },
                    None => Ok(()),
                }
            },
            _ => Ok(()),
        }
    }
}

impl TypeChecker {
    fn param_type(&self, p: &Param) -> (t: Type)
        requires
            self.env.wf(),
        ensures
            t.model() == param_type(self.env.model(), *p),
    {
        match &p.type_annotation {
            Some(te) => self.resolve(te),
            None => Type::TypeVar(String::from_str("Any")),
        }
    }

    /// The first pass over a statement: what it declares is entered in the
    /// environment (see `collect`).
    #[verifier::loop_isolation(false)]
    pub fn collect_declaration(&mut self, stmt: &Stmt) -> (r: Result<(), TypeError>)
        requires
            old(self).env.wf(),
        ensures
            final(self).env.wf(),
            match collect(old(self).env.model(), *stmt) {
                Ok(em) => r is Ok && final(self).env.model() == em,
                Err(f) => r matches Err(e) && reports(e, f),
            },
        decreases stmt,
    {
        let ghost em = self.env.model();
        match stmt {
            Stmt::Export(inner) => self.collect_declaration(inner),
            Stmt::ClassDef { name, bases, body, is_sealed, span, .. } => {
                let mut parent: Option<String> = None;
                let mut traits: Vec<String> = Vec::new();
                let mut interfaces: Vec<String> = Vec::new();
                let mut i: usize = 0;
                proof {
                    assert(bases@.take(0) =~= Seq::<TypeExpr>::empty());
                    assert(texts(traits@) =~= Seq::<Seq<char>>::empty());
                    assert(texts(interfaces@) =~= Seq::<Seq<char>>::empty());
                }
                while i < bases.len()
                    invariant
                        self.env.wf(),
                        em == self.env.model(),
                        i <= bases@.len(),
                        classify_bases(em, name@, bases@.take(i as int), *span) == Ok::<
                            (Option<Seq<char>>, Seq<Seq<char>>, Seq<Seq<char>>),
                            Failure,
                        >((crate::types::opt_text(parent), texts(traits@), texts(interfaces@))),
                    decreases bases.len() - i,
                {
                    proof {
                        assert(bases@.take(i + 1).drop_last() =~= bases@.take(i as int));
                        assert(bases@.take(i + 1).last() == bases@[i as int]);
                    }
                    let ghost prev_parent = crate::types::opt_text(parent);
                    let ghost prev_traits = traits@;
                    let ghost prev_interfaces = interfaces@;
                    match &bases[i] {
                        TypeExpr::Named { name: b, .. } => {
                            proof {
                                assert(em.classes.contains_key(b@) == self.env.classes.view().contains_key(b@));
                                assert(em.interfaces.contains_key(b@) == self.env.interfaces.view().contains_key(b@));
                                assert(em.traits.contains_key(b@) == self.env.traits.view().contains_key(b@));
                            }
                            if self.env.classes.contains_key(b.as_str()) {
                                match &parent {
                                    Some(p) => {
                                        let m = multiple_parents_message(name.as_str(), p.as_str(), b.as_str());
                                        proof {
                                            assert(classify_bases(em, name@, bases@.take(i + 1), *span) == Err::<
                                                (Option<Seq<char>>, Seq<Seq<char>>, Seq<Seq<char>>),
                                                Failure,
                                            >(Failure::MultipleParents { class: name@, first: p@, second: b@, span: *span }));
                                            lemma_classify_err(em, name@, bases@, *span, i + 1);
                                        }
                                        return Err(TypeError { message: m, span: *span });
                                    },
                                    None => {
                                        parent = Some(b.clone());
                                    },
                                }
                            } else if self.env.interfaces.contains_key(b.as_str()) {
                                interfaces.push(b.clone());
                                proof {
                                    assert(interfaces@.drop_last() =~= prev_interfaces);
                                    assert(texts(interfaces@) =~= texts(prev_interfaces).push(b@));
                                }
                            } else if self.env.traits.contains_key(b.as_str()) {
                                traits.push(b.clone());
                                proof {
                                    assert(traits@.drop_last() =~= prev_traits);
                                    assert(texts(traits@) =~= texts(prev_traits).push(b@));
                                }
                            } else {
                                interfaces.push(b.clone());
                                proof {
                                    assert(interfaces@.drop_last() =~= prev_interfaces);
                                    assert(texts(interfaces@) =~= texts(prev_interfaces).push(b@));
                                }
                            }
                            proof {
                                assert(bases@.take(i + 1).last() matches TypeExpr::Named { name: nn, .. } && nn@ == b@);
                            }
                        },
                        _ => {},
                    }
                    proof {
                        assert(classify_bases(em, name@, bases@.take(i + 1), *span) == Ok::<
                            (Option<Seq<char>>, Seq<Seq<char>>, Seq<Seq<char>>),
                            Failure,
                        >((crate::types::opt_text(parent), texts(traits@), texts(interfaces@))));
                    }
                    i = i + 1;
                }
                proof {
                    assert(bases@.take(bases@.len() as int) =~= bases@);
                }
                let mut fields: Vec<(String, Type)> = Vec::new();
                let mut j: usize = 0;
                proof {
                    assert(body@.take(0) =~= Seq::<ClassMember>::empty());
                    assert(crate::types::field_map(fields@) =~= Map::<Seq<char>, TypeModel>::empty());
                }
                while j < body.len()
                    invariant
                        self.env.wf(),
                        em == self.env.model(),
                        j <= body@.len(),
                        crate::types::field_map(fields@) == class_fields(em, body@.take(j as int)),
                    decreases body.len() - j,
                {
                    proof {
                        assert(body@.take(j + 1).drop_last() =~= body@.take(j as int));
                        assert(body@.take(j + 1).last() == body@[j as int]);
                    }
                    match &body[j] {
                        ClassMember::Field(f) => {
                            let ft = self.resolve(&f.type_annotation);
                            let ghost before = fields@;
                            fields.push((f.name.clone(), ft));
                            proof {
                                assert(fields@.drop_last() =~= before);
                            }
                        },
                        _ => {},
                    }
                    j = j + 1;
                }
                proof {
                    assert(body@.take(body@.len() as int) =~= body@);
                }
                match &parent {
                    Some(p) => {
                        let mut list: Vec<String> = match self.env.sealed_subclasses.get(p.as_str()) {
                            Some(known) => copy_names(known),
                            None => Vec::new(),
                        };
                        let ghost before = list@;
                        list.push(name.clone());
                        let ghost old_sealed = self.env.sealed_subclasses.view();
                        self.env.sealed_subclasses.insert(p.clone(), list);
                        proof {
                            assert(texts(list@) =~= texts(before).push(name@));
                            assert(self.env.model().sealed_subclasses =~= add_subclass(em.sealed_subclasses, p@, name@));
                        }
                    },
                    None => {},
                }
                let class_type = Type::Class {
                    name: name.clone(),
                    type_args: Vec::new(),
                    parent,
                    traits,
                    interfaces,
                    fields,
                    is_sealed: *is_sealed,
                };
                proof {
                    assert(models(class_type->Class_type_args@) =~= Seq::<TypeModel>::empty());
                }
                let ghost classes_before = self.env.classes.view();
                self.env.classes.insert(name.clone(), class_type);
                proof {
                    assert(self.env.model().classes =~= em.classes.insert(name@, class_type.model()));
                }
                Ok(())
            },
            Stmt::InterfaceDef { name, .. } => {
                let t = Type::Interface { name: name.clone(), type_args: Vec::new(), methods: Vec::new() };
                proof {
                    assert(models(t->Interface_type_args@) =~= Seq::<TypeModel>::empty());
                    assert(texts(t->Interface_methods@).to_set() =~= Set::<Seq<char>>::empty());
                }
                self.env.interfaces.insert(name.clone(), t);
                proof {
                    assert(self.env.model().interfaces =~= em.interfaces.insert(name@, t.model()));
                }
                Ok(())
            },
            Stmt::TraitDef { name, .. } => {
                let t = Type::Trait { name: name.clone(), type_args: Vec::new(), methods: Vec::new() };
                proof {
                    assert(models(t->Trait_type_args@) =~= Seq::<TypeModel>::empty());
                    assert(texts(t->Trait_methods@).to_set() =~= Set::<Seq<char>>::empty());
                }
                self.env.traits.insert(name.clone(), t);
                proof {
                    assert(self.env.model().traits =~= em.traits.insert(name@, t.model()));
                }
                Ok(())
            },
            Stmt::TypeAlias { name, value, .. } => {
                match value {
                    TypeAliasValue::Direct(texpr) => {
                        let t = self.resolve(texpr);
                        self.env.type_aliases.insert(name.clone(), t);
                        proof {
                            assert(self.env.model().type_aliases =~= em.type_aliases.insert(name@, t.model()));
                        }
                    },
                    _ => {},
                }
                Ok(())
            },
            Stmt::Function(func) => {
                let ret = match &func.return_type {
                    Some(r) => self.resolve(r),
                    None => Type::NoneType,
                };
                let mut ptypes: Vec<Type> = Vec::new();
                let mut i: usize = 0;
                while i < func.params.len()
                    invariant
                        self.env.wf(),
                        em == self.env.model(),
                        i <= func.params@.len(),
                        ptypes@.len() == i,
                        forall|k: int| 0 <= k < i ==> #[trigger] ptypes@[k].model() == param_type(em, func.params@[k]),
                    decreases func.params.len() - i,
                {
                    let pt = self.param_type(&func.params[i]);
                    ptypes.push(pt);
                    i = i + 1;
                }
                proof {
                    lemma_models(ptypes@);
                    assert(models(ptypes@) =~= param_types(em, func.params@));
                }
                let fn_type = Type::Function { params: ptypes, return_type: Box::new(ret) };
                let copy = fn_type.duplicate();
                self.env.functions.insert(func.name.clone(), copy);
                self.env.variables.insert(func.name.clone(), (fn_type, MutabilityView::Immutable));
                proof {
                    assert(self.env.model().functions =~= em.functions.insert(func.name@, fn_type.model()));
                    assert(self.env.model().variables =~= em.variables.insert(
                        func.name@,
                        (fn_type.model(), MutabilityView::Immutable),
                    ));
                }
                Ok(())
            },
            _ => Ok(()),
        }
    }

    /// The second pass over a statement: a class may have at most one class
    /// parent (see `verify_structure`).
    pub fn verify_structure(&self, stmt: &Stmt) -> (r: Result<(), TypeError>)
        requires
            self.env.wf(),
        ensures
            match verify_structure(self.env.model(), *stmt) {
                Ok(_) => r is Ok,
                Err(f) => r matches Err(e) && reports(e, f),
            },
        decreases stmt,
    {
        let ghost em = self.env.model();
        match stmt {
            Stmt::Export(inner) => self.verify_structure(inner),
            Stmt::ClassDef { name, bases, span, .. } => {
                let mut class_parents: usize = 0;
                let mut i: usize = 0;
                proof {
                    assert(bases@.take(0) =~= Seq::<TypeExpr>::empty());
                }
                while i < bases.len()
                    invariant
                        self.env.wf(),
                        em == self.env.model(),
                        i <= bases@.len(),
                        class_parents == class_parent_count(em, bases@.take(i as int)),
                        class_parents <= i,
                    decreases bases.len() - i,
                {
                    proof {
                        assert(bases@.take(i + 1).drop_last() =~= bases@.take(i as int));
                        assert(bases@.take(i + 1).last() == bases@[i as int]);
                    }
                    match &bases[i] {
                        TypeExpr::Named { name: b, .. } => {
                            if self.env.classes.contains_key(b.as_str()) {
                                class_parents = class_parents + 1;
                            }
                        },
                        _ => {},
                    }
                    i = i + 1;
                }
                proof {
                    assert(bases@.take(bases@.len() as int) =~= bases@);
                }
                if class_parents > 1 {
                    let m = message3(
                        "class '",
                        name.as_str(),
                        "' inherits from multiple classes. Lucid requires single inheritance for classes (use traits for reusable behavior).",
                    );
                    return Err(TypeError { message: m, span: *span });
                }
                Ok(())
            },
            _ => Ok(()),
        }
    }
}

/// A copy of a list of names.
fn copy_names(v: &Vec<String>) -> (r: Vec<String>)
    ensures
        r@ == v@,
{
    let mut out: Vec<String> = Vec::new();
    let mut i: usize = 0;
    while i < v.len()
        invariant
            i <= v@.len(),
            out@ == v@.take(i as int),
        decreases v.len() - i,
    {
        out.push(v[i].clone());
        proof {
            assert(out@ =~= v@.take(i + 1));
        }
        i = i + 1;
    }
    proof {
        assert(out@ =~= v@);
    }
    out
}

pub proof fn lemma_block_err(em: EnvModel, ss: Seq<Stmt>, i: int)
    requires
        0 <= i <= ss.len(),
        check_block(em, ss.take(i)) is Err,
    ensures
        check_block(em, ss) == check_block(em, ss.take(i)),
    decreases ss.len() - i,
{
    if i < ss.len() {
        assert(ss.take(i + 1).drop_last() =~= ss.take(i));
        lemma_block_err(em, ss, i + 1);
    } else {
        assert(ss.take(i) =~= ss);
    }
}

pub proof fn lemma_elifs_err(em: EnvModel, ss: Seq<(Expr, Vec<Stmt>)>, i: int)
    requires
        0 <= i <= ss.len(),
        check_elifs(em, ss.take(i)) is Err,
    ensures
        check_elifs(em, ss) == check_elifs(em, ss.take(i)),
    decreases ss.len() - i,
{
    if i < ss.len() {
        assert(ss.take(i + 1).drop_last() =~= ss.take(i));
        lemma_elifs_err(em, ss, i + 1);
    } else {
        assert(ss.take(i) =~= ss);
    }
}

pub proof fn lemma_arms_err(em: EnvModel, ss: Seq<MatchArm>, i: int)
    requires
        0 <= i <= ss.len(),
        check_arms(em, ss.take(i)) is Err,
    ensures
        check_arms(em, ss) == check_arms(em, ss.take(i)),
    decreases ss.len() - i,
{
    if i < ss.len() {
        assert(ss.take(i + 1).drop_last() =~= ss.take(i));
        lemma_arms_err(em, ss, i + 1);
    } else {
        assert(ss.take(i) =~= ss);
    }
}

pub proof fn lemma_collect_err(em: EnvModel, ss: Seq<Stmt>, i: int)
    requires
        0 <= i <= ss.len(),
        collect_all(em, ss.take(i)) is Err,
    ensures
        collect_all(em, ss) == collect_all(em, ss.take(i)),
    decreases ss.len() - i,
{
    if i < ss.len() {
        assert(ss.take(i + 1).drop_last() =~= ss.take(i));
        lemma_collect_err(em, ss, i + 1);
    } else {
        assert(ss.take(i) =~= ss);
    }
}

pub proof fn lemma_verify_err(em: EnvModel, ss: Seq<Stmt>, i: int)
    requires
        0 <= i <= ss.len(),
        verify_all(em, ss.take(i)) is Err,
    ensures
        verify_all(em, ss) == verify_all(em, ss.take(i)),
    decreases ss.len() - i,
{
    if i < ss.len() {
        assert(ss.take(i + 1).drop_last() =~= ss.take(i));
        lemma_verify_err(em, ss, i + 1);
    } else {
        assert(ss.take(i) =~= ss);
    }
}

pub proof fn lemma_function_scope(em: EnvModel, ps: Seq<Param>, ret: Option<TypeModel>)
    ensures
        function_scope(em, ps, ret) == with_variables(
            EnvModel { current_return_type: ret, ..em },
            function_scope(em, ps, ret).variables,
        ),
    decreases ps.len(),
{
    if ps.len() > 0 {
        lemma_function_scope(em, ps.drop_last(), ret);
    }
}

/// "`prefix``a``middle``b`", which begins with `prefix`.
fn message4(prefix: &str, a: &str, middle: &str, b: &str) -> (m: String)
    ensures
        m@ == prefix@ + a@ + middle@ + b@,
{
    let mut m = String::from_str(prefix);
    m.append(a);
    m.append(middle);
    m.append(b);
    m
}

fn element_type_of(t: &Type) -> (r: Type)
    ensures
        r.model() == element_type(t.model()),
{
    match t {
        Type::Class { name, type_args, .. } => {
            proof {
                lemma_models(type_args@);
            }
            if str_equal(name.as_str(), "list") && type_args.len() > 0 {
                type_args[0].duplicate()
            } else {
                Type::TypeVar(String::from_str("Any"))
            }
        },
        _ => Type::TypeVar(String::from_str("Any")),
    }
}

fn is_restricted(m: &MutabilityView) -> (r: bool)
    ensures
        r == (*m == MutabilityView::ReadOnly || *m == MutabilityView::Immutable),
{
    match m {
        MutabilityView::ReadOnly => true,
        MutabilityView::Immutable => true,
        MutabilityView::Mutable => false,
    }
}

/// The error for a returned value of type `got` where `expected` is owed.
fn return_mismatch(expected: &Type, got: &Type, span: Span) -> (e: TypeError)
    ensures
        reports(e, Failure::ReturnMismatch { expected: expected.model(), got: got.model(), span }),
{
    let a = expected.describe();
    let b = got.describe();
    let m = message4("return type mismatch: expected ", a.as_str(), ", got ", b.as_str());
    let e = TypeError { message: m, span };
    proof {
        assert(expected.model() == expected.model() && got.model() == got.model() && e.message@
            == "return type mismatch: expected "@ + type_text(*expected) + ", got "@ + type_text(*got));
    }
    e
}

/// The error for a definition whose value of type `got` does not fit the
/// declared type.
fn var_def_mismatch(declared: &Type, got: &Type, span: Span) -> (e: TypeError)
    ensures
        reports(e, Failure::VarDefMismatch { declared: declared.model(), got: got.model(), span }),
{
    let a = declared.describe();
    let b = got.describe();
    let m = message4("type mismatch in variable definition: declared ", a.as_str(), ", got ", b.as_str());
    let e = TypeError { message: m, span };
    proof {
        assert(e.message@ == "type mismatch in variable definition: declared "@ + type_text(*declared) + ", got "@
            + type_text(*got));
    }
    e
}

/// The error for assigning a value of type `got` to the variable `name` of
/// type `existing`.
fn assign_mismatch(name: &String, got: &Type, existing: &Type, span: Span) -> (e: TypeError)
    ensures
        reports(e, Failure::AssignMismatch { name: name@, got: got.model(), existing: existing.model(), span }),
{
    let a = got.describe();
    let mut rest = String::from_str(" to variable '");
    rest.append(name.as_str());
    rest.append("' of type ");
    let b = existing.describe();
    let m = message4("cannot assign type ", a.as_str(), rest.as_str(), b.as_str());
    let e = TypeError { message: m, span };
    proof {
        assert(e.message@ =~= "cannot assign type "@ + type_text(*got) + " to variable '"@ + name@ + "' of type "@
            + type_text(*existing));
    }
    e
}

impl TypeChecker {
    /// The third pass over a statement: checks it and updates the
    /// environment (see `check_stmt`). A return, definition, assignment or
    /// expression statement that fails leaves the environment as it was.
    pub fn check_statement(&mut self, stmt: &Stmt) -> (r: Result<(), TypeError>)
        requires
            old(self).env.wf(),
        ensures
            final(self).env.wf(),
            match check_stmt(old(self).env.model(), *stmt) {
                Ok(em) => r is Ok && final(self).env.model() == em,
                Err(f) => r matches Err(e) && reports(e, f),
            },
            r is Err && (stmt is Return || stmt is VarDef || stmt is Assignment || stmt is Expr)
                ==> final(self).env.model() == old(self).env.model(),
        decreases stmt,
    {
        let ghost em = self.env.model();
        match stmt {
            Stmt::Export(inner) => self.check_statement(inner),
            Stmt::Function(func) => {
                let ret = match &func.return_type {
                    Some(r) => Some(self.resolve(r)),
                    None => None,
                };
                let ghost ret_model = match ret {
                    Some(ref t) => Some(t.model()),
                    None => None,
                };
                let mut vars = copy_variables(&self.env.variables);
                let mut i: usize = 0;
                proof {
                    assert(func.params@.take(0) =~= Seq::<Param>::empty());
                }
                while i < func.params.len()
                    invariant
                        self.env.wf(),
                        em == self.env.model(),
                        vars.wf(),
                        i <= func.params@.len(),
                        variables_model(vars.view()) == function_scope(em, func.params@.take(i as int), ret_model).variables,
                    decreases func.params.len() - i,
                {
                    proof {
                        assert(func.params@.take(i + 1).drop_last() =~= func.params@.take(i as int));
                        assert(func.params@.take(i + 1).last() == func.params@[i as int]);
                    }
                    let pt = self.param_type(&func.params[i]);
                    let ghost before = vars.view();
                    vars.insert(func.params[i].name.clone(), (pt, MutabilityView::Mutable));
                    proof {
                        assert(variables_model(vars.view()) =~= variables_model(before).insert(
                            func.params@[i as int].name@,
                            (pt.model(), MutabilityView::Mutable),
                        ));
                    }
                    i = i + 1;
                }
                proof {
                    assert(func.params@.take(func.params@.len() as int) =~= func.params@);
                    lemma_function_scope(em, func.params@, ret_model);
                }
                let mut ret_slot = ret;
                std::mem::swap(&mut self.env.current_return_type, &mut ret_slot);
                std::mem::swap(&mut self.env.variables, &mut vars);
                proof {
                    assert(self.env.model() == function_scope(em, func.params@, ret_model));
                    assert(decreases_to!(stmt => func.body));
                }
                match self.check_body(&func.body) {
                    Err(e) => {
                        return Err(e);
                    },
                    Ok(()) => {},
                }
                self.env.variables = vars;
                self.env.current_return_type = ret_slot;
                Ok(())
            },
            Stmt::Return { value, span } => {
                let vt = match value {
                    Some(e) => self.type_of_expr(e)?,
                    None => Type::NoneType,
                };
                match &self.env.current_return_type {
                    Some(expected) => {
                        let ok = vt.is_subtype_of(expected, &self.env);
                        proof {
                            self.env.lemma_fuel();
                        }
                        if !ok {
                            return Err(return_mismatch(expected, &vt, *span));
                        }
                        Ok(())
                    },
                    None => Ok(()),
                }
            },
            Stmt::VarDef { pattern, type_annotation, value, span, .. } => {
                let iv: Option<Type> = match value {
                    Some(e) => Some(self.type_of_expr(e)?),
                    None => None,
                };
                let target = match type_annotation {
                    Some(t) => {
                        let declared = self.resolve(t);
                        match &iv {
                            Some(v) => {
                                let ok = v.is_subtype_of(&declared, &self.env);
                                proof {
                                    self.env.lemma_fuel();
                                }
                                if !ok {
                                    return Err(var_def_mismatch(&declared, v, *span));
                                }
                            },
                            None => {},
                        }
                        declared
                    },
                    None => match iv {
                        Some(v) => v,
                        None => Type::NoneType,
                    },
                };
                match pattern {
                    Pattern::Ident(name, _) => {
                        let ghost before = self.env.variables.view();
                        self.env.variables.insert(name.clone(), (target, MutabilityView::Mutable));
                        proof {
                            assert(variables_model(self.env.variables.view()) =~= variables_model(before).insert(
                                name@,
                                (target.model(), MutabilityView::Mutable),
                            ));
                        }
                    },
                    _ => {},
                }
                Ok(())
            },
            Stmt::Assignment { target, value, span } => {
                let vt = self.type_of_expr(value)?;
                match target {
                    Expr::Ident { name, .. } => {
                        match self.env.variables.get(name.as_str()) {
                            Some(entry) => {
                                if is_restricted(&entry.1) {
                                    let m = message3(
                                        "cannot reassign to read-only or immutable variable '",
                                        name.as_str(),
                                        "'",
                                    );
                                    return Err(TypeError { message: m, span: *span });
                                }
                                let ok = vt.is_subtype_of(&entry.0, &self.env);
                                proof {
                                    self.env.lemma_fuel();
                                }
                                if !ok {
                                    return Err(assign_mismatch(name, &vt, &entry.0, *span));
                                }
                                Ok(())
                            },
                            None => {
                                let ghost before = self.env.variables.view();
                                self.env.variables.insert(name.clone(), (vt, MutabilityView::Mutable));
                                proof {
                                    assert(variables_model(self.env.variables.view()) =~= variables_model(before).insert(
                                        name@,
                                        (vt.model(), MutabilityView::Mutable),
                                    ));
                                }
                                Ok(())
                            },
                        }
                    },
                    Expr::Attribute { value: obj, attr, .. } => {
                        let ot = self.type_of_expr(obj)?;
                        match &ot {
                            Type::View { mutability, .. } => {
                                if is_restricted(mutability) {
                                    let m = message3(
                                        "cannot mutate attribute '",
                                        attr.as_str(),
                                        "' on read-only/immutable view",
                                    );
                                    return Err(TypeError { message: m, span: *span });
                                }
                                Ok(())
                            },
                            _ => Ok(()),
                        }
                    },
                    _ => Ok(()),
                }
            },
            Stmt::Match { subject, arms, span, .. } => {
                let st = self.type_of_expr(subject)?;
                self.check_match_exhaustiveness(&st, arms, *span)?;
                self.check_match_arms(arms)
            },
            Stmt::If { condition, then_branch, elif_branches, else_branch, .. } => {
                let _ = self.type_of_expr(condition)?;
                self.check_body(then_branch)?;
                self.check_elif_branches(elif_branches)?;
                match else_branch {
                    Some(b) => self.check_body(b),
                    None => Ok(()),
                }
            },
            Stmt::For { target, iterable, body, if_broken, .. } => {
                let it = self.type_of_expr(iterable)?;
                let elem = element_type_of(&it);
                let saved = copy_variables(&self.env.variables);
                match target {
                    Pattern::Ident(name, _) => {
                        let ghost before = self.env.variables.view();
                        self.env.variables.insert(name.clone(), (elem, MutabilityView::Mutable));
                        proof {
                            assert(variables_model(self.env.variables.view()) =~= variables_model(before).insert(
                                name@,
                                (elem.model(), MutabilityView::Mutable),
                            ));
                        }
                    },
                    _ => {},
                }
                self.check_body(body)?;
                self.env.variables = saved;
                match if_broken {
                    Some(b) => self.check_body(b),
                    None => Ok(()),
                }
            },
            Stmt::While { condition, body, if_broken, .. } => {
                let _ = self.type_of_expr(condition)?;
                self.check_body(body)?;
                match if_broken {
                    Some(b) => self.check_body(b),
                    None => Ok(()),
                }
            },
            _ => Ok(()),
        }
    }

    /// Checks statements in order (see `check_block`).
    pub fn check_body(&mut self, ss: &Vec<Stmt>) -> (r: Result<(), TypeError>)
        requires
            old(self).env.wf(),
        ensures
            final(self).env.wf(),
            match check_block(old(self).env.model(), ss@) {
                Ok(em) => r is Ok && final(self).env.model() == em,
                Err(f) => r matches Err(e) && reports(e, f),
            },
        decreases ss,
    {
        let ghost em0 = self.env.model();
        let mut i: usize = 0;
        proof {
            assert(ss@.take(0) =~= Seq::<Stmt>::empty());
        }
        while i < ss.len()
            invariant
                self.env.wf(),
                em0 == old(self).env.model(),
                i <= ss@.len(),
                check_block(em0, ss@.take(i as int)) == Ok::<EnvModel, Failure>(self.env.model()),
            decreases ss.len() - i,
        {
            proof {
                assert(decreases_to!(ss => ss[i as int]));
                assert(ss@.take(i + 1).drop_last() =~= ss@.take(i as int));
                assert(ss@.take(i + 1).last() == ss@[i as int]);
            }
            match self.check_statement(&ss[i]) {
                Err(e) => {
                    proof {
                        lemma_block_err(em0, ss@, i + 1);
                    }
                    return Err(e);
                },
                Ok(()) => {},
            }
            i = i + 1;
        }
        proof {
            assert(ss@.take(ss@.len() as int) =~= ss@);
        }
        Ok(())
    }

    fn check_elif_branches(&mut self, elifs: &Vec<(Expr, Vec<Stmt>)>) -> (r: Result<(), TypeError>)
        requires
            old(self).env.wf(),
        ensures
            final(self).env.wf(),
            match check_elifs(old(self).env.model(), elifs@) {
                Ok(em) => r is Ok && final(self).env.model() == em,
                Err(f) => r matches Err(e) && reports(e, f),
            },
        decreases elifs,
    {
        let ghost em0 = self.env.model();
        let mut i: usize = 0;
        proof {
            assert(elifs@.take(0) =~= Seq::<(Expr, Vec<Stmt>)>::empty());
        }
        while i < elifs.len()
            invariant
                self.env.wf(),
                em0 == old(self).env.model(),
                i <= elifs@.len(),
                check_elifs(em0, elifs@.take(i as int)) == Ok::<EnvModel, Failure>(self.env.model()),
            decreases elifs.len() - i,
        {
            proof {
                assert(decreases_to!(elifs => elifs[i as int]));
                assert(decreases_to!(elifs[i as int] => elifs[i as int].1));
                assert(elifs@.take(i + 1).drop_last() =~= elifs@.take(i as int));
                assert(elifs@.take(i + 1).last() == elifs@[i as int]);
            }
            match self.type_of_expr(&elifs[i].0) {
                Err(e) => {
                    proof {
                        lemma_elifs_err(em0, elifs@, i + 1);
                    }
                    return Err(e);
                },
                Ok(_) => {},
            }
            match self.check_body(&elifs[i].1) {
                Err(e) => {
                    proof {
                        lemma_elifs_err(em0, elifs@, i + 1);
                    }
                    return Err(e);
                },
                Ok(()) => {},
            }
            i = i + 1;
        }
        proof {
            assert(elifs@.take(elifs@.len() as int) =~= elifs@);
        }
        Ok(())
    }

    fn check_match_arms(&mut self, arms: &Vec<MatchArm>) -> (r: Result<(), TypeError>)
        requires
            old(self).env.wf(),
        ensures
            final(self).env.wf(),
            match check_arms(old(self).env.model(), arms@) {
                Ok(em) => r is Ok && final(self).env.model() == em,
                Err(f) => r matches Err(e) && reports(e, f),
            },
        decreases arms,
    {
        let ghost em0 = self.env.model();
        let mut i: usize = 0;
        proof {
            assert(arms@.take(0) =~= Seq::<MatchArm>::empty());
        }
        while i < arms.len()
            invariant
                self.env.wf(),
                em0 == old(self).env.model(),
                i <= arms@.len(),
                check_arms(em0, arms@.take(i as int)) == Ok::<EnvModel, Failure>(self.env.model()),
            decreases arms.len() - i,
        {
            proof {
                assert(decreases_to!(arms => arms[i as int]));
                assert(decreases_to!(arms[i as int] => arms[i as int].body));
                assert(arms@.take(i + 1).drop_last() =~= arms@.take(i as int));
                assert(arms@.take(i + 1).last() == arms@[i as int]);
            }
            match self.check_body(&arms[i].body) {
                Err(e) => {
                    proof {
                        lemma_arms_err(em0, arms@, i + 1);
                    }
                    return Err(e);
                },
                Ok(()) => {},
            }
            i = i + 1;
        }
        proof {
            assert(arms@.take(arms@.len() as int) =~= arms@);
        }
        Ok(())
    }

    /// Checks a module: all declarations are collected, then the class
    /// structure is verified, then every statement is checked (see
    /// `check_module_spec`).
    pub fn check_module(&mut self, module: &Module) -> (r: Result<(), TypeError>)
        requires
            old(self).env.wf(),
        ensures
            final(self).env.wf(),
            match check_module_spec(old(self).env.model(), module.statements@) {
                Ok(em) => r is Ok && final(self).env.model() == em,
                Err(f) => r matches Err(e) && reports(e, f),
            },
    {
        let ghost em0 = self.env.model();
        let ss = &module.statements;
        let mut i: usize = 0;
        proof {
            assert(ss@.take(0) =~= Seq::<Stmt>::empty());
        }
        while i < ss.len()
            invariant
                self.env.wf(),
                em0 == old(self).env.model(),
                ss == &module.statements,
                i <= ss@.len(),
                collect_all(em0, ss@.take(i as int)) == Ok::<EnvModel, Failure>(self.env.model()),
            decreases ss.len() - i,
        {
            proof {
                assert(ss@.take(i + 1).drop_last() =~= ss@.take(i as int));
                assert(ss@.take(i + 1).last() == ss@[i as int]);
            }
            match self.collect_declaration(&ss[i]) {
                Err(e) => {
                    proof {
                        lemma_collect_err(em0, ss@, i + 1);
                    }
                    return Err(e);
                },
                Ok(()) => {},
            }
            i = i + 1;
        }
        proof {
            assert(ss@.take(ss@.len() as int) =~= ss@);
        }
        let ghost em1 = self.env.model();
        let mut i: usize = 0;
        proof {
            assert(ss@.take(0) =~= Seq::<Stmt>::empty());
        }
        while i < ss.len()
            invariant
                self.env.wf(),
                em0 == old(self).env.model(),
                em1 == self.env.model(),
                collect_all(em0, ss@) == Ok::<EnvModel, Failure>(em1),
                ss == &module.statements,
                i <= ss@.len(),
                verify_all(em1, ss@.take(i as int)) is Ok,
            decreases ss.len() - i,
        {
            proof {
                assert(ss@.take(i + 1).drop_last() =~= ss@.take(i as int));
                assert(ss@.take(i + 1).last() == ss@[i as int]);
            }
            match self.verify_structure(&ss[i]) {
                Err(e) => {
                    proof {
                        lemma_verify_err(em1, ss@, i + 1);
                    }
                    return Err(e);
                },
                Ok(()) => {
                    proof {
                        assert(verify_structure(em1, ss@[i as int]) is Ok);
                        assert(verify_all(em1, ss@.take(i + 1)) == verify_structure(em1, ss@[i as int]));
                    }
                },
            }
            i = i + 1;
        }
        proof {
            assert(ss@.take(ss@.len() as int) =~= ss@);
        }
        self.check_body(ss)
    }
}

} // verus!
