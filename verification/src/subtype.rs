use vstd::prelude::*;
use crate::ast::MutabilityView;
use crate::checker::TypeEnvironment;
use crate::types::{Type, TypeModel, bare_class, models, lemma_models, texts, text_in, types_equal};

verus! {

/// The number of union and view layers of a type, plus one.
pub open spec fn size(t: TypeModel) -> nat
    decreases t,
{
    match t {
        TypeModel::Union(members) => 1 + sizes(members),
        TypeModel::View { inner, .. } => 1 + size(*inner),
        _ => 1,
    }
}

pub open spec fn sizes(v: Seq<TypeModel>) -> nat
    decreases v,
{
    if v.len() == 0 {
        0
    } else {
        sizes(v.drop_last()) + size(v.last())
    }
}

pub proof fn lemma_size_positive(t: TypeModel)
    ensures
        size(t) >= 1,
{
}

pub proof fn lemma_sizes_member(v: Seq<TypeModel>, i: int)
    requires
        0 <= i < v.len(),
    ensures
        size(v[i]) <= sizes(v),
    decreases v.len(),
{
    if i < v.len() - 1 {
        lemma_sizes_member(v.drop_last(), i);
        assert(v.drop_last()[i] == v[i]);
    }
}

/// Whether `s` is a subtype of `t`, where `classes` and `traits` give the
/// declared classes and traits by name and `fuel` bounds the number of
/// lookups in them (with no fuel left, a lookup answers `false`):
/// - every type is a subtype of itself, and `Never` of every type;
/// - a union is a subtype of `t` when each member is;
/// - `s` is a subtype of a union when it is a subtype of some member;
/// - `!T` is a subtype of `&U` when `T` is a subtype of `U`, and a class is a
///   subtype of `&U` when the bare class of the same name is a subtype of `U`;
/// - a class is a subtype of a class of the same name, of its parent, and of
///   whatever its parent (looked up by name) is a subtype of;
/// - a class is a subtype of an interface that it lists, or that one of its
///   traits (looked up by name) is a subtype of;
/// - a class is a subtype of each trait that it lists.
pub open spec fn subtype(
    classes: Map<Seq<char>, TypeModel>,
    traits: Map<Seq<char>, TypeModel>,
    s: TypeModel,
    t: TypeModel,
    fuel: nat,
) -> bool
    decreases fuel, size(s) + size(t), 0nat,
{
    if s == t {
        true
    } else {
        match s {
            TypeModel::Never => true,
            TypeModel::Union(members) => all_subtype(classes, traits, members, t, fuel),
            _ => match t {
                TypeModel::Union(targets) => any_subtype(classes, traits, s, targets, fuel),
                TypeModel::View { mutability: MutabilityView::ReadOnly, inner: target_inner } => {
                    match s {
                        TypeModel::View { mutability: MutabilityView::Immutable, inner } => {
                            subtype(classes, traits, *inner, *target_inner, fuel)
                        },
                        TypeModel::Class { name, .. } => {
                            subtype(classes, traits, bare_class(name), *target_inner, fuel)
                        },
                        _ => false,
                    }
                },
                TypeModel::Class { name: target_name, .. } => {
                    match s {
                        TypeModel::Class { name, parent, .. } => {
                            name == target_name || match parent {
                                Some(p) => p == target_name || (fuel > 0 && classes.contains_key(p)
                                    && subtype(classes, traits, classes[p], t, (fuel - 1) as nat)),
                                None => false,
                            }
                        },
                        _ => false,
                    }
                },
                TypeModel::Interface { name: target_name, .. } => {
                    match s {
                        TypeModel::Class { traits: class_traits, interfaces, .. } => {
                            interfaces.contains(target_name) || {
                                proof {
                                    lemma_size_positive(s);
                                }
                                via_traits(classes, traits, class_traits, t, fuel)
                            }
                        },
                        _ => false,
                    }
                },
                TypeModel::Trait { name: target_name, .. } => {
                    match s {
                        TypeModel::Class { traits: class_traits, .. } => class_traits.contains(target_name),
                        _ => false,
                    }
                },
                _ => false,
            },
        }
    }
}

/// Whether each of `members` is a subtype of `t`.
pub open spec fn all_subtype(
    classes: Map<Seq<char>, TypeModel>,
    traits: Map<Seq<char>, TypeModel>,
    members: Seq<TypeModel>,
    t: TypeModel,
    fuel: nat,
) -> bool
    decreases fuel, sizes(members) + size(t), 1nat,
{
    if members.len() == 0 {
        true
    } else {
        proof {
            lemma_size_positive(members.last());
        }
        all_subtype(classes, traits, members.drop_last(), t, fuel)
            && subtype(classes, traits, members.last(), t, fuel)
    }
}

/// Whether `s` is a subtype of some of `targets`.
pub open spec fn any_subtype(
    classes: Map<Seq<char>, TypeModel>,
    traits: Map<Seq<char>, TypeModel>,
    s: TypeModel,
    targets: Seq<TypeModel>,
    fuel: nat,
) -> bool
    decreases fuel, size(s) + sizes(targets), 1nat,
{
    if targets.len() == 0 {
        false
    } else {
        proof {
            lemma_size_positive(targets.last());
        }
        any_subtype(classes, traits, s, targets.drop_last(), fuel)
            || subtype(classes, traits, s, targets.last(), fuel)
    }
}

/// Whether one of the traits named in `names`, looked up in `traits`, is a
/// subtype of `t` (each lookup takes one unit of fuel).
pub open spec fn via_traits(
    classes: Map<Seq<char>, TypeModel>,
    traits: Map<Seq<char>, TypeModel>,
    names: Seq<Seq<char>>,
    t: TypeModel,
    fuel: nat,
) -> bool
    decreases fuel, 0nat, names.len(),
{
    if names.len() == 0 {
        false
    } else {
        via_traits(classes, traits, names.drop_last(), t, fuel) || (fuel > 0 && traits.contains_key(
            names.last(),
        ) && subtype(classes, traits, traits[names.last()], t, (fuel - 1) as nat))
    }
}

pub proof fn lemma_all_subtype(
    classes: Map<Seq<char>, TypeModel>,
    traits: Map<Seq<char>, TypeModel>,
    members: Seq<TypeModel>,
    t: TypeModel,
    fuel: nat,
)
    ensures
        all_subtype(classes, traits, members, t, fuel) <==> forall|i: int|
            0 <= i < members.len() ==> #[trigger] subtype(classes, traits, members[i], t, fuel),
    decreases members.len(),
{
    if members.len() > 0 {
        let d = members.drop_last();
        lemma_all_subtype(classes, traits, d, t, fuel);
        if all_subtype(classes, traits, members, t, fuel) {
            assert forall|i: int| 0 <= i < members.len() implies #[trigger] subtype(
                classes,
                traits,
                members[i],
                t,
                fuel,
            ) by {
                if i < members.len() - 1 {
                    assert(d[i] == members[i]);
                }
            }
        }
        if forall|i: int| 0 <= i < members.len() ==> #[trigger] subtype(classes, traits, members[i], t, fuel) {
            assert forall|i: int| 0 <= i < d.len() implies #[trigger] subtype(classes, traits, d[i], t, fuel) by {
                assert(d[i] == members[i]);
            }
            assert(subtype(classes, traits, members[members.len() - 1], t, fuel));
        }
    }
}

pub proof fn lemma_any_subtype(
    classes: Map<Seq<char>, TypeModel>,
    traits: Map<Seq<char>, TypeModel>,
    s: TypeModel,
    targets: Seq<TypeModel>,
    fuel: nat,
)
    ensures
        any_subtype(classes, traits, s, targets, fuel) <==> exists|i: int|
            0 <= i < targets.len() && #[trigger] subtype(classes, traits, s, targets[i], fuel),
    decreases targets.len(),
{
    if targets.len() > 0 {
        let d = targets.drop_last();
        lemma_any_subtype(classes, traits, s, d, fuel);
        if any_subtype(classes, traits, s, d, fuel) {
            let i = choose|i: int| 0 <= i < d.len() && #[trigger] subtype(classes, traits, s, d[i], fuel);
            assert(d[i] == targets[i]);
            assert(subtype(classes, traits, s, targets[i], fuel));
        }
        if subtype(classes, traits, s, targets.last(), fuel) {
            assert(subtype(classes, traits, s, targets[targets.len() - 1], fuel));
        }
        if exists|i: int| 0 <= i < targets.len() && #[trigger] subtype(classes, traits, s, targets[i], fuel) {
            let i = choose|i: int| 0 <= i < targets.len() && #[trigger] subtype(classes, traits, s, targets[i], fuel);
            if i < targets.len() - 1 {
                assert(d[i] == targets[i]);
                assert(subtype(classes, traits, s, d[i], fuel));
            }
        }
    }
}

pub proof fn lemma_via_traits(
    classes: Map<Seq<char>, TypeModel>,
    traits: Map<Seq<char>, TypeModel>,
    names: Seq<Seq<char>>,
    t: TypeModel,
    fuel: nat,
)
    ensures
        via_traits(classes, traits, names, t, fuel) <==> exists|i: int|
            0 <= i < names.len() && fuel > 0 && traits.contains_key(#[trigger] names[i]) && subtype(
                classes,
                traits,
                traits[names[i]],
                t,
                (fuel - 1) as nat,
            ),
    decreases names.len(),
{
    if names.len() > 0 {
        let d = names.drop_last();
        lemma_via_traits(classes, traits, d, t, fuel);
        if via_traits(classes, traits, d, t, fuel) {
            let i = choose|i: int|
                0 <= i < d.len() && fuel > 0 && traits.contains_key(#[trigger] d[i]) && subtype(
                    classes,
                    traits,
                    traits[d[i]],
                    t,
                    (fuel - 1) as nat,
                );
            assert(d[i] == names[i]);
        }
        if exists|i: int|
            0 <= i < names.len() && fuel > 0 && traits.contains_key(#[trigger] names[i]) && subtype(
                classes,
                traits,
                traits[names[i]],
                t,
                (fuel - 1) as nat,
            ) {
            let i = choose|i: int|
                0 <= i < names.len() && fuel > 0 && traits.contains_key(#[trigger] names[i]) && subtype(
                    classes,
                    traits,
                    traits[names[i]],
                    t,
                    (fuel - 1) as nat,
                );
            if i < names.len() - 1 {
                assert(d[i] == names[i]);
            }
        }
    }
}

impl Type {
    /// Whether this type is a subtype of `target` in `env`: the relation
    /// `subtype` over the declared classes and traits, with as many lookups
    /// as there are declared classes and traits, plus one.
    pub fn is_subtype_of(&self, target: &Type, env: &TypeEnvironment) -> (r: bool)
        requires
            env.wf(),
        ensures
            r == subtype(env.class_models(), env.trait_models(), self.model(), target.model(), env.lookup_fuel()),
    {
        let fuel = env.classes.len().saturating_add(env.traits.len()).saturating_add(1);
        self.subtype_with_fuel(target, env, fuel)
    }

    /// Whether this type is a subtype of `target` in `env` with `fuel` lookups.
    #[verifier::loop_isolation(false)]
    pub fn subtype_with_fuel(&self, target: &Type, env: &TypeEnvironment, fuel: usize) -> (r: bool)
        requires
            env.wf(),
        ensures
            r == subtype(env.class_models(), env.trait_models(), self.model(), target.model(), fuel as nat),
        decreases fuel, size(self.model()) + size(target.model()), 0nat,
    {
        let ghost classes = env.class_models();
        let ghost traits = env.trait_models();
        let ghost sm = self.model();
        let ghost tm = target.model();
        if types_equal(self, target) {
            return true;
        }
        match self {
            Type::Never => {
                return true;
            },
            Type::Union(members) => {
                proof {
                    lemma_models(members@);
                    lemma_all_subtype(classes, traits, models(members@), tm, fuel as nat);
                }
                let mut i: usize = 0;
                while i < members.len()
                    invariant
                        i <= members@.len(),
                        forall|j: int| 0 <= j < i ==> #[trigger] subtype(classes, traits, models(members@)[j], tm, fuel as nat),
                    decreases members.len() - i,
                {
                    proof {
                        lemma_sizes_member(models(members@), i as int);
                        assert(models(members@)[i as int] == members@[i as int].model());
                    }
                    if !members[i].subtype_with_fuel(target, env, fuel) {
                        return false;
                    }
                    i = i + 1;
                }
                return true;
            },
            _ => {},
        }
        match target {
            Type::Union(targets) => {
                proof {
                    lemma_models(targets@);
                    lemma_any_subtype(classes, traits, sm, models(targets@), fuel as nat);
                }
                let mut i: usize = 0;
                while i < targets.len()
                    invariant
                        i <= targets@.len(),
                        forall|j: int| 0 <= j < i ==> !#[trigger] subtype(classes, traits, sm, models(targets@)[j], fuel as nat),
                    decreases targets.len() - i,
                {
                    proof {
                        lemma_sizes_member(models(targets@), i as int);
                        assert(models(targets@)[i as int] == targets@[i as int].model());
                    }
                    if self.subtype_with_fuel(&targets[i], env, fuel) {
                        return true;
                    }
                    i = i + 1;
                }
                return false;
            },
            Type::View { mutability: MutabilityView::ReadOnly, inner: target_inner } => {
                match self {
                    Type::View { mutability: MutabilityView::Immutable, inner } => {
                        return inner.subtype_with_fuel(target_inner, env, fuel);
                    },
                    Type::Class { name, .. } => {
                        let type_args: Vec<Type> = Vec::new();
                        let bare_traits: Vec<String> = Vec::new();
                        let bare_interfaces: Vec<String> = Vec::new();
                        let fields: Vec<(String, Type)> = Vec::new();
                        proof {
                            assert(models(type_args@) =~= Seq::<TypeModel>::empty());
                            assert(texts(bare_traits@) =~= Seq::<Seq<char>>::empty());
                            assert(texts(bare_interfaces@) =~= Seq::<Seq<char>>::empty());
                            assert(crate::types::field_map(fields@) =~= Map::<Seq<char>, TypeModel>::empty());
                        }
                        let bare = Type::Class {
                            name: name.clone(),
                            type_args,
                            parent: None,
                            traits: bare_traits,
                            interfaces: bare_interfaces,
                            fields,
                            is_sealed: false,
                        };
                        proof {
                            assert(bare.model() == bare_class(name@));
                        }
                        return bare.subtype_with_fuel(target_inner, env, fuel);
                    },
                    _ => {
                        return false;
                    },
                }
            },
            Type::Class { name: target_name, .. } => {
                match self {
                    Type::Class { name, parent, .. } => {
                        if crate::table::str_equal(name.as_str(), target_name.as_str()) {
                            return true;
                        }
                        match parent {
                            Some(p) => {
                                if crate::table::str_equal(p.as_str(), target_name.as_str()) {
                                    return true;
                                }
                                if fuel == 0 {
                                    return false;
                                }
                                match env.classes.get(p.as_str()) {
                                    Some(parent_type) => {
                                        return parent_type.subtype_with_fuel(target, env, fuel - 1);
                                    },
                                    None => {
                                        return false;
                                    },
                                }
                            },
                            None => {
                                return false;
                            },
                        }
                    },
                    _ => {
                        return false;
                    },
                }
            },
            Type::Interface { name: target_name, .. } => {
                match self {
                    Type::Class { traits: class_traits, interfaces, .. } => {
                        if text_in(interfaces, target_name.as_str()) {
                            return true;
                        }
                        proof {
                            lemma_via_traits(classes, traits, texts(class_traits@), tm, fuel as nat);
                            crate::types::lemma_texts(class_traits@);
                        }
                        if fuel == 0 {
                            return false;
                        }
                        let mut i: usize = 0;
                        while i < class_traits.len()
                            invariant
                                i <= class_traits@.len(),
                                forall|j: int| 0 <= j < i ==> !(traits.contains_key(#[trigger] texts(class_traits@)[j])
                                    && subtype(classes, traits, traits[texts(class_traits@)[j]], tm, (fuel - 1) as nat)),
                            decreases class_traits.len() - i,
                        {
                            match env.traits.get(class_traits[i].as_str()) {
                                Some(trait_type) => {
                                    if trait_type.subtype_with_fuel(target, env, fuel - 1) {
                                        proof {
                                            let k = texts(class_traits@)[i as int];
                                            assert(k == class_traits@[i as int]@);
                                            assert(traits.contains_key(k));
                                            assert(traits[k] == trait_type.model());
                                        }
                                        return true;
                                    }
                                },
                                None => {},
                            }
                            i = i + 1;
                        }
                        return false;
                    },
                    _ => {
                        return false;
                    },
                }
            },
            Type::Trait { name: target_name, .. } => {
                match self {
                    Type::Class { traits: class_traits, .. } => {
                        return text_in(class_traits, target_name.as_str());
                    },
                    _ => {
                        return false;
                    },
                }
            },
            _ => {
                return false;
            },
        }
    }
}

/// Every type is a subtype of itself.
pub proof fn law_subtype_reflexive(
    classes: Map<Seq<char>, TypeModel>,
    traits: Map<Seq<char>, TypeModel>,
    t: TypeModel,
    fuel: nat,
)
    ensures
        subtype(classes, traits, t, t, fuel),
{
}

/// `Never` is a subtype of every type.
pub proof fn law_never_is_bottom(
    classes: Map<Seq<char>, TypeModel>,
    traits: Map<Seq<char>, TypeModel>,
    t: TypeModel,
    fuel: nat,
)
    ensures
        subtype(classes, traits, TypeModel::Never, t, fuel),
{
}

/// An immutable view `!T` is a subtype of the read-only view `&T`.
pub proof fn law_frozen_below_read_only(
    classes: Map<Seq<char>, TypeModel>,
    traits: Map<Seq<char>, TypeModel>,
    t: TypeModel,
    fuel: nat,
)
    ensures
        subtype(
            classes,
            traits,
            TypeModel::View { mutability: MutabilityView::Immutable, inner: Box::new(t) },
            TypeModel::View { mutability: MutabilityView::ReadOnly, inner: Box::new(t) },
            fuel,
        ),
{
    assert(subtype(classes, traits, t, t, fuel));
}

/// A class is a subtype of the read-only view of a class of the same name:
/// a mutable value may be passed where a read-only one is expected.
pub proof fn law_class_below_read_only(
    classes: Map<Seq<char>, TypeModel>,
    traits: Map<Seq<char>, TypeModel>,
    c: TypeModel,
    d: TypeModel,
    fuel: nat,
)
    requires
        c is Class,
        d is Class,
        c->Class_name == d->Class_name,
    ensures
        subtype(classes, traits, c, TypeModel::View { mutability: MutabilityView::ReadOnly, inner: Box::new(d) }, fuel),
{
    let b = bare_class(c->Class_name);
    assert(subtype(classes, traits, b, d, fuel));
}

/// A view is never a subtype of a class: a read-only or immutable value
/// cannot be passed where the class itself (which may be mutated) is
/// expected.
pub proof fn law_view_not_below_class(
    classes: Map<Seq<char>, TypeModel>,
    traits: Map<Seq<char>, TypeModel>,
    m: MutabilityView,
    t: TypeModel,
    c: TypeModel,
    fuel: nat,
)
    requires
        c is Class,
    ensures
        !subtype(classes, traits, TypeModel::View { mutability: m, inner: Box::new(t) }, c, fuel),
{
}

/// A union is a subtype of a type other than itself exactly when each of
/// its members is.
pub proof fn law_union_below(
    classes: Map<Seq<char>, TypeModel>,
    traits: Map<Seq<char>, TypeModel>,
    members: Seq<TypeModel>,
    t: TypeModel,
    fuel: nat,
)
    requires
        TypeModel::Union(members) != t,
    ensures
        subtype(classes, traits, TypeModel::Union(members), t, fuel) <==> forall|i: int|
            0 <= i < members.len() ==> #[trigger] subtype(classes, traits, members[i], t, fuel),
{
    lemma_all_subtype(classes, traits, members, t, fuel);
}

/// Each member of a union that is not itself a union is a subtype of the
/// union.
pub proof fn law_member_below_union(
    classes: Map<Seq<char>, TypeModel>,
    traits: Map<Seq<char>, TypeModel>,
    members: Seq<TypeModel>,
    i: int,
    fuel: nat,
)
    requires
        0 <= i < members.len(),
        !(members[i] is Union),
    ensures
        subtype(classes, traits, members[i], TypeModel::Union(members), fuel),
{
    let s = members[i];
    if s != TypeModel::Union(members) && !(s is Never) {
        lemma_any_subtype(classes, traits, s, members, fuel);
        assert(subtype(classes, traits, s, members[i], fuel));
    }
}

/// A class is a subtype of its parent class (named by the parent's name),
/// of each interface it lists and of each trait it lists.
pub proof fn law_class_below_its_bases(
    classes: Map<Seq<char>, TypeModel>,
    traits: Map<Seq<char>, TypeModel>,
    c: TypeModel,
    target: TypeModel,
    fuel: nat,
)
    requires
        c is Class,
        (target is Class && c->Class_parent == Some(target->Class_name)) || (target is Interface
            && c->Class_interfaces.contains(target->Interface_name)) || (target is Trait
            && c->Class_traits.contains(target->Trait_name)),
    ensures
        subtype(classes, traits, c, target, fuel),
{
}

/// A class is below a trait exactly when it lists that trait: a class that
/// does not list trait `T` is not a subtype of `T`.
pub proof fn law_class_below_trait_iff_listed(
    classes: Map<Seq<char>, TypeModel>,
    traits: Map<Seq<char>, TypeModel>,
    c: TypeModel,
    t: TypeModel,
    fuel: nat,
)
    requires
        c is Class,
        t is Trait,
    ensures
        subtype(classes, traits, c, t, fuel) <==> c->Class_traits.contains(t->Trait_name),
{
}

/// A class without a parent is below another class only when the two have
/// the same name.
pub proof fn law_parentless_class_below_class(
    classes: Map<Seq<char>, TypeModel>,
    traits: Map<Seq<char>, TypeModel>,
    c: TypeModel,
    t: TypeModel,
    fuel: nat,
)
    requires
        c is Class,
        c->Class_parent is None,
        t is Class,
    ensures
        subtype(classes, traits, c, t, fuel) <==> (c == t || c->Class_name == t->Class_name),
{
}

} // verus!
