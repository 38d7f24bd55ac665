use vstd::prelude::*;
use crate::ast::MutabilityView;

verus! {

/// A type of the Lucid type system.
///
/// The fields of a class are kept as a list of (name, type) entries; a later
/// entry for a name overrides an earlier one, so the list stands for a map.
/// The method names of interfaces and traits stand for a set.
#[derive(Debug)]
pub enum Type {
    Int,
    Float,
    Bool,
    Str,
    NoneType,
    Never,
    Class {
        name: String,
        type_args: Vec<Type>,
        parent: Option<String>,
        traits: Vec<String>,
        interfaces: Vec<String>,
        fields: Vec<(String, Type)>,
        is_sealed: bool,
    },
    Interface {
        name: String,
        type_args: Vec<Type>,
        methods: Vec<String>,
    },
    Trait {
        name: String,
        type_args: Vec<Type>,
        methods: Vec<String>,
    },
    Record(Vec<(Option<String>, Type)>),
    Function {
        params: Vec<Type>,
        return_type: Box<Type>,
    },
    Union(Vec<Type>),
    View {
        mutability: MutabilityView,
        inner: Box<Type>,
    },
    TypeVar(String),
}

/// The mathematical value of a `Type`: texts for names, a map for class
/// fields and a set for method names. Two types are equal exactly when their
/// models are.
pub enum TypeModel {
    Int,
    Float,
    Bool,
    Str,
    NoneType,
    Never,
    Class {
        name: Seq<char>,
        type_args: Seq<TypeModel>,
        parent: Option<Seq<char>>,
        traits: Seq<Seq<char>>,
        interfaces: Seq<Seq<char>>,
        fields: Map<Seq<char>, TypeModel>,
        is_sealed: bool,
    },
    Interface {
        name: Seq<char>,
        type_args: Seq<TypeModel>,
        methods: Set<Seq<char>>,
    },
    Trait {
        name: Seq<char>,
        type_args: Seq<TypeModel>,
        methods: Set<Seq<char>>,
    },
    Record(Seq<(Option<Seq<char>>, TypeModel)>),
    Function {
        params: Seq<TypeModel>,
        ret: Box<TypeModel>,
    },
    Union(Seq<TypeModel>),
    View {
        mutability: MutabilityView,
        inner: Box<TypeModel>,
    },
    TypeVar(Seq<char>),
}

pub open spec fn texts(s: Seq<String>) -> Seq<Seq<char>> {
    s.map_values(|x: String| x@)
}

pub open spec fn opt_text(o: Option<String>) -> Option<Seq<char>> {
    match o {
        Some(x) => Some(x@),
        None => None,
    }
}

impl Type {
    pub open spec fn model(self) -> TypeModel
        decreases self,
    {
        match self {
            Type::Int => TypeModel::Int,
            Type::Float => TypeModel::Float,
            Type::Bool => TypeModel::Bool,
            Type::Str => TypeModel::Str,
            Type::NoneType => TypeModel::NoneType,
            Type::Never => TypeModel::Never,
            Type::Class { name, type_args, parent, traits, interfaces, fields, is_sealed } => {
                TypeModel::Class {
                    name: name@,
                    type_args: models(type_args@),
                    parent: opt_text(parent),
                    traits: texts(traits@),
                    interfaces: texts(interfaces@),
                    fields: field_map(fields@),
                    is_sealed,
                }
            },
            Type::Interface { name, type_args, methods } => TypeModel::Interface {
                name: name@,
                type_args: models(type_args@),
                methods: texts(methods@).to_set(),
            },
            Type::Trait { name, type_args, methods } => TypeModel::Trait {
                name: name@,
                type_args: models(type_args@),
                methods: texts(methods@).to_set(),
            },
            Type::Record(entries) => TypeModel::Record(record_models(entries@)),
            Type::Function { params, return_type } => TypeModel::Function {
                params: models(params@),
                ret: Box::new((*return_type).model()),
            },
            Type::Union(members) => TypeModel::Union(models(members@)),
            Type::View { mutability, inner } => TypeModel::View {
                mutability,
                inner: Box::new((*inner).model()),
            },
            Type::TypeVar(name) => TypeModel::TypeVar(name@),
        }
    }
}

/// The models of a list of types.
pub open spec fn models(s: Seq<Type>) -> Seq<TypeModel>
    decreases s,
{
    if s.len() == 0 {
        Seq::empty()
    } else {
        models(s.drop_last()).push(s.last().model())
    }
}

/// Class fields as a map; a later entry for a name overrides an earlier one.
pub open spec fn field_map(s: Seq<(String, Type)>) -> Map<Seq<char>, TypeModel>
    decreases s,
{
    if s.len() == 0 {
        Map::empty()
    } else {
        field_map(s.drop_last()).insert(s.last().0@, s.last().1.model())
    }
}

pub open spec fn record_models(s: Seq<(Option<String>, Type)>) -> Seq<(Option<Seq<char>>, TypeModel)>
    decreases s,
{
    if s.len() == 0 {
        Seq::empty()
    } else {
        record_models(s.drop_last()).push((opt_text(s.last().0), s.last().1.model()))
    }
}

pub proof fn lemma_models(s: Seq<Type>)
    ensures
        models(s).len() == s.len(),
        forall|i: int| 0 <= i < s.len() ==> #[trigger] models(s)[i] == s[i].model(),
    decreases s.len(),
{
    if s.len() > 0 {
        lemma_models(s.drop_last());
        assert forall|i: int| 0 <= i < s.len() implies #[trigger] models(s)[i] == s[i].model() by {
            if i < s.len() - 1 {
                assert(s.drop_last()[i] == s[i]);
            }
        }
    }
}

pub proof fn lemma_record_models(s: Seq<(Option<String>, Type)>)
    ensures
        record_models(s).len() == s.len(),
        forall|i: int| 0 <= i < s.len() ==> #[trigger] record_models(s)[i] == (opt_text(s[i].0), s[i].1.model()),
    decreases s.len(),
{
    if s.len() > 0 {
        lemma_record_models(s.drop_last());
        assert forall|i: int| 0 <= i < s.len() implies #[trigger] record_models(s)[i] == (opt_text(s[i].0), s[i].1.model()) by {
            if i < s.len() - 1 {
                assert(s.drop_last()[i] == s[i]);
            }
        }
    }
}

/// Whether `j` is the last index of `s` whose key is `k`.
pub open spec fn last_key_index(s: Seq<(String, Type)>, k: Seq<char>, j: int) -> bool {
    &&& 0 <= j < s.len()
    &&& s[j].0@ == k
    &&& forall|i: int| j < i < s.len() ==> #[trigger] s[i].0@ != k
}

pub proof fn lemma_field_map_last(s: Seq<(String, Type)>, k: Seq<char>, j: int)
    requires
        last_key_index(s, k, j),
    ensures
        field_map(s).contains_key(k),
        field_map(s)[k] == s[j].1.model(),
    decreases s.len(),
{
    if j < s.len() - 1 {
        let d = s.drop_last();
        assert(s[s.len() - 1].0@ != k);
        assert(d[j] == s[j]);
        assert forall|i: int| j < i < d.len() implies #[trigger] d[i].0@ != k by {
            assert(d[i] == s[i]);
        }
        lemma_field_map_last(d, k, j);
    }
}

pub proof fn lemma_field_map_absent(s: Seq<(String, Type)>, k: Seq<char>)
    requires
        forall|i: int| 0 <= i < s.len() ==> #[trigger] s[i].0@ != k,
    ensures
        !field_map(s).contains_key(k),
    decreases s.len(),
{
    if s.len() > 0 {
        let d = s.drop_last();
        assert forall|i: int| 0 <= i < d.len() implies #[trigger] d[i].0@ != k by {
            assert(d[i] == s[i]);
        }
        assert(s[s.len() - 1].0@ != k);
        lemma_field_map_absent(d, k);
    }
}

pub proof fn lemma_field_map_keys(s: Seq<(String, Type)>, k: Seq<char>)
    requires
        field_map(s).contains_key(k),
    ensures
        exists|i: int| 0 <= i < s.len() && #[trigger] s[i].0@ == k,
{
    if forall|i: int| 0 <= i < s.len() ==> #[trigger] s[i].0@ != k {
        lemma_field_map_absent(s, k);
    }
}

pub proof fn lemma_texts(s: Seq<String>)
    ensures
        texts(s).len() == s.len(),
        forall|i: int| 0 <= i < s.len() ==> #[trigger] texts(s)[i] == s[i]@,
{
}

/// The model of a class with the given name and nothing else.
pub open spec fn bare_class(name: Seq<char>) -> TypeModel {
    TypeModel::Class {
        name,
        type_args: Seq::empty(),
        parent: None,
        traits: Seq::empty(),
        interfaces: Seq::empty(),
        fields: Map::empty(),
        is_sealed: false,
    }
}

fn copy_texts(v: &Vec<String>) -> (r: Vec<String>)
    ensures
        r@ == v@,
{
    let mut out: Vec<String> = Vec::new();
    let mut i: usize = 0;
    while i < v.len()
        invariant
            i <= v@.len(),
            out@ == v@.take(i as int),
        decreases v.len() - i,
    {
        out.push(v[i].clone());
        proof {
            assert(out@ =~= v@.take(i + 1));
        }
        i = i + 1;
    }
    proof {
        assert(out@ =~= v@);
    }
    out
}

fn copy_opt_text(o: &Option<String>) -> (r: Option<String>)
    ensures
        r == *o,
{
    match o {
        Some(x) => Some(x.clone()),
        None => None,
    }
}

fn copy_mutability(m: &MutabilityView) -> (r: MutabilityView)
    ensures
        r == *m,
{
    match m {
        MutabilityView::Mutable => MutabilityView::Mutable,
        MutabilityView::ReadOnly => MutabilityView::ReadOnly,
        MutabilityView::Immutable => MutabilityView::Immutable,
    }
}

/// A copy of each type in a list.
pub fn copy_types(v: &Vec<Type>) -> (r: Vec<Type>)
    ensures
        models(r@) == models(v@),
    decreases v,
{
    let mut out: Vec<Type> = Vec::new();
    let mut i: usize = 0;
    while i < v.len()
        invariant
            i <= v@.len(),
            models(out@) == models(v@.take(i as int)),
        decreases v.len() - i,
    {
        proof {
            assert(decreases_to!(v => v[i as int]));
        }
        let t = v[i].duplicate();
        let ghost before = out@;
        out.push(t);
        proof {
            assert(out@.drop_last() =~= before);
            assert(v@.take(i + 1).drop_last() =~= v@.take(i as int));
        }
        i = i + 1;
    }
    proof {
        assert(v@.take(v@.len() as int) =~= v@);
    }
    out
}

impl Type {
    /// A deep copy of the type.
    #[verifier::loop_isolation(false)]
    pub fn duplicate(&self) -> (r: Type)
        ensures
            r.model() == self.model(),
        decreases self,
    {
        match self {
            Type::Int => Type::Int,
            Type::Float => Type::Float,
            Type::Bool => Type::Bool,
            Type::Str => Type::Str,
            Type::NoneType => Type::NoneType,
            Type::Never => Type::Never,
            Type::Class { name, type_args, parent, traits, interfaces, fields, is_sealed } => {
                let mut fs: Vec<(String, Type)> = Vec::new();
                let mut i: usize = 0;
                while i < fields.len()
                    invariant
                        i <= fields@.len(),
                        field_map(fs@) == field_map(fields@.take(i as int)),
                    decreases fields.len() - i,
                {
                    proof {
                        assert(decreases_to!(fields => fields[i as int]));
                        assert(decreases_to!(fields[i as int] => fields[i as int].1));
                    }
                    let t = fields[i].1.duplicate();
                    let k = fields[i].0.clone();
                    let ghost before = fs@;
                    fs.push((k, t));
                    proof {
                        assert(fs@.drop_last() =~= before);
                        assert(fields@.take(i + 1).drop_last() =~= fields@.take(i as int));
                    }
                    i = i + 1;
                }
                proof {
                    assert(fields@.take(fields@.len() as int) =~= fields@);
                }
                Type::Class {
                    name: name.clone(),
                    type_args: copy_types(type_args),
                    parent: copy_opt_text(parent),
                    traits: copy_texts(traits),
                    interfaces: copy_texts(interfaces),
                    fields: fs,
                    is_sealed: *is_sealed,
                }
            },
            Type::Interface { name, type_args, methods } => Type::Interface {
                name: name.clone(),
                type_args: copy_types(type_args),
                methods: copy_texts(methods),
            },
            Type::Trait { name, type_args, methods } => Type::Trait {
                name: name.clone(),
                type_args: copy_types(type_args),
                methods: copy_texts(methods),
            },
            Type::Record(entries) => {
                let mut es: Vec<(Option<String>, Type)> = Vec::new();
                let mut i: usize = 0;
                while i < entries.len()
                    invariant
                        i <= entries@.len(),
                        record_models(es@) == record_models(entries@.take(i as int)),
                    decreases entries.len() - i,
                {
                    proof {
                        assert(decreases_to!(entries => entries[i as int]));
                        assert(decreases_to!(entries[i as int] => entries[i as int].1));
                    }
                    let t = entries[i].1.duplicate();
                    let k = copy_opt_text(&entries[i].0);
                    let ghost before = es@;
                    es.push((k, t));
                    proof {
                        assert(es@.drop_last() =~= before);
                        assert(entries@.take(i + 1).drop_last() =~= entries@.take(i as int));
                    }
                    i = i + 1;
                }
                proof {
                    assert(entries@.take(entries@.len() as int) =~= entries@);
                }
                Type::Record(es)
            },
            Type::Function { params, return_type } => Type::Function {
                params: copy_types(params),
                return_type: Box::new(return_type.duplicate()),
            },
            Type::Union(members) => Type::Union(copy_types(members)),
            Type::View { mutability, inner } => Type::View {
                mutability: copy_mutability(mutability),
                inner: Box::new(inner.duplicate()),
            },
            Type::TypeVar(name) => Type::TypeVar(name.clone()),
        }
    }
}

/// Whether the text `k` occurs in `v`.
pub fn text_in(v: &Vec<String>, k: &str) -> (r: bool)
    ensures
        r == texts(v@).contains(k@),
{
    let mut i: usize = 0;
    while i < v.len()
        invariant
            i <= v@.len(),
            forall|j: int| 0 <= j < i ==> #[trigger] v@[j]@ != k@,
        decreases v.len() - i,
    {
        if crate::table::str_equal(v[i].as_str(), k) {
            proof {
                assert(texts(v@)[i as int] == k@);
            }
            return true;
        }
        i = i + 1;
    }
    proof {
        if texts(v@).contains(k@) {
            let j = choose|j: int| 0 <= j < texts(v@).len() && texts(v@)[j] == k@;
            assert(v@[j]@ == k@);
        }
    }
    false
}

fn texts_equal(a: &Vec<String>, b: &Vec<String>) -> (r: bool)
    ensures
        r == (texts(a@) == texts(b@)),
{
    if a.len() != b.len() {
        proof {
            assert(texts(a@).len() != texts(b@).len());
        }
        return false;
    }
    let mut i: usize = 0;
    while i < a.len()
        invariant
            a@.len() == b@.len(),
            i <= a@.len(),
            forall|j: int| 0 <= j < i ==> #[trigger] a@[j]@ == b@[j]@,
        decreases a.len() - i,
    {
        if !crate::table::str_equal(a[i].as_str(), b[i].as_str()) {
            proof {
                assert(texts(a@)[i as int] != texts(b@)[i as int]);
            }
            return false;
        }
        i = i + 1;
    }
    proof {
        assert(texts(a@) =~= texts(b@));
    }
    true
}

fn text_sets_equal(a: &Vec<String>, b: &Vec<String>) -> (r: bool)
    ensures
        r == (texts(a@).to_set() == texts(b@).to_set()),
{
    let mut i: usize = 0;
    while i < a.len()
        invariant
            i <= a@.len(),
            forall|j: int| 0 <= j < i ==> texts(b@).contains(#[trigger] a@[j]@),
        decreases a.len() - i,
    {
        if !text_in(b, a[i].as_str()) {
            proof {
                assert(texts(a@)[i as int] == a@[i as int]@);
                assert(texts(a@).to_set().contains(a@[i as int]@));
                assert(!texts(b@).to_set().contains(a@[i as int]@));
            }
            return false;
        }
        i = i + 1;
    }
    let mut i: usize = 0;
    while i < b.len()
        invariant
            i <= b@.len(),
            forall|j: int| 0 <= j < i ==> texts(a@).contains(#[trigger] b@[j]@),
        decreases b.len() - i,
    {
        if !text_in(a, b[i].as_str()) {
            proof {
                assert(texts(b@)[i as int] == b@[i as int]@);
                assert(texts(b@).to_set().contains(b@[i as int]@));
                assert(!texts(a@).to_set().contains(b@[i as int]@));
            }
            return false;
        }
        i = i + 1;
    }
    proof {
        assert forall|x: Seq<char>| texts(a@).to_set().contains(x) implies texts(b@).to_set().contains(x) by {
            let j = choose|j: int| 0 <= j < texts(a@).len() && texts(a@)[j] == x;
            assert(a@[j]@ == x);
        }
        assert forall|x: Seq<char>| texts(b@).to_set().contains(x) implies texts(a@).to_set().contains(x) by {
            let j = choose|j: int| 0 <= j < texts(b@).len() && texts(b@)[j] == x;
            assert(b@[j]@ == x);
        }
        assert(texts(a@).to_set() =~= texts(b@).to_set());
    }
    true
}

fn opt_texts_equal(a: &Option<String>, b: &Option<String>) -> (r: bool)
    ensures
        r == (opt_text(*a) == opt_text(*b)),
{
    match (a, b) {
        (Some(x), Some(y)) => crate::table::str_equal(x.as_str(), y.as_str()),
        (None, None) => true,
        _ => false,
    }
}

/// The last index of an entry of `s` with key `k`, if any: the entry that
/// gives the field map its value at `k`.
pub fn find_last_key(s: &Vec<(String, Type)>, k: &str) -> (r: Option<usize>)
    ensures
        r matches Some(j) ==> last_key_index(s@, k@, j as int),
        r is None ==> forall|i: int| 0 <= i < s@.len() ==> #[trigger] s@[i].0@ != k@,
        r matches Some(j) ==> field_map(s@).contains_key(k@) && field_map(s@)[k@] == s@[j as int].1.model(),
        r is None <==> !field_map(s@).contains_key(k@),
{
    let mut i: usize = s.len();
    while i > 0
        invariant
            i <= s@.len(),
            forall|j: int| i <= j < s@.len() ==> #[trigger] s@[j].0@ != k@,
        decreases i,
    {
        i = i - 1;
        if crate::table::str_equal(s[i].0.as_str(), k) {
            proof {
                lemma_field_map_last(s@, k@, i as int);
            }
            return Some(i);
        }
    }
    proof {
        lemma_field_map_absent(s@, k@);
    }
    None
}

/// Whether two lists of types have equal models, element by element.
pub fn type_lists_equal(a: &Vec<Type>, b: &Vec<Type>) -> (r: bool)
    ensures
        r == (models(a@) == models(b@)),
    decreases a,
{
    proof {
        lemma_models(a@);
        lemma_models(b@);
    }
    if a.len() != b.len() {
        return false;
    }
    let mut i: usize = 0;
    while i < a.len()
        invariant
            a@.len() == b@.len(),
            i <= a@.len(),
            models(a@).len() == a@.len(),
            models(b@).len() == b@.len(),
            forall|j: int| 0 <= j < a@.len() ==> #[trigger] models(a@)[j] == a@[j].model(),
            forall|j: int| 0 <= j < b@.len() ==> #[trigger] models(b@)[j] == b@[j].model(),
            forall|j: int| 0 <= j < i ==> #[trigger] models(a@)[j] == models(b@)[j],
        decreases a.len() - i,
    {
        proof {
            assert(decreases_to!(a => a[i as int]));
        }
        if !types_equal(&a[i], &b[i]) {
            proof {
                assert(models(a@)[i as int] != models(b@)[i as int]);
            }
            return false;
        }
        i = i + 1;
    }
    proof {
        assert(models(a@) =~= models(b@));
    }
    true
}

fn field_maps_equal(a: &Vec<(String, Type)>, b: &Vec<(String, Type)>) -> (r: bool)
    ensures
        r == (field_map(a@) == field_map(b@)),
    decreases a,
{
    let mut i: usize = 0;
    while i < a.len()
        invariant
            i <= a@.len(),
            forall|j: int| 0 <= j < i ==> field_map(b@).contains_key(#[trigger] a@[j].0@)
                && field_map(a@)[a@[j].0@] == field_map(b@)[a@[j].0@],
        decreases a.len() - i,
    {
        let ghost k = a@[i as int].0@;
        let ja = match find_last_key(a, a[i].0.as_str()) {
            Some(j) => j,
            None => {
                proof {
                    assert(a@[i as int].0@ != k);
                }
                return false;
            },
        };
        proof {
            lemma_field_map_last(a@, k, ja as int);
        }
        match find_last_key(b, a[i].0.as_str()) {
            Some(jb) => {
                proof {
                    lemma_field_map_last(b@, k, jb as int);
                    assert(decreases_to!(a => a[ja as int]));
                    assert(decreases_to!(a[ja as int] => a[ja as int].1));
                }
                if !types_equal(&a[ja].1, &b[jb].1) {
                    return false;
                }
            },
            None => {
                proof {
                    lemma_field_map_absent(b@, k);
                }
                return false;
            },
        }
        i = i + 1;
    }
    let mut i: usize = 0;
    while i < b.len()
        invariant
            i <= b@.len(),
            forall|j: int| 0 <= j < i ==> field_map(a@).contains_key(#[trigger] b@[j].0@),
        decreases b.len() - i,
    {
        let ghost k = b@[i as int].0@;
        match find_last_key(a, b[i].0.as_str()) {
            Some(j) => {
                proof {
                    lemma_field_map_last(a@, k, j as int);
                }
            },
            None => {
                proof {
                    lemma_field_map_absent(a@, k);
                    lemma_field_map_keys_last(b@, k, i as int);
                }
                return false;
            },
        }
        i = i + 1;
    }
    proof {
        assert forall|k: Seq<char>| #[trigger] field_map(a@).contains_key(k) implies field_map(b@).contains_key(k)
            && field_map(a@)[k] == field_map(b@)[k] by {
            lemma_field_map_keys(a@, k);
            let j = choose|j: int| 0 <= j < a@.len() && #[trigger] a@[j].0@ == k;
        }
        assert forall|k: Seq<char>| #[trigger] field_map(b@).contains_key(k) implies field_map(a@).contains_key(k) by {
            lemma_field_map_keys(b@, k);
            let j = choose|j: int| 0 <= j < b@.len() && #[trigger] b@[j].0@ == k;
        }
        assert(field_map(a@) =~= field_map(b@));
    }
    true
}

/// A key that occurs at index `x` of `s` is a key of the field map.
pub proof fn lemma_field_map_keys_last(s: Seq<(String, Type)>, k: Seq<char>, x: int)
    requires
        0 <= x < s.len(),
        s[x].0@ == k,
    ensures
        field_map(s).contains_key(k),
    decreases s.len() - x,
{
    if forall|y: int| x < y < s.len() ==> #[trigger] s[y].0@ != k {
        lemma_field_map_last(s, k, x);
    } else {
        let y = choose|y: int| x < y < s.len() && #[trigger] s[y].0@ == k;
        lemma_field_map_keys_last(s, k, y);
    }
}

fn records_equal(a: &Vec<(Option<String>, Type)>, b: &Vec<(Option<String>, Type)>) -> (r: bool)
    ensures
        r == (record_models(a@) == record_models(b@)),
    decreases a,
{
    proof {
        lemma_record_models(a@);
        lemma_record_models(b@);
    }
    if a.len() != b.len() {
        return false;
    }
    let mut i: usize = 0;
    while i < a.len()
        invariant
            a@.len() == b@.len(),
            i <= a@.len(),
            record_models(a@).len() == a@.len(),
            record_models(b@).len() == b@.len(),
            forall|j: int| 0 <= j < a@.len() ==> #[trigger] record_models(a@)[j] == (opt_text(a@[j].0), a@[j].1.model()),
            forall|j: int| 0 <= j < b@.len() ==> #[trigger] record_models(b@)[j] == (opt_text(b@[j].0), b@[j].1.model()),
            forall|j: int| 0 <= j < i ==> #[trigger] record_models(a@)[j] == record_models(b@)[j],
        decreases a.len() - i,
    {
        proof {
            assert(decreases_to!(a => a[i as int]));
            assert(decreases_to!(a[i as int] => a[i as int].1));
        }
        if !opt_texts_equal(&a[i].0, &b[i].0) || !types_equal(&a[i].1, &b[i].1) {
            proof {
                assert(record_models(a@)[i as int] != record_models(b@)[i as int]);
            }
            return false;
        }
        i = i + 1;
    }
    proof {
        assert(record_models(a@) =~= record_models(b@));
    }
    true
}

fn mutability_equal(a: &MutabilityView, b: &MutabilityView) -> (r: bool)
    ensures
        r == (*a == *b),
{
    match (a, b) {
        (MutabilityView::Mutable, MutabilityView::Mutable) => true,
        (MutabilityView::ReadOnly, MutabilityView::ReadOnly) => true,
        (MutabilityView::Immutable, MutabilityView::Immutable) => true,
        _ => false,
    }
}

/// Whether two types are equal: the same variant with equal parts, class
/// fields compared as maps and method names as sets.
pub fn types_equal(a: &Type, b: &Type) -> (r: bool)
    ensures
        r == (a.model() == b.model()),
    decreases a,
{
    match (a, b) {
        (Type::Int, Type::Int) => true,
        (Type::Float, Type::Float) => true,
        (Type::Bool, Type::Bool) => true,
        (Type::Str, Type::Str) => true,
        (Type::NoneType, Type::NoneType) => true,
        (Type::Never, Type::Never) => true,
        (
            Type::Class { name: n1, type_args: a1, parent: p1, traits: t1, interfaces: i1, fields: f1, is_sealed: s1 },
            Type::Class { name: n2, type_args: a2, parent: p2, traits: t2, interfaces: i2, fields: f2, is_sealed: s2 },
        ) => {
            crate::table::str_equal(n1.as_str(), n2.as_str()) && *s1 == *s2 && opt_texts_equal(p1, p2)
                && texts_equal(t1, t2) && texts_equal(i1, i2) && type_lists_equal(a1, a2)
                && field_maps_equal(f1, f2)
        },
        (
            Type::Interface { name: n1, type_args: a1, methods: m1 },
            Type::Interface { name: n2, type_args: a2, methods: m2 },
        ) => {
            crate::table::str_equal(n1.as_str(), n2.as_str()) && type_lists_equal(a1, a2)
                && text_sets_equal(m1, m2)
        },
        (
            Type::Trait { name: n1, type_args: a1, methods: m1 },
            Type::Trait { name: n2, type_args: a2, methods: m2 },
        ) => {
            crate::table::str_equal(n1.as_str(), n2.as_str()) && type_lists_equal(a1, a2)
                && text_sets_equal(m1, m2)
        },
        (Type::Record(e1), Type::Record(e2)) => records_equal(e1, e2),
        (Type::Function { params: p1, return_type: r1 }, Type::Function { params: p2, return_type: r2 }) => {
            type_lists_equal(p1, p2) && types_equal(r1, r2)
        },
        (Type::Union(m1), Type::Union(m2)) => type_lists_equal(m1, m2),
        (Type::View { mutability: m1, inner: i1 }, Type::View { mutability: m2, inner: i2 }) => {
            mutability_equal(m1, m2) && types_equal(i1, i2)
        },
        (Type::TypeVar(n1), Type::TypeVar(n2)) => crate::table::str_equal(n1.as_str(), n2.as_str()),
        _ => false,
    }
}

/// The members of a union in the making: each union among `ts` gives its own
/// members, each `Never` is left out, and every other type stands for itself.
pub open spec fn flatten(ts: Seq<TypeModel>) -> Seq<TypeModel>
    decreases ts.len(),
{
    if ts.len() == 0 {
        Seq::empty()
    } else {
        let f = flatten(ts.drop_last());
        match ts.last() {
            TypeModel::Union(members) => f + members,
            TypeModel::Never => f,
            other => f.push(other),
        }
    }
}

/// The first occurrence of each element, in order.
pub open spec fn dedup(ts: Seq<TypeModel>) -> Seq<TypeModel>
    decreases ts.len(),
{
    if ts.len() == 0 {
        Seq::empty()
    } else {
        let d = dedup(ts.drop_last());
        if d.contains(ts.last()) {
            d
        } else {
            d.push(ts.last())
        }
    }
}

/// The union of a list of types: `Never` when no member is left, the member
/// itself when one is left, and a union of the members otherwise.
pub open spec fn union_of(ts: Seq<TypeModel>) -> TypeModel {
    let u = dedup(flatten(ts));
    if u.len() == 0 {
        TypeModel::Never
    } else if u.len() == 1 {
        u[0]
    } else {
        TypeModel::Union(u)
    }
}

/// Whether a type with the model of `t` occurs in `v`.
pub fn contains_type(v: &Vec<Type>, t: &Type) -> (r: bool)
    ensures
        r == models(v@).contains(t.model()),
{
    proof {
        lemma_models(v@);
    }
    let mut i: usize = 0;
    while i < v.len()
        invariant
            i <= v@.len(),
            models(v@).len() == v@.len(),
            forall|j: int| 0 <= j < v@.len() ==> #[trigger] models(v@)[j] == v@[j].model(),
            forall|j: int| 0 <= j < i ==> #[trigger] models(v@)[j] != t.model(),
        decreases v.len() - i,
    {
        if types_equal(&v[i], t) {
            proof {
                assert(models(v@)[i as int] == t.model());
            }
            return true;
        }
        i = i + 1;
    }
    false
}

proof fn lemma_models_append(a: Seq<Type>, b: Seq<Type>)
    ensures
        models(a + b) == models(a) + models(b),
{
    lemma_models(a);
    lemma_models(b);
    lemma_models(a + b);
    assert(models(a + b) =~= models(a) + models(b));
}

pub proof fn lemma_models_skip(s: Seq<Type>, ms: Seq<TypeModel>, k: int)
    requires
        0 <= k < ms.len(),
        models(s) == ms.skip(k),
    ensures
        s.len() > 0,
        s[0].model() == ms[k],
        models(s.subrange(1, s.len() as int)) == ms.skip(k + 1),
{
    lemma_models(s);
    let t = s.subrange(1, s.len() as int);
    lemma_models(t);
    assert(models(s)[0] == s[0].model());
    assert forall|i: int| 0 <= i < t.len() implies #[trigger] models(t)[i] == ms.skip(k + 1)[i] by {
        assert(t[i] == s[i + 1]);
        assert(models(s)[i + 1] == s[i + 1].model());
    }
    assert(models(t) =~= ms.skip(k + 1));
}

impl Type {
    /// Builds the union of `types`: the members of nested unions are taken
    /// in, `Never` is left out (it is the identity of union), and repeated
    /// members are kept once, in order of first occurrence.
    pub fn make_union(types: Vec<Type>) -> (r: Type)
        ensures
            r.model() == union_of(models(types@)),
    {
        let ghost ms = models(types@);
        let mut rest = types;
        let mut flattened: Vec<Type> = Vec::new();
        let ghost mut k: int = 0;
        proof {
            lemma_models(types@);
            lemma_models(rest@);
            assert(ms.skip(0) =~= ms);
            assert(ms.take(0) =~= Seq::<TypeModel>::empty());
        }
        while rest.len() > 0
            invariant
                0 <= k <= ms.len(),
                rest@.len() == ms.len() - k,
                models(rest@) == ms.skip(k),
                models(flattened@) == flatten(ms.take(k)),
            decreases rest.len(),
        {
            proof {
                lemma_models_skip(rest@, ms, k);
                lemma_models(rest@);
            }
            let ghost before = flattened@;
            let t = rest.remove(0);
            proof {
                assert(ms.take(k + 1).drop_last() =~= ms.take(k));
                assert(ms.take(k + 1).last() == ms[k]);
            }
            match t {
                Type::Union(mut members) => {
                    proof {
                        lemma_models_append(before, members@);
                    }
                    flattened.append(&mut members);
                },
                Type::Never => {},
                other => {
                    flattened.push(other);
                    proof {
                        assert(flattened@.drop_last() =~= before);
                    }
                },
            }
            proof {
                k = k + 1;
            }
        }
        proof {
            lemma_models(rest@);
            assert(ms.take(k) =~= ms);
        }
        let ghost fm = models(flattened@);
        let mut rest = flattened;
        let mut unique: Vec<Type> = Vec::new();
        let ghost mut k: int = 0;
        proof {
            lemma_models(rest@);
            assert(fm.skip(0) =~= fm);
            assert(fm.take(0) =~= Seq::<TypeModel>::empty());
        }
        while rest.len() > 0
            invariant
                0 <= k <= fm.len(),
                rest@.len() == fm.len() - k,
                models(rest@) == fm.skip(k),
                models(unique@) == dedup(fm.take(k)),
            decreases rest.len(),
        {
            proof {
                lemma_models_skip(rest@, fm, k);
            }
            let t = rest.remove(0);
            proof {
                assert(fm.take(k + 1).drop_last() =~= fm.take(k));
                assert(fm.take(k + 1).last() == fm[k]);
            }
            if !contains_type(&unique, &t) {
                let ghost before = unique@;
                unique.push(t);
                proof {
                    assert(unique@.drop_last() =~= before);
                }
            }
            proof {
                k = k + 1;
            }
        }
        proof {
            lemma_models(rest@);
            assert(fm.take(k) =~= fm);
            lemma_models(unique@);
        }
        if unique.len() == 0 {
            Type::Never
        } else if unique.len() == 1 {
            match unique.pop() {
                Some(t) => t,
                None => Type::Never,
            }
        } else {
            Type::Union(unique)
        }
    }
}

/// The escape of one character inside a quoted text: a quote, backslash,
/// newline, tab or return becomes a backslash sequence, any other character
/// stays as it is.
pub open spec fn escape_char(c: char) -> Seq<char> {
    if c == '"' {
        "\\\""@
    } else if c == '\\' {
        "\\\\"@
    } else if c == '\n' {
        "\\n"@
    } else if c == '\t' {
        "\\t"@
    } else if c == '\r' {
        "\\r"@
    } else {
        seq![c]
    }
}

/// `s` with each character escaped (see `escape_char`).
pub open spec fn escaped(s: Seq<char>) -> Seq<char>
    decreases s.len(),
{
    if s.len() == 0 {
        Seq::empty()
    } else {
        escaped(s.drop_last()) + escape_char(s.last())
    }
}

/// `s` escaped, in double quotes.
pub open spec fn quoted_text(s: Seq<char>) -> Seq<char> {
    seq!['"'] + escaped(s) + seq!['"']
}

/// The quoted texts of `v`, with ", " between each two.
pub open spec fn quoted_items(v: Seq<String>) -> Seq<char>
    decreases v.len(),
{
    if v.len() == 0 {
        Seq::empty()
    } else if v.len() == 1 {
        quoted_text(v[0]@)
    } else {
        quoted_items(v.drop_last()) + ", "@ + quoted_text(v.last()@)
    }
}

/// The text of an optional name: `Some("...")` or `None`.
pub open spec fn opt_quoted_text(o: Option<String>) -> Seq<char> {
    match o {
        Some(x) => "Some("@ + quoted_text(x@) + seq![')'],
        None => "None"@,
    }
}

/// The text of a mutability view.
pub open spec fn mutability_text(m: MutabilityView) -> Seq<char> {
    match m {
        MutabilityView::Mutable => "Mutable"@,
        MutabilityView::ReadOnly => "ReadOnly"@,
        MutabilityView::Immutable => "Immutable"@,
    }
}

/// The text of a type in the notation of Rust's `Debug` output, with class
/// fields and method names in the order they are held.
pub open spec fn type_text(t: Type) -> Seq<char>
    decreases t,
{
    match t {
        Type::Int => "Int"@,
        Type::Float => "Float"@,
        Type::Bool => "Bool"@,
        Type::Str => "Str"@,
        Type::NoneType => "None"@,
        Type::Never => "Never"@,
        Type::Class { name, type_args, parent, traits, interfaces, fields, is_sealed } => class_head_text(
            name@,
            type_items(type_args@),
            parent,
            traits@,
            interfaces@,
        ) + field_items(fields@) + "}, is_sealed: "@ + (if is_sealed {
            "true }"@
        } else {
            "false }"@
        }),
        Type::Interface { name, type_args, methods } => "Interface { name: "@ + quoted_text(name@) + ", type_args: "@
            + seq!['['] + type_items(type_args@) + seq![']'] + ", methods: "@ + "{"@ + quoted_items(methods@) + "}"@
            + " }"@,
        Type::Trait { name, type_args, methods } => "Trait { name: "@ + quoted_text(name@) + ", type_args: "@
            + seq!['['] + type_items(type_args@) + seq![']'] + ", methods: "@ + "{"@ + quoted_items(methods@) + "}"@
            + " }"@,
        Type::Record(entries) => "Record(["@ + entry_items(entries@) + "])"@,
        Type::Function { params, return_type } => "Function { params: "@ + seq!['['] + type_items(params@) + seq![']']
            + ", return_type: "@ + type_text(*return_type) + " }"@,
        Type::Union(members) => "Union("@ + seq!['['] + type_items(members@) + seq![']'] + seq![')'],
        Type::View { mutability, inner } => "View { mutability: "@ + mutability_text(mutability) + ", inner: "@
            + type_text(*inner) + " }"@,
        Type::TypeVar(name) => "TypeVar("@ + quoted_text(name@) + seq![')'],
    }
}

/// The text of a class type up to its fields, given the text of its type
/// arguments.
pub open spec fn class_head_text(
    name: Seq<char>,
    args_text: Seq<char>,
    parent: Option<String>,
    traits: Seq<String>,
    interfaces: Seq<String>,
) -> Seq<char> {
    "Class { name: "@ + quoted_text(name) + ", type_args: "@ + seq!['['] + args_text + seq![']'] + ", parent: "@
        + opt_quoted_text(parent) + ", traits: "@ + "["@ + quoted_items(traits) + "]"@ + ", interfaces: "@ + "["@
        + quoted_items(interfaces) + "]"@ + ", fields: {"@
}

/// The texts of types, with ", " between each two.
pub open spec fn type_items(ts: Seq<Type>) -> Seq<char>
    decreases ts,
{
    if ts.len() == 0 {
        Seq::empty()
    } else if ts.len() == 1 {
        type_text(ts[0])
    } else {
        type_items(ts.drop_last()) + ", "@ + type_text(ts.last())
    }
}

/// The texts `"name": type` of class fields, with ", " between each two.
pub open spec fn field_items(fs: Seq<(String, Type)>) -> Seq<char>
    decreases fs,
{
    if fs.len() == 0 {
        Seq::empty()
    } else if fs.len() == 1 {
        quoted_text(fs[0].0@) + ": "@ + type_text(fs[0].1)
    } else {
        field_items(fs.drop_last()) + ", "@ + quoted_text(fs.last().0@) + ": "@ + type_text(fs.last().1)
    }
}

/// The texts `(name, type)` of record entries, with ", " between each two.
pub open spec fn entry_items(es: Seq<(Option<String>, Type)>) -> Seq<char>
    decreases es,
{
    if es.len() == 0 {
        Seq::empty()
    } else if es.len() == 1 {
        seq!['('] + opt_quoted_text(es[0].0) + ", "@ + type_text(es[0].1) + seq![')']
    } else {
        entry_items(es.drop_last()) + ", "@ + seq!['('] + opt_quoted_text(es.last().0) + ", "@ + type_text(es.last().1)
            + seq![')']
    }
}

/// Appends `s` in double quotes, with quotes, backslashes and the common
/// control characters escaped.
pub fn push_quoted(out: &mut String, s: &str)
    ensures
        old(out)@.is_prefix_of(final(out)@),
        final(out)@ == old(out)@ + quoted_text(s@),
{
    let ghost p = out@;
    out.push('"');
    let n = s.unicode_len();
    let mut i: usize = 0;
    proof {
        assert(s@.take(0) =~= Seq::<char>::empty());
    }
    while i < n
        invariant
            n == s@.len(),
            i <= n,
            out@ == p + seq!['"'] + escaped(s@.take(i as int)),
        decreases n - i,
    {
        let c = s.get_char(i);
        let ghost before = out@;
        if c == '"' {
            out.append("\\\"");
        } else if c == '\\' {
            out.append("\\\\");
        } else if c == '\n' {
            out.append("\\n");
        } else if c == '\t' {
            out.append("\\t");
        } else if c == '\r' {
            out.append("\\r");
        } else {
            out.push(c);
        }
        proof {
            assert(s@.take(i + 1).drop_last() =~= s@.take(i as int));
            assert(out@ =~= before + escape_char(c));
            assert(out@ =~= p + seq!['"'] + escaped(s@.take(i + 1)));
        }
        i = i + 1;
    }
    out.push('"');
    proof {
        assert(s@.take(n as int) =~= s@);
        assert(out@ =~= p + quoted_text(s@));
        assert(out@.subrange(0, p.len() as int) =~= p);
    }
}

/// Appends the quoted texts of `v` with ", " between each two, between
/// `open` and `close`.
pub fn push_quoted_list(out: &mut String, v: &Vec<String>, open: &str, close: &str)
    ensures
        old(out)@.is_prefix_of(final(out)@),
        final(out)@ == old(out)@ + open@ + quoted_items(v@) + close@,
{
    let ghost p = out@;
    out.append(open);
    proof {
        assert(v@.take(0) =~= Seq::<String>::empty());
    }
    let mut i: usize = 0;
    while i < v.len()
        invariant
            i <= v@.len(),
            out@ == p + open@ + quoted_items(v@.take(i as int)),
        decreases v.len() - i,
    {
        let ghost before = out@;
        if i > 0 {
            out.append(", ");
        }
        push_quoted(out, v[i].as_str());
        proof {
            assert(v@.take(i + 1).drop_last() =~= v@.take(i as int));
            if i == 0 {
                assert(out@ =~= p + open@ + quoted_items(v@.take(i + 1)));
            } else {
                assert(out@ =~= p + open@ + quoted_items(v@.take(i + 1)));
            }
        }
        i = i + 1;
    }
    out.append(close);
    proof {
        assert(v@.take(v@.len() as int) =~= v@);
        assert(out@.subrange(0, p.len() as int) =~= p);
    }
}

fn push_type_list(out: &mut String, v: &Vec<Type>)
    ensures
        final(out)@ == old(out)@ + seq!['['] + type_items(v@) + seq![']'],
    decreases v, 0nat,
{
    let ghost p = out@;
    out.push('[');
    proof {
        assert(v@.take(0) =~= Seq::<Type>::empty());
    }
    let mut i: usize = 0;
    while i < v.len()
        invariant
            i <= v@.len(),
            out@ == p + seq!['['] + type_items(v@.take(i as int)),
        decreases v.len() - i,
    {
        let ghost before = out@;
        if i > 0 {
            out.append(", ");
        }
        proof {
            assert(decreases_to!(v => v[i as int]));
        }
        v[i].describe_into(out);
        proof {
            assert(v@.take(i + 1).drop_last() =~= v@.take(i as int));
            assert(out@ =~= p + seq!['['] + type_items(v@.take(i + 1)));
        }
        i = i + 1;
    }
    out.push(']');
    proof {
        assert(v@.take(v@.len() as int) =~= v@);
    }
}

/// Appends the texts `"name": type` of class fields with ", " between each
/// two.
fn push_field_items(out: &mut String, fields: &Vec<(String, Type)>)
    ensures
        final(out)@ == old(out)@ + field_items(fields@),
    decreases fields, 0nat,
{
    let ghost q = out@;
    proof {
        assert(fields@.take(0) =~= Seq::<(String, Type)>::empty());
        assert(q =~= q + field_items(fields@.take(0)));
    }
    let mut i: usize = 0;
    while i < fields.len()
        invariant
            i <= fields@.len(),
            out@ == q + field_items(fields@.take(i as int)),
        decreases fields.len() - i,
    {
        if i > 0 {
            out.append(", ");
        }
        push_quoted(out, fields[i].0.as_str());
        out.append(": ");
        proof {
            assert(decreases_to!(fields => fields[i as int]));
            assert(decreases_to!(fields[i as int] => fields[i as int].1));
        }
        fields[i].1.describe_into(out);
        proof {
            assert(fields@.take(i + 1).drop_last() =~= fields@.take(i as int));
            assert(out@ =~= q + field_items(fields@.take(i + 1)));
        }
        i = i + 1;
    }
    proof {
        assert(fields@.take(fields@.len() as int) =~= fields@);
    }
}

fn push_opt_quoted(out: &mut String, o: &Option<String>)
    ensures
        final(out)@ == old(out)@ + opt_quoted_text(*o),
{
    match o {
        Some(x) => {
            out.append("Some(");
            push_quoted(out, x.as_str());
            out.push(')');
        },
        None => out.append("None"),
    }
}

impl Type {
    /// A text for the type in the notation of Rust's `Debug` output, with
    /// class fields and method names listed in order.
    pub fn describe(&self) -> (r: String)
        ensures
            r@ == type_text(*self),
            *self is Int ==> r@ == "Int"@,
            *self is Float ==> r@ == "Float"@,
            *self is Bool ==> r@ == "Bool"@,
            *self is Str ==> r@ == "Str"@,
            *self is NoneType ==> r@ == "None"@,
            *self is Never ==> r@ == "Never"@,
    {
        match self {
            Type::Int => String::from_str("Int"),
            Type::Float => String::from_str("Float"),
            Type::Bool => String::from_str("Bool"),
            Type::Str => String::from_str("Str"),
            Type::NoneType => String::from_str("None"),
            Type::Never => String::from_str("Never"),
            _ => {
                let mut out = String::new();
                self.describe_into(&mut out);
                proof {
                    assert(out@ =~= type_text(*self));
                }
                out
            },
        }
    }

    fn describe_into(&self, out: &mut String)
        ensures
            final(out)@ == old(out)@ + type_text(*self),
        decreases self, 1nat,
    {
        let ghost p = out@;
        match self {
            Type::Int => out.append("Int"),
            Type::Float => out.append("Float"),
            Type::Bool => out.append("Bool"),
            Type::Str => out.append("Str"),
            Type::NoneType => out.append("None"),
            Type::Never => out.append("Never"),
            Type::Class { .. } => self.describe_class_into(out),
            Type::Interface { name, type_args, methods } => {
                out.append("Interface { name: ");
                push_quoted(out, name.as_str());
                out.append(", type_args: ");
                push_type_list(out, type_args);
                out.append(", methods: ");
                push_quoted_list(out, methods, "{", "}");
                out.append(" }");
                proof {
                    assert(out@ =~= p + type_text(*self));
                }
            },
            Type::Trait { name, type_args, methods } => {
                out.append("Trait { name: ");
                push_quoted(out, name.as_str());
                out.append(", type_args: ");
                push_type_list(out, type_args);
                out.append(", methods: ");
                push_quoted_list(out, methods, "{", "}");
                out.append(" }");
                proof {
                    assert(out@ =~= p + type_text(*self));
                }
            },
            Type::Record(_) => self.describe_record_into(out),
            Type::Function { params, return_type } => {
                out.append("Function { params: ");
                push_type_list(out, params);
                out.append(", return_type: ");
                return_type.describe_into(out);
                out.append(" }");
                proof {
                    assert(out@ =~= p + type_text(*self));
                }
            },
            Type::Union(members) => {
                out.append("Union(");
                push_type_list(out, members);
                out.push(')');
                proof {
                    assert(out@ =~= p + type_text(*self));
                }
            },
            Type::View { mutability, inner } => {
                out.append("View { mutability: ");
                match mutability {
                    MutabilityView::Mutable => out.append("Mutable"),
                    MutabilityView::ReadOnly => out.append("ReadOnly"),
                    MutabilityView::Immutable => out.append("Immutable"),
                }
                out.append(", inner: ");
                inner.describe_into(out);
                out.append(" }");
                proof {
                    assert(out@ =~= p + type_text(*self));
                }
            },
            Type::TypeVar(name) => {
                out.append("TypeVar(");
                push_quoted(out, name.as_str());
                out.push(')');
                proof {
                    assert(out@ =~= p + type_text(*self));
                }
            },
        }
    }

    #[verifier::loop_isolation(false)]
    fn describe_class_into(&self, out: &mut String)
        requires
            *self is Class,
        ensures
            final(out)@ == old(out)@ + type_text(*self),
        decreases self, 0nat,
    {
        let ghost p = out@;
        match self {
            Type::Class { name, type_args, parent, traits, interfaces, fields, is_sealed } => {
                out.append("Class { name: ");
                push_quoted(out, name.as_str());
                out.append(", type_args: ");
                push_type_list(out, type_args);
                out.append(", parent: ");
                push_opt_quoted(out, parent);
                out.append(", traits: ");
                push_quoted_list(out, traits, "[", "]");
                out.append(", interfaces: ");
                push_quoted_list(out, interfaces, "[", "]");
                out.append(", fields: {");
                let ghost q = out@;
                proof {
                    assert(q =~= p + class_head_text(name@, type_items(type_args@), *parent, traits@, interfaces@));
                }
                push_field_items(out, fields);
                let ghost r = out@;
                out.append("}, is_sealed: ");
                if *is_sealed {
                    out.append("true }");
                } else {
                    out.append("false }");
                }
                proof {
                    assert(out@ =~= p + type_text(*self));
                }
            },
            _ => {},
        }
    }

    #[verifier::loop_isolation(false)]
    fn describe_record_into(&self, out: &mut String)
        requires
            *self is Record,
        ensures
            final(out)@ == old(out)@ + type_text(*self),
        decreases self, 0nat,
    {
        let ghost p = out@;
        match self {
            Type::Record(entries) => {
                out.append("Record([");
                let ghost q = out@;
                proof {
                    assert(entries@.take(0) =~= Seq::<(Option<String>, Type)>::empty());
                    assert(q =~= q + entry_items(entries@.take(0)));
                }
                let mut i: usize = 0;
                while i < entries.len()
                    invariant
                        i <= entries@.len(),
                        out@ == q + entry_items(entries@.take(i as int)),
                    decreases entries.len() - i,
                {
                    let ghost before = out@;
                    if i > 0 {
                        out.append(", ");
                    }
                    out.push('(');
                    push_opt_quoted(out, &entries[i].0);
                    out.append(", ");
                    proof {
                        assert(decreases_to!(entries => entries[i as int]));
                        assert(decreases_to!(entries[i as int] => entries[i as int].1));
                    }
                    entries[i].1.describe_into(out);
                    out.push(')');
                    proof {
                        assert(entries@.take(i + 1).drop_last() =~= entries@.take(i as int));
                        assert(out@ =~= q + entry_items(entries@.take(i + 1)));
                    }
                    i = i + 1;
                }
                proof {
                    assert(entries@.take(entries@.len() as int) =~= entries@);
                }
                out.append("])");
                proof {
                    assert(out@ =~= p + type_text(*self));
                }
            },
            _ => {},
        }
    }
}

/// Whether `t` is a type that a union takes in as one member: neither a
/// union nor `Never`.
pub open spec fn is_plain_member(t: TypeModel) -> bool {
    !(t is Union) && !(t is Never)
}

/// Whether every union among `ts` has only plain members.
pub open spec fn nested_unions_plain(ts: Seq<TypeModel>) -> bool {
    forall|i: int, k: int|
        0 <= i < ts.len() && (#[trigger] ts[i] is Union) && 0 <= k < ts[i]->Union_0.len() ==> is_plain_member(
            #[trigger] ts[i]->Union_0[k],
        )
}

pub proof fn lemma_dedup(s: Seq<TypeModel>)
    ensures
        dedup(s).no_duplicates(),
        forall|x: TypeModel| dedup(s).contains(x) <==> s.contains(x),
    decreases s.len(),
{
    if s.len() > 0 {
        let d = s.drop_last();
        let last = s.last();
        lemma_dedup(d);
        let dd = dedup(d);
        assert forall|x: TypeModel| s.contains(x) <==> (d.contains(x) || x == last) by {
            if s.contains(x) {
                let i = choose|i: int| 0 <= i < s.len() && s[i] == x;
                if i < s.len() - 1 {
                    assert(d[i] == x);
                }
            }
            if d.contains(x) {
                let i = choose|i: int| 0 <= i < d.len() && d[i] == x;
                assert(s[i] == x);
            }
            if x == last {
                assert(s[s.len() - 1] == x);
            }
        }
        if dd.contains(last) {
            assert(dedup(s) == dd);
        } else {
            let u = dd.push(last);
            assert(dedup(s) == u);
            assert forall|x: TypeModel| u.contains(x) <==> (dd.contains(x) || x == last) by {
                if u.contains(x) {
                    let i = choose|i: int| 0 <= i < u.len() && u[i] == x;
                    if i < dd.len() {
                        assert(dd[i] == x);
                    }
                }
                if dd.contains(x) {
                    let i = choose|i: int| 0 <= i < dd.len() && dd[i] == x;
                    assert(u[i] == x);
                }
                if x == last {
                    assert(u[dd.len() as int] == x);
                }
            }
            assert forall|i: int, j: int| 0 <= i < u.len() && 0 <= j < u.len() && i != j implies u[i] != u[j] by {
                if i == u.len() - 1 {
                    assert(dd.contains(u[j]) || j == u.len() - 1);
                } else if j == u.len() - 1 {
                    assert(dd.contains(u[i]));
                } else {
                    assert(u[i] == dd[i] && u[j] == dd[j]);
                }
            }
        }
    }
}

pub proof fn lemma_dedup_of_distinct(s: Seq<TypeModel>)
    requires
        s.no_duplicates(),
    ensures
        dedup(s) == s,
    decreases s.len(),
{
    if s.len() > 0 {
        let d = s.drop_last();
        assert(d.no_duplicates());
        lemma_dedup_of_distinct(d);
        assert(!d.contains(s.last())) by {
            if d.contains(s.last()) {
                let i = choose|i: int| 0 <= i < d.len() && d[i] == s.last();
                assert(s[i] == s[s.len() - 1]);
            }
        }
        assert(d.push(s.last()) =~= s);
    }
}

pub proof fn lemma_flatten_plain(ts: Seq<TypeModel>)
    requires
        nested_unions_plain(ts),
    ensures
        forall|k: int| 0 <= k < flatten(ts).len() ==> is_plain_member(#[trigger] flatten(ts)[k]),
    decreases ts.len(),
{
    if ts.len() > 0 {
        let d = ts.drop_last();
        assert(nested_unions_plain(d)) by {
            assert forall|i: int, k: int|
                0 <= i < d.len() && (#[trigger] d[i] is Union) && 0 <= k < d[i]->Union_0.len() implies is_plain_member(
                #[trigger] d[i]->Union_0[k],
            ) by {
                assert(d[i] == ts[i]);
            }
        }
        lemma_flatten_plain(d);
        let f = flatten(d);
        match ts.last() {
            TypeModel::Union(members) => {
                assert forall|k: int| 0 <= k < flatten(ts).len() implies is_plain_member(#[trigger] flatten(ts)[k]) by {
                    if k >= f.len() {
                        assert(flatten(ts)[k] == members[k - f.len()]);
                        assert(ts[ts.len() - 1] is Union);
                        assert(ts[ts.len() - 1]->Union_0[k - f.len()] == members[k - f.len()]);
                    } else {
                        assert(flatten(ts)[k] == f[k]);
                    }
                }
            },
            TypeModel::Never => {},
            other => {
                assert forall|k: int| 0 <= k < flatten(ts).len() implies is_plain_member(#[trigger] flatten(ts)[k]) by {
                    if k < f.len() {
                        assert(flatten(ts)[k] == f[k]);
                    }
                }
            },
        }
    }
}

/// The union of no types is `Never`.
pub proof fn law_union_of_nothing()
    ensures
        union_of(Seq::empty()) == TypeModel::Never,
{
    assert(dedup(flatten(Seq::<TypeModel>::empty())) =~= Seq::<TypeModel>::empty());
}

/// `Never` is the identity of union: adding it changes nothing.
pub proof fn law_never_is_union_identity(ts: Seq<TypeModel>)
    ensures
        union_of(ts.push(TypeModel::Never)) == union_of(ts),
{
    assert(ts.push(TypeModel::Never).drop_last() =~= ts);
}

/// The union of one plain type is that type.
pub proof fn law_union_of_one(t: TypeModel)
    requires
        is_plain_member(t),
    ensures
        union_of(seq![t]) == t,
{
    assert(seq![t].drop_last() =~= Seq::<TypeModel>::empty());
    assert(flatten(Seq::<TypeModel>::empty()) =~= Seq::<TypeModel>::empty());
    assert(flatten(seq![t]) =~= seq![t]);
    assert(dedup(Seq::<TypeModel>::empty()) =~= Seq::<TypeModel>::empty());
    assert(dedup(seq![t]) =~= seq![t]);
}

/// When the unions taken in have only plain members, a union built by
/// `union_of` has at least two members, no member twice, and exactly the
/// members that the flattened list has.
pub proof fn law_union_members(ts: Seq<TypeModel>)
    requires
        nested_unions_plain(ts),
    ensures
        union_of(ts) matches TypeModel::Union(u) ==> u.len() >= 2 && u.no_duplicates() && forall|x: TypeModel|
            u.contains(x) <==> flatten(ts).contains(x),
{
    let u = dedup(flatten(ts));
    lemma_dedup(flatten(ts));
    lemma_flatten_plain(ts);
    if u.len() == 1 {
        assert(u.contains(u[0]));
        let j = choose|j: int| 0 <= j < flatten(ts).len() && flatten(ts)[j] == u[0];
        assert(is_plain_member(flatten(ts)[j]));
    }
}

/// Building a union is idempotent: the union of the union is the union,
/// when the unions that it takes in have only plain members.
pub proof fn law_union_idempotent(ts: Seq<TypeModel>)
    requires
        nested_unions_plain(ts),
    ensures
        union_of(seq![union_of(ts)]) == union_of(ts),
{
    let u = dedup(flatten(ts));
    lemma_dedup(flatten(ts));
    lemma_flatten_plain(ts);
    assert forall|k: int| 0 <= k < u.len() implies is_plain_member(#[trigger] u[k]) by {
        assert(u.contains(u[k]));
        assert(flatten(ts).contains(u[k]));
        let j = choose|j: int| 0 <= j < flatten(ts).len() && flatten(ts)[j] == u[k];
        assert(is_plain_member(flatten(ts)[j]));
    }
    if u.len() == 0 {
        law_union_of_nothing();
        assert(seq![TypeModel::Never].drop_last() =~= Seq::<TypeModel>::empty());
        assert(flatten(Seq::<TypeModel>::empty()) =~= Seq::<TypeModel>::empty());
        assert(flatten(seq![TypeModel::Never]) =~= Seq::<TypeModel>::empty());
        assert(dedup(Seq::<TypeModel>::empty()) =~= Seq::<TypeModel>::empty());
    } else if u.len() == 1 {
        assert(is_plain_member(u[0]));
        law_union_of_one(u[0]);
    } else {
        let one = seq![TypeModel::Union(u)];
        assert(one.drop_last() =~= Seq::<TypeModel>::empty());
        assert(flatten(Seq::<TypeModel>::empty()) =~= Seq::<TypeModel>::empty());
        assert(flatten(one) =~= u);
        lemma_dedup_of_distinct(u);
    }
}

} // verus!
